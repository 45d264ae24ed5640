//! The lines of a listing: a line for the listed directory, then one line for
//! each entry.

use crate::colors::Colors;
use crate::decoration::{decorated, described, run};
use crate::order::{lemma_ordered_sorted, ordered, sort_entries};
use crate::path::{
    entry_name, final_segment, parent_chars, parent_of, segment_chars, views, EntryView, LsiPath,
    LsiPathKind,
};
use crate::text::{chars_of, push_all, string_of};
use crate::width::columns_of;
use vstd::prelude::*;

verus! {

/// What is drawn before an entry: a corner before the last one, a branch
/// before the others.
pub open spec fn branch(is_last: bool) -> Seq<char> {
    if is_last {
        seq!['\u{2514}', '\u{2500}', '\u{2500}']
    } else {
        seq!['\u{251c}', '\u{2500}', '\u{2500}']
    }
}

/// The colour of the name of a directory or of a file.
pub open spec fn kind_color(colors: Colors, kind: LsiPathKind) -> Seq<char> {
    match kind {
        LsiPathKind::Dir => colors.dir@,
        LsiPathKind::File => colors.file@,
    }
}

/// What stands in place of the description of an entry that has none.
pub open spec fn kind_label(kind: LsiPathKind) -> Seq<char> {
    match kind {
        LsiPathKind::Dir => seq!['D', 'i', 'r'],
        LsiPathKind::File => seq!['F', 'i', 'l', 'e'],
    }
}

/// The entry `entry` as it is once its description has been decorated.
pub open spec fn decorated_entry(
    entry: EntryView,
    colors: Colors,
    cap: Option<usize>,
    is_last: bool,
) -> EntryView {
    match entry.description {
        Some(d) => described(
            entry,
            decorated(d, colors, cap, is_last, columns_of(entry_name(entry))),
        ),
        None => entry,
    }
}

/// The line of an entry whose description has been decorated: the branch,
/// the coloured name, and behind a tab and a slash the description, or the
/// label of its kind where it has none.
pub open spec fn line_of(entry: EntryView, is_last: bool, colors: Colors) -> Seq<char> {
    branch(is_last) + seq![' '] + kind_color(colors, entry.kind) + entry_name(entry) + colors.end@
        + seq!['\t', '/', ' '] + match entry.description {
        Some(d) => d,
        None => kind_label(entry.kind),
    }
}

/// The name of the listed directory `cwd` in its colour, with a separator
/// behind it.
pub open spec fn own_crumb(cwd: Seq<char>, colors: Colors) -> Seq<char> {
    colors.current_dir@ + final_segment(cwd) + seq!['/'] + colors.end@
}

/// What is shown of the parent of the listed directory: nothing of the root,
/// which the separator behind it already stands for.
pub open spec fn shown_parent(cwd: Seq<char>) -> Seq<char> {
    if parent_of(cwd) == seq!['/'] {
        Seq::empty()
    } else {
        parent_of(cwd)
    }
}

/// The first line of a listing: the parent of the listed directory in the
/// colour of directories, then the directory's own name.  A path without a
/// final segment, such as the root, has no parent to show.
pub open spec fn breadcrumb(cwd: Seq<char>, colors: Colors) -> Seq<char> {
    if final_segment(cwd).len() > 0 {
        colors.dir@ + shown_parent(cwd) + seq!['/'] + colors.end@ + own_crumb(cwd, colors)
    } else {
        own_crumb(cwd, colors)
    }
}

/// The text of each of `lines`.
pub open spec fn texts(lines: Seq<String>) -> Seq<Seq<char>> {
    Seq::new(lines.len(), |i: int| lines[i]@)
}

/// The lines of entries that stand in their final order: each entry with its
/// description decorated, the last one marked as the last.
pub open spec fn entry_lines(entries: Seq<EntryView>, colors: Colors, cap: Option<usize>) -> Seq<
    Seq<char>,
> {
    Seq::new(
        entries.len(),
        |i: int|
            line_of(
                decorated_entry(entries[i], colors, cap, i == entries.len() - 1),
                i == entries.len() - 1,
                colors,
            ),
    )
}

/// A whole listing: the line of the listed directory, then the lines of the
/// entries in the order of their keys.
pub open spec fn listing(
    cwd: Seq<char>,
    entries: Seq<EntryView>,
    colors: Colors,
    cap: Option<usize>,
) -> Seq<Seq<char>> {
    seq![breadcrumb(cwd, colors)] + entry_lines(ordered(entries), colors, cap)
}

/// The lines of the listing of `pathes` below the directory `cwd`, which is
/// given by its resolved path.  The entries are put in order, and the
/// description of each is decorated; the first line is for `cwd` itself.
pub fn display(
    pathes: &mut Vec<LsiPath>,
    colors: &Colors,
    cwd: &str,
    desc_num: &Option<usize>,
) -> (lines: Vec<String>)
    ensures
        final(pathes).len() == old(pathes).len(),
        lines.len() == old(pathes).len() + 1,
        lines@[0]@ == breadcrumb(cwd@, *colors),
        forall|i: int|
            0 <= i < old(pathes).len() ==> (#[trigger] final(pathes)@[i])@ == decorated_entry(
                ordered(views(old(pathes)@))[i],
                *colors,
                *desc_num,
                i == old(pathes).len() - 1,
            ),
        forall|i: int|
            0 <= i < old(pathes).len() ==> (#[trigger] lines@[i + 1])@ == line_of(
                final(pathes)@[i]@,
                i == old(pathes).len() - 1,
                *colors,
            ),
        texts(lines@) == listing(cwd@, views(old(pathes)@), *colors, *desc_num),
{
    let mut lines: Vec<String> = Vec::new();
    lines.push(display_cwd(cwd, colors));
    sort_entries(pathes);
    let ghost in_order = views(pathes@);
    let mut taken: Vec<LsiPath> = Vec::new();
    std::mem::swap(pathes, &mut taken);
    let length = taken.len();
    let mut i: usize = 0;
    for path in it: taken
        invariant
            it.seq().len() == length,
            views(it.seq()) == in_order,
            in_order == ordered(views(old(pathes)@)),
            length == old(pathes).len(),
            i == it.index(),
            pathes.len() == i,
            lines.len() == i + 1,
            lines@[0]@ == breadcrumb(cwd@, *colors),
            forall|k: int|
                0 <= k < i ==> (#[trigger] pathes@[k])@ == decorated_entry(
                    in_order[k],
                    *colors,
                    *desc_num,
                    k == length - 1,
                ),
            forall|k: int|
                0 <= k < i ==> (#[trigger] lines@[k + 1])@ == line_of(
                    pathes@[k]@,
                    k == length - 1,
                    *colors,
                ),
    {
        let mut path = path;
        proof {
            assert(path@ == in_order[i as int]);
        }
        i += 1;
        let is_last = i == length;
        let line = display_a_line(&mut path, is_last, colors, desc_num);
        lines.push(line);
        pathes.push(path);
    }
    proof {
        lemma_ordered_sorted(views(old(pathes)@));
        let expected = listing(cwd@, views(old(pathes)@), *colors, *desc_num);
        let rest = entry_lines(in_order, *colors, *desc_num);
        assert(i == length);
        assert(expected.len() == lines.len());
        assert forall|k: int| 0 <= k < lines.len() implies texts(lines@)[k] == expected[k] by {
            if k > 0 {
                let at = k - 1;
                assert(lines@[at + 1]@ == line_of(pathes@[at]@, at == length - 1, *colors));
                assert(expected[k] == rest[k - 1]);
            }
        }
        assert(texts(lines@) =~= expected);
    }
    lines
}

/// The first line of a listing; see [`breadcrumb`].
pub fn display_cwd(cwd: &str, colors: &Colors) -> (line: String)
    ensures
        line@ == breadcrumb(cwd@, *colors),
{
    let abs = chars_of(cwd);
    let name = segment_chars(&abs);
    let mut line: Vec<char> = Vec::new();
    if name.len() > 0 {
        let parent = parent_chars(&abs);
        push_all(&mut line, &chars_of(colors.dir.as_str()));
        if !(parent.len() == 1 && parent[0] == '/') {
            push_all(&mut line, &parent);
        } else {
            proof {
                assert(parent@ =~= seq!['/']);
            }
        }
        line.push('/');
        push_all(&mut line, &chars_of(colors.end.as_str()));
    }
    push_all(&mut line, &chars_of(colors.current_dir.as_str()));
    push_all(&mut line, &name);
    line.push('/');
    push_all(&mut line, &chars_of(colors.end.as_str()));
    proof {
        assert(line@ =~= breadcrumb(cwd@, *colors));
    }
    string_of(&line)
}

/// Decorates the description of `path` and gives the line of the entry.
pub fn display_a_line(
    path: &mut LsiPath,
    is_last: bool,
    colors: &Colors,
    desc_num: &Option<usize>,
) -> (line: String)
    ensures
        final(path)@ == decorated_entry(old(path)@, *colors, *desc_num, is_last),
        line@ == line_of(final(path)@, is_last, *colors),
{
    let _ = run(path, colors, desc_num, &is_last);
    let mut line: Vec<char> = Vec::new();
    if is_last {
        line.push('\u{2514}');
    } else {
        line.push('\u{251c}');
    }
    line.push('\u{2500}');
    line.push('\u{2500}');
    line.push(' ');
    match path.kind() {
        LsiPathKind::Dir => {
            push_all(&mut line, &chars_of(colors.dir.as_str()));
        },
        LsiPathKind::File => {
            push_all(&mut line, &chars_of(colors.file.as_str()));
        },
    }
    push_all(&mut line, &chars_of(path.file_name()));
    push_all(&mut line, &chars_of(colors.end.as_str()));
    line.push('\t');
    line.push('/');
    line.push(' ');
    match path.get_description() {
        Some(description) => {
            push_all(&mut line, &chars_of(description.as_str()));
        },
        None => {
            match path.kind() {
                LsiPathKind::Dir => {
                    line.push('D');
                    line.push('i');
                    line.push('r');
                },
                LsiPathKind::File => {
                    line.push('F');
                    line.push('i');
                    line.push('l');
                    line.push('e');
                },
            }
        },
    }
    proof {
        assert(line@ =~= line_of(path@, is_last, *colors));
    }
    string_of(&line)
}

} // verus!
