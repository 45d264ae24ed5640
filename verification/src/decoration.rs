//! Turns the description of an entry into the text that is printed.
//!
//! Three passes, always in this order: markers become colour sequences, every
//! `\033` becomes the escape character, and the lines of the description are
//! coloured and laid out below one another.

use crate::colors::Colors;
use crate::errors::LsiError;
use crate::markup::{
    substitute, substituted, unescape, unescaped, Marker, MarkerTable,
};
use crate::path::{EntryView, LsiPath};
use crate::text::{
    chars_of, lemma_line_count, lemma_lines_hold_no_newline, lemma_newlines_add,
    lemma_newlines_single, lemma_repeated_holds_no_newline, lines_of, newlines_in, push_all,
    repeat_char, repeated, split_lines, string_of,
};
use crate::width::columns_of;
use vstd::prelude::*;

verus! {

/// The sequence that replaces `marker`.  The end of a coloured stretch
/// resets the colour and then turns the colour of descriptions on again.
pub open spec fn marker_sequence(colors: Colors, marker: Marker) -> Seq<char> {
    match marker {
        Marker::Red => colors.red@,
        Marker::Green => colors.green@,
        Marker::Yellow => colors.yellow@,
        Marker::Blue => colors.blue@,
        Marker::Purple => colors.purple@,
        Marker::Cyan => colors.cyan@,
        Marker::White => colors.white@,
        Marker::Underline => colors.underline@,
        Marker::End => colors.end@ + colors.description@,
    }
}

/// `text` with its markers replaced by the sequences of `colors`.
pub open spec fn with_colors(text: Seq<char>, colors: Colors) -> Seq<char> {
    substituted(text, |m: Marker| marker_sequence(colors, m))
}

/// `line` in the colour of descriptions.
pub open spec fn encolored(line: Seq<char>, colors: Colors) -> Seq<char> {
    colors.description@ + line + colors.end@
}

/// How many of `total` lines are shown under the limit `cap`.
pub open spec fn lines_shown(cap: Option<usize>, total: nat) -> nat {
    match cap {
        Some(n) => if n > total {
            total
        } else {
            n as nat
        },
        None => total,
    }
}

/// What connects the lines of one description: a vertical bar while further
/// entries follow, a blank below the last entry.
pub open spec fn connector(is_last: bool) -> char {
    if is_last {
        ' '
    } else {
        '\u{2502}'
    }
}

/// A line of a description below the first: it starts on a new line and is
/// indented to stand below the first line, `width` being the room that the
/// name of the entry takes.
pub open spec fn continuation(line: Seq<char>, colors: Colors, is_last: bool, width: nat) -> Seq<
    char,
> {
    seq!['\n', connector(is_last), ' ', ' ', ' '] + repeated(' ', width) + seq!['\t', ' ', ' ']
        + encolored(line, colors)
}

/// The first `shown` of `lines`, coloured and laid out.  The first line is
/// always there, also where `shown` is 0.
pub open spec fn laid_out(
    lines: Seq<Seq<char>>,
    shown: nat,
    colors: Colors,
    is_last: bool,
    width: nat,
) -> Seq<char>
    decreases shown,
{
    if shown <= 1 {
        encolored(lines[0], colors)
    } else {
        laid_out(lines, (shown - 1) as nat, colors, is_last, width) + continuation(
            lines[shown - 1],
            colors,
            is_last,
            width,
        )
    }
}

/// `text` split into lines, of which at most `cap` are kept, coloured and
/// laid out.
pub open spec fn multiline(
    text: Seq<char>,
    colors: Colors,
    cap: Option<usize>,
    is_last: bool,
    width: nat,
) -> Seq<char> {
    laid_out(lines_of(text), lines_shown(cap, lines_of(text).len()), colors, is_last, width)
}

/// What is printed for the description `text`: all three passes.
pub open spec fn decorated(
    text: Seq<char>,
    colors: Colors,
    cap: Option<usize>,
    is_last: bool,
    width: nat,
) -> Seq<char> {
    multiline(unescaped(with_colors(text, colors)), colors, cap, is_last, width)
}

/// The entry `entry` with the description `description`.
pub open spec fn described(entry: EntryView, description: Seq<char>) -> EntryView {
    EntryView { description: Some(description), ..entry }
}

/// The replacement of each marker under the palette `colors`.
pub fn marker_table(colors: &Colors) -> (table: MarkerTable)
    ensures
        forall|m: Marker| #[trigger] table.of(m) == marker_sequence(*colors, m),
{
    let mut end = chars_of(colors.end.as_str());
    let description = chars_of(colors.description.as_str());
    push_all(&mut end, &description);
    MarkerTable {
        red: chars_of(colors.red.as_str()),
        green: chars_of(colors.green.as_str()),
        yellow: chars_of(colors.yellow.as_str()),
        blue: chars_of(colors.blue.as_str()),
        purple: chars_of(colors.purple.as_str()),
        cyan: chars_of(colors.cyan.as_str()),
        white: chars_of(colors.white.as_str()),
        underline: chars_of(colors.underline.as_str()),
        end,
    }
}

/// Decorates the description of `path` for printing.  An entry without a
/// description is left as it is; that is no error.
pub fn run(path: &mut LsiPath, colors: &Colors, desc_num: &Option<usize>, is_last: &bool) -> (done:
    Result<(), LsiError>)
    ensures
        done is Ok,
        final(path)@ == match old(path)@.description {
            Some(d) => described(
                old(path)@,
                decorated(d, *colors, *desc_num, *is_last, columns_of(old(path).name())),
            ),
            None => old(path)@,
        },
{
    let _ = replace_lsi_color_code(path, colors);
    let _ = replace_ansi_color_code(path);
    let _ = format_multiline(path, colors, desc_num, is_last);
    Ok(())
}

/// First pass: replaces the markers in the description of `path` by the
/// sequences of `colors`.
pub fn replace_lsi_color_code(path: &mut LsiPath, colors: &Colors) -> (done: Result<(), LsiError>)
    ensures
        match old(path)@.description {
            Some(d) => done is Ok && final(path)@ == described(
                old(path)@,
                with_colors(d, *colors),
            ),
            None => done is Err && done->Err_0 is DescriptionNotFound && final(path)@ == old(
                path,
            )@,
        },
{
    match path.get_description() {
        Some(content) => {
            let table = marker_table(colors);
            let text = chars_of(content.as_str());
            let replaced = substitute(&text, &table);
            proof {
                assert(table.as_fn() =~= (|m: Marker| marker_sequence(*colors, m)));
            }
            path.set_description(string_of(&replaced));
        },
        None => return Err(LsiError::DescriptionNotFound),
    };
    Ok(())
}

/// Second pass: replaces each `\033` in the description of `path` by the
/// escape character.
pub fn replace_ansi_color_code(path: &mut LsiPath) -> (done: Result<(), LsiError>)
    ensures
        match old(path)@.description {
            Some(d) => done is Ok && final(path)@ == described(old(path)@, unescaped(d)),
            None => done is Err && done->Err_0 is DescriptionNotFound && final(path)@ == old(
                path,
            )@,
        },
{
    match path.get_description() {
        Some(content) => {
            let text = chars_of(content.as_str());
            let replaced = unescape(&text);
            path.set_description(string_of(&replaced));
        },
        None => return Err(LsiError::DescriptionNotFound),
    };
    Ok(())
}

/// Appends `description` in the colour of descriptions to `out`.
fn push_encolored(out: &mut Vec<char>, description: &Vec<char>, colors: &Colors)
    ensures
        final(out)@ == old(out)@ + encolored(description@, *colors),
{
    let start = chars_of(colors.description.as_str());
    let end = chars_of(colors.end.as_str());
    push_all(out, &start);
    push_all(out, description);
    push_all(out, &end);
    proof {
        assert(out@ =~= old(out)@ + encolored(description@, *colors));
    }
}

/// `description` in the colour of descriptions.
pub fn encolor_description(description: &str, colors: &Colors) -> (colored: String)
    ensures
        colored@ == encolored(description@, *colors),
{
    let mut out: Vec<char> = Vec::new();
    let text = chars_of(description);
    push_encolored(&mut out, &text, colors);
    string_of(&out)
}

/// Splits `text` into lines, keeps at most `line_num` of them, colours each
/// and puts all but the first on lines of their own, indented by `width`
/// columns and more to stand below the first.
pub fn lay_out(
    text: &str,
    colors: &Colors,
    line_num: &Option<usize>,
    is_last: bool,
    width: usize,
) -> (out: String)
    ensures
        out@ == multiline(text@, *colors, *line_num, is_last, width as nat),
{
    let chars = chars_of(text);
    let desc = split_lines(&chars);
    proof {
        lemma_line_count(chars@);
    }
    let num = match line_num {
        Some(n) => {
            if *n > desc.len() {
                desc.len()
            } else {
                *n
            }
        },
        None => desc.len(),
    };
    let mut description: Vec<char> = Vec::new();
    push_encolored(&mut description, &desc[0], colors);
    let tree_prefix = if is_last {
        ' '
    } else {
        '\u{2502}'
    };
    let padding = repeat_char(' ', width);
    let ghost lines = lines_of(chars@);
    proof {
        assert(description@ =~= encolored(lines[0], *colors));
    }
    let mut i: usize = 1;
    while i < num
        invariant
            1 <= i,
            num <= desc.len(),
            i <= num || i == 1,
            desc.len() == lines.len(),
            forall|k: int| 0 <= k < desc.len() ==> (#[trigger] desc@[k])@ == lines[k],
            tree_prefix == connector(is_last),
            padding@ == repeated(' ', width as nat),
            description@ == laid_out(lines, i as nat, *colors, is_last, width as nat),
        decreases num - i,
    {
        description.push('\n');
        description.push(tree_prefix);
        description.push(' ');
        description.push(' ');
        description.push(' ');
        push_all(&mut description, &padding);
        description.push('\t');
        description.push(' ');
        description.push(' ');
        push_encolored(&mut description, &desc[i], colors);
        proof {
            assert(description@ =~= laid_out(lines, i as nat, *colors, is_last, width as nat)
                + continuation(lines[i as int], *colors, is_last, width as nat));
        }
        i += 1;
    }
    proof {
        assert(laid_out(lines, 0, *colors, is_last, width as nat) == laid_out(
            lines,
            1,
            *colors,
            is_last,
            width as nat,
        ));
    }
    string_of(&description)
}

/// Third pass: lays the description of `path` out in lines, see [`lay_out`];
/// the lines are indented by the width of the name of `path`.
pub fn format_multiline(
    path: &mut LsiPath,
    colors: &Colors,
    line_num: &Option<usize>,
    is_last: &bool,
) -> (done: Result<(), LsiError>)
    ensures
        match old(path)@.description {
            Some(d) => done is Ok && final(path)@ == described(
                old(path)@,
                multiline(d, *colors, *line_num, *is_last, columns_of(old(path).name())),
            ),
            None => done is Err && done->Err_0 is DescriptionNotFound && final(path)@ == old(
                path,
            )@,
        },
{
    let len = path.len();
    match path.get_description() {
        Some(content) => {
            let description = lay_out(content.as_str(), colors, line_num, *is_last, len);
            path.set_description(description)
        },
        None => return Err(LsiError::DescriptionNotFound),
    };
    Ok(())
}

/// The number of lines of `text` that are shown under the limit `cap`: at
/// least the first, and no more than there are.
pub open spec fn lines_kept(text: Seq<char>, cap: Option<usize>) -> nat {
    let shown = lines_shown(cap, lines_of(text).len());
    if shown == 0 {
        1
    } else {
        shown
    }
}

/// A coloured line holds no newline, if neither the line nor the colours do.
proof fn lemma_encolored_line(line: Seq<char>, colors: Colors)
    requires
        newlines_in(line) == 0,
        newlines_in(colors.description@) == 0,
        newlines_in(colors.end@) == 0,
    ensures
        newlines_in(encolored(line, colors)) == 0,
{
    lemma_newlines_add(colors.description@, line);
    lemma_newlines_add(colors.description@ + line, colors.end@);
}

/// A further line of a description begins with the only newline it holds.
proof fn lemma_continuation_line(line: Seq<char>, colors: Colors, is_last: bool, width: nat)
    requires
        newlines_in(line) == 0,
        newlines_in(colors.description@) == 0,
        newlines_in(colors.end@) == 0,
    ensures
        newlines_in(continuation(line, colors, is_last, width)) == 1,
{
    let gap = seq![connector(is_last), ' ', ' ', ' '];
    let front = seq!['\n', connector(is_last), ' ', ' ', ' '];
    let tab = seq!['\t', ' ', ' '];
    assert(newlines_in(gap) == 0) by {
        assert(gap =~= seq![connector(is_last)] + seq![' '] + seq![' '] + seq![' ']);
        lemma_newlines_single(connector(is_last));
        lemma_newlines_single(' ');
        lemma_newlines_add(seq![connector(is_last)], seq![' ']);
        lemma_newlines_add(seq![connector(is_last)] + seq![' '], seq![' ']);
        lemma_newlines_add(seq![connector(is_last)] + seq![' '] + seq![' '], seq![' ']);
    }
    assert(newlines_in(front) == 1) by {
        assert(front =~= seq!['\n'] + gap);
        lemma_newlines_single('\n');
        lemma_newlines_add(seq!['\n'], gap);
    }
    assert(newlines_in(tab) == 0) by {
        assert(tab =~= seq!['\t'] + seq![' '] + seq![' ']);
        lemma_newlines_single('\t');
        lemma_newlines_single(' ');
        lemma_newlines_add(seq!['\t'], seq![' ']);
        lemma_newlines_add(seq!['\t'] + seq![' '], seq![' ']);
    }
    lemma_repeated_holds_no_newline(' ', width);
    lemma_encolored_line(line, colors);
    lemma_newlines_add(front, repeated(' ', width));
    lemma_newlines_add(front + repeated(' ', width), tab);
    lemma_newlines_add(front + repeated(' ', width) + tab, encolored(line, colors));
}

/// Each line that is laid out behind the first adds one newline.
proof fn lemma_laid_out_lines(
    text: Seq<char>,
    shown: nat,
    colors: Colors,
    is_last: bool,
    width: nat,
)
    requires
        1 <= shown <= lines_of(text).len(),
        newlines_in(colors.description@) == 0,
        newlines_in(colors.end@) == 0,
    ensures
        newlines_in(laid_out(lines_of(text), shown, colors, is_last, width)) == shown - 1,
    decreases shown,
{
    let lines = lines_of(text);
    if shown <= 1 {
        lemma_lines_hold_no_newline(text, 0);
        lemma_encolored_line(lines[0], colors);
    } else {
        lemma_laid_out_lines(text, (shown - 1) as nat, colors, is_last, width);
        lemma_lines_hold_no_newline(text, shown - 1);
        lemma_continuation_line(lines[shown - 1], colors, is_last, width);
        lemma_newlines_add(
            laid_out(lines, (shown - 1) as nat, colors, is_last, width),
            continuation(lines[shown - 1], colors, is_last, width),
        );
    }
}

/// Truncation: what is laid out has exactly as many lines as are kept, so
/// nothing of the lines beyond the limit is left.  This holds for colours
/// that hold no newline.
pub proof fn lemma_lines_laid_out(
    text: Seq<char>,
    colors: Colors,
    cap: Option<usize>,
    is_last: bool,
    width: nat,
)
    requires
        newlines_in(colors.description@) == 0,
        newlines_in(colors.end@) == 0,
    ensures
        lines_of(multiline(text, colors, cap, is_last, width)).len() == lines_kept(text, cap),
        1 <= lines_kept(text, cap) <= lines_of(text).len(),
        cap matches Some(n) ==> lines_kept(text, cap) <= n || n == 0,
{
    let lines = lines_of(text);
    let shown = lines_shown(cap, lines.len());
    lemma_line_count(text);
    lemma_line_count(multiline(text, colors, cap, is_last, width));
    if shown == 0 {
        lemma_laid_out_lines(text, 1, colors, is_last, width);
    } else {
        lemma_laid_out_lines(text, shown, colors, is_last, width);
    }
}

} // verus!
