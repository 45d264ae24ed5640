//! The entries of a listing: a path, its kind, and the description that
//! belongs to it.

use crate::errors::LsiError;
use crate::markup::{plain_text, strip_markup};
use crate::text::{chars_of, push_all, same_text, string_of};
use crate::width::{columns_of, display_columns};
use vstd::prelude::*;

verus! {

/// Whether an entry is a directory or a file.
#[derive(Debug, Clone, Copy, PartialEq, Eq, Structural)]
pub enum LsiPathKind {
    /// A directory.
    Dir,
    /// Anything that is not a directory.
    File,
}

/// One entry of a listing.
#[derive(Debug)]
pub struct LsiPath {
    /// The path as the listing found it.
    path: String,
    /// The description, once one has been found.
    description: Option<String>,
    /// What the entry is.  Set when the entry is made, and never changed.
    kind: LsiPathKind,
    /// The token that chooses how the listing is ordered.
    sort_mode: String,
}

/// What an entry holds.
pub struct EntryView {
    pub path: Seq<char>,
    pub description: Option<Seq<char>>,
    pub kind: LsiPathKind,
    pub sort_mode: Seq<char>,
}

/// The text of an optional string.
pub open spec fn text_of(s: Option<String>) -> Option<Seq<char>> {
    match s {
        Some(t) => Some(t@),
        None => None,
    }
}

/// `path` without the separators that it ends in.
pub open spec fn without_trailing_separators(path: Seq<char>) -> Seq<char>
    decreases path.len(),
{
    if path.len() > 0 && path.last() == '/' {
        without_trailing_separators(path.drop_last())
    } else {
        path
    }
}

/// What follows the last separator of `path`; all of `path` if it has none.
pub open spec fn after_last_separator(path: Seq<char>) -> Seq<char>
    decreases path.len(),
{
    if path.len() == 0 || path.last() == '/' {
        Seq::empty()
    } else {
        after_last_separator(path.drop_last()).push(path.last())
    }
}

/// The final segment of `path`: what stands behind its last separator, not
/// counting separators at the very end.  Empty for an empty path and for one
/// made of separators only.
pub open spec fn final_segment(path: Seq<char>) -> Seq<char> {
    after_last_separator(without_trailing_separators(path))
}

/// What stands before the final segment of `path`, without the separators
/// between the two; a single separator where nothing else stands there.
pub open spec fn parent_of(path: Seq<char>) -> Seq<char> {
    let trimmed = without_trailing_separators(path);
    let head = trimmed.take(trimmed.len() - final_segment(path).len());
    let parent = without_trailing_separators(head);
    if head.len() > 0 && parent.len() == 0 {
        seq!['/']
    } else {
        parent
    }
}

/// `name` placed in the directory `base`.
pub open spec fn joined_path(base: Seq<char>, name: Seq<char>) -> Seq<char> {
    if base.len() == 0 || base.last() == '/' {
        base + name
    } else {
        base + seq!['/'] + name
    }
}

/// Whether the final segment of `path` begins with a period.
pub open spec fn hidden(path: Seq<char>) -> bool {
    final_segment(path).len() > 0 && final_segment(path)[0] == '.'
}

/// Whether the token `mode` asks for the order by description.
pub open spec fn by_description(mode: Seq<char>) -> bool {
    mode == "d"@ || mode == "by-description"@
}

/// The character that puts directories before files.
pub open spec fn kind_tag(kind: LsiPathKind) -> char {
    match kind {
        LsiPathKind::Dir => '0',
        LsiPathKind::File => '1',
    }
}

/// The key by which entries are ordered by name.
pub open spec fn name_key(kind: LsiPathKind, name: Seq<char>) -> Seq<char> {
    seq![kind_tag(kind), '_'] + name
}

/// The key by which entries are ordered by description: entries with a
/// description come before those without one, and the name decides between
/// equal descriptions.
pub open spec fn description_key(
    kind: LsiPathKind,
    description: Option<Seq<char>>,
    name: Seq<char>,
) -> Seq<char> {
    match description {
        Some(d) => seq![kind_tag(kind), '_', '0', '_'] + plain_text(d) + name,
        None => seq![kind_tag(kind), '_', '1', '_'] + name,
    }
}

/// The key of an entry under the sort mode `mode`.
pub open spec fn key_under(
    mode: Seq<char>,
    kind: LsiPathKind,
    description: Option<Seq<char>>,
    name: Seq<char>,
) -> Seq<char> {
    if by_description(mode) {
        description_key(kind, description, name)
    } else {
        name_key(kind, name)
    }
}

/// The name of an entry: the final segment of its path.
pub open spec fn entry_name(entry: EntryView) -> Seq<char> {
    final_segment(entry.path)
}

/// The key by which an entry is ordered.
pub open spec fn key_of(entry: EntryView) -> Seq<char> {
    key_under(entry.sort_mode, entry.kind, entry.description, entry_name(entry))
}

/// What each of `entries` holds.
pub open spec fn views(entries: Seq<LsiPath>) -> Seq<EntryView> {
    Seq::new(entries.len(), |i: int| entries[i]@)
}

/// What follows the last separator holds no separator.
proof fn lemma_after_last_separator(path: Seq<char>)
    ensures
        forall|i: int|
            0 <= i < after_last_separator(path).len() ==> after_last_separator(path)[i] != '/',
    decreases path.len(),
{
    if path.len() > 0 && path.last() != '/' {
        let before = after_last_separator(path.drop_last());
        lemma_after_last_separator(path.drop_last());
        assert forall|i: int| 0 <= i < after_last_separator(path).len() implies after_last_separator(
            path,
        )[i] != '/' by {
            if i < before.len() {
                assert(before.push(path.last())[i] == before[i]);
            }
        }
    }
}

/// A name holds no separator.
pub proof fn lemma_name_has_no_separator(path: Seq<char>)
    ensures
        forall|i: int| 0 <= i < final_segment(path).len() ==> final_segment(path)[i] != '/',
{
    lemma_after_last_separator(without_trailing_separators(path));
}

/// Text without separators behind a separator, or behind nothing, is what
/// follows the last separator.
proof fn lemma_after_separator(front: Seq<char>, name: Seq<char>)
    requires
        front.len() == 0 || front.last() == '/',
        forall|i: int| 0 <= i < name.len() ==> name[i] != '/',
    ensures
        after_last_separator(front + name) == name,
    decreases name.len(),
{
    if name.len() == 0 {
        assert(front + name =~= front);
    } else {
        assert((front + name).drop_last() =~= front + name.drop_last());
        lemma_after_separator(front, name.drop_last());
        assert(name.drop_last().push(name.last()) =~= name);
    }
}

/// What is placed in a directory has the name under which it was placed
/// there.
pub proof fn lemma_joined_name(base: Seq<char>, name: Seq<char>)
    requires
        name.len() > 0,
        forall|i: int| 0 <= i < name.len() ==> name[i] != '/',
    ensures
        final_segment(joined_path(base, name)) == name,
{
    let front = if base.len() == 0 || base.last() == '/' {
        base
    } else {
        base + seq!['/']
    };
    assert(joined_path(base, name) =~= front + name);
    lemma_after_separator(front, name);
}

/// The final segment of a text begins behind a separator, or at the very
/// beginning, and holds none.
proof fn lemma_segment(t: Seq<char>, start: int)
    requires
        0 <= start <= t.len(),
        forall|k: int| start <= k < t.len() ==> t[k] != '/',
        start == 0 || t[start - 1] == '/',
    ensures
        after_last_separator(t) == t.subrange(start, t.len() as int),
    decreases t.len(),
{
    if t.len() == start {
        assert(t.subrange(start, t.len() as int) =~= Seq::<char>::empty());
    } else {
        let shorter = t.drop_last();
        lemma_segment(shorter, start);
        assert(t.subrange(start, t.len() as int) =~= shorter.subrange(
            start,
            shorter.len() as int,
        ).push(t.last()));
    }
}

/// How much of the first `upto` characters of `chars` is left once the
/// separators at their end are dropped.
fn trimmed_len(chars: &Vec<char>, upto: usize) -> (end: usize)
    requires
        upto <= chars.len(),
    ensures
        end <= upto,
        chars@.take(end as int) == without_trailing_separators(chars@.take(upto as int)),
{
    let mut end: usize = upto;
    while end > 0 && chars[end - 1] == '/'
        invariant
            end <= upto <= chars.len(),
            without_trailing_separators(chars@.take(upto as int)) == without_trailing_separators(
                chars@.take(end as int),
            ),
        decreases end,
    {
        proof {
            assert(chars@.take(end as int).drop_last() =~= chars@.take(end - 1));
        }
        end -= 1;
    }
    end
}

/// Where the final segment of `chars` begins and ends.
pub fn segment_bounds(chars: &Vec<char>) -> (bounds: (usize, usize))
    ensures
        bounds.0 <= bounds.1 <= chars.len(),
        chars@.take(bounds.1 as int) == without_trailing_separators(chars@),
        chars@.subrange(bounds.0 as int, bounds.1 as int) == final_segment(chars@),
{
    proof {
        assert(chars@.take(chars.len() as int) =~= chars@);
    }
    let end = trimmed_len(chars, chars.len());
    let ghost trimmed = chars@.take(end as int);
    let mut start: usize = end;
    while start > 0 && chars[start - 1] != '/'
        invariant
            start <= end <= chars.len(),
            trimmed == chars@.take(end as int),
            forall|k: int| start <= k < end ==> trimmed[k] != '/',
        decreases start,
    {
        start -= 1;
    }
    proof {
        lemma_segment(trimmed, start as int);
        assert(trimmed.subrange(start as int, end as int) =~= chars@.subrange(
            start as int,
            end as int,
        ));
    }
    (start, end)
}

/// The characters of the final segment of `chars`.
pub fn segment_chars(chars: &Vec<char>) -> (name: Vec<char>)
    ensures
        name@ == final_segment(chars@),
{
    let (start, end) = segment_bounds(chars);
    let mut name: Vec<char> = Vec::new();
    let mut i: usize = start;
    while i < end
        invariant
            start <= i <= end <= chars.len(),
            name@ == chars@.subrange(start as int, i as int),
        decreases end - i,
    {
        name.push(chars[i]);
        proof {
            assert(chars@.subrange(start as int, i + 1) =~= chars@.subrange(
                start as int,
                i as int,
            ).push(chars@[i as int]));
        }
        i += 1;
    }
    name
}

/// The characters of what stands before the final segment of `chars`.
pub fn parent_chars(chars: &Vec<char>) -> (parent: Vec<char>)
    ensures
        parent@ == parent_of(chars@),
{
    let (start, end) = segment_bounds(chars);
    proof {
        assert(chars@.take(end as int).take(start as int) =~= chars@.take(start as int));
    }
    let kept = trimmed_len(chars, start);
    let mut parent: Vec<char> = Vec::new();
    if start > 0 && kept == 0 {
        parent.push('/');
        proof {
            assert(parent@ =~= seq!['/']);
        }
    } else {
        let mut i: usize = 0;
        while i < kept
            invariant
                i <= kept <= chars.len(),
                parent@ == chars@.take(i as int),
            decreases kept - i,
        {
            parent.push(chars[i]);
            proof {
                assert(chars@.take(i + 1) =~= chars@.take(i as int).push(chars@[i as int]));
            }
            i += 1;
        }
    }
    parent
}

/// `name` placed in the directory `base`.
pub fn join_chars(base: &Vec<char>, name: &Vec<char>) -> (joined: Vec<char>)
    ensures
        joined@ == joined_path(base@, name@),
{
    let mut joined: Vec<char> = Vec::new();
    push_all(&mut joined, base);
    if base.len() > 0 && base[base.len() - 1] != '/' {
        joined.push('/');
    }
    push_all(&mut joined, name);
    proof {
        assert(joined@ =~= joined_path(base@, name@));
    }
    joined
}

impl View for LsiPath {
    type V = EntryView;

    closed spec fn view(&self) -> EntryView {
        EntryView {
            path: self.path@,
            description: text_of(self.description),
            kind: self.kind,
            sort_mode: self.sort_mode@,
        }
    }
}

impl LsiPath {
    /// The entry's name: the final segment of its path.
    pub open spec fn name(&self) -> Seq<char> {
        entry_name(self@)
    }

    /// The key by which the entry is ordered.
    pub open spec fn key(&self) -> Seq<char> {
        key_of(self@)
    }

    /// An entry for `path`, which is a directory or a file as `kind` says.  It
    /// has no description yet.
    pub fn new(path: String, kind: LsiPathKind, sort_mode: &str) -> (entry: LsiPath)
        ensures
            entry@ == (EntryView { path: path@, description: None, kind, sort_mode: sort_mode@ }),
    {
        LsiPath { path, description: None, kind, sort_mode: String::from_str(sort_mode) }
    }

    /// Whether `path` names a hidden entry: one whose name begins with a
    /// period.
    pub fn is_hidden(path: &str) -> (is_hidden: bool)
        ensures
            is_hidden == hidden(path@),
    {
        let chars = chars_of(path);
        let (start, end) = segment_bounds(&chars);
        start < end && chars[start] == '.'
    }

    /// Whether the entry is a directory or a file.
    pub fn kind(&self) -> (kind: LsiPathKind)
        ensures
            kind == self@.kind,
    {
        self.kind
    }

    /// The entry's path, as it was given.
    pub fn path(&self) -> (path: &str)
        ensures
            path@ == self@.path,
    {
        self.path.as_str()
    }

    /// The entry's name; empty if the path has no final segment.
    pub fn file_name(&self) -> (name: &str)
        ensures
            name@ == self.name(),
    {
        let chars = chars_of(self.path.as_str());
        let (start, end) = segment_bounds(&chars);
        self.path.as_str().substring_char(start, end)
    }

    /// The entry's place below the directory `base`.  An entry without a name
    /// has none.
    pub fn absolute_path(&self, base: &str) -> (path: Result<String, LsiError>)
        ensures
            self.name().len() == 0 ==> path is Err && path->Err_0 is InvalidPath,
            self.name().len() > 0 ==> path is Ok && path->Ok_0@ == joined_path(
                base@,
                self.name(),
            ) && final_segment(path->Ok_0@) == self.name(),
    {
        let name = chars_of(self.file_name());
        if name.len() == 0 {
            return Err(LsiError::InvalidPath);
        }
        proof {
            lemma_name_has_no_separator(self@.path);
            lemma_joined_name(base@, self.name());
        }
        Ok(string_of(&join_chars(&chars_of(base), &name)))
    }

    /// Gives the entry the description `description`.
    pub fn set_description(&mut self, description: String)
        ensures
            final(self)@ == (EntryView { description: Some(description@), ..old(self)@ }),
    {
        self.description = Some(description);
    }

    /// The entry's description, if it has one.
    pub fn get_description(&self) -> (description: &Option<String>)
        ensures
            text_of(*description) == self@.description,
    {
        &self.description
    }

    /// The description without its markup, for ordering; never shown.
    pub fn get_plain_description(&self) -> (plain: Option<String>)
        ensures
            text_of(plain) == match self@.description {
                Some(d) => Some(plain_text(d)),
                None => None,
            },
    {
        match &self.description {
            Some(d) => {
                let chars = chars_of(d.as_str());
                Some(string_of(&strip_markup(&chars)))
            },
            None => None,
        }
    }

    /// The token that chooses the order of the listing.
    pub fn get_sort_mode(&self) -> (mode: &str)
        ensures
            mode@ == self@.sort_mode,
    {
        self.sort_mode.as_str()
    }

    /// Whether the entry is ordered by its description.
    pub fn sorts_by_description(&self) -> (yes: bool)
        ensures
            yes == by_description(self@.sort_mode),
    {
        same_text(self.sort_mode.as_str(), "d") || same_text(
            self.sort_mode.as_str(),
            "by-description",
        )
    }

    /// The number of terminal columns that the entry's name takes.
    pub fn len(&self) -> (columns: usize)
        ensures
            columns == columns_of(self.name()),
    {
        display_columns(self.file_name())
    }

    /// Whether the entry's name takes no room at all.
    pub fn is_empty(&self) -> (empty: bool)
        ensures
            empty == (columns_of(self.name()) == 0),
    {
        self.len() == 0
    }

    /// The characters of the entry's key.
    pub fn key_chars(&self) -> (key: Vec<char>)
        ensures
            key@ == self.key(),
    {
        if self.sorts_by_description() {
            chars_of(format_description(self).as_str())
        } else {
            chars_of(format_name(self).as_str())
        }
    }
}

/// The first character of every key.
fn tag_of(kind: LsiPathKind) -> (tag: char)
    ensures
        tag == kind_tag(kind),
{
    match kind {
        LsiPathKind::Dir => '0',
        LsiPathKind::File => '1',
    }
}

/// The key of `path` in the order by name.
pub fn format_name(path: &LsiPath) -> (key: String)
    ensures
        key@ == name_key(path@.kind, path.name()),
{
    let mut key: Vec<char> = Vec::new();
    key.push(tag_of(path.kind));
    key.push('_');
    let name = chars_of(path.file_name());
    push_all(&mut key, &name);
    string_of(&key)
}

/// The key of `path` in the order by description.
pub fn format_description(path: &LsiPath) -> (key: String)
    ensures
        key@ == description_key(path@.kind, path@.description, path.name()),
{
    let mut key: Vec<char> = Vec::new();
    key.push(tag_of(path.kind));
    key.push('_');
    let name = chars_of(path.file_name());
    match path.get_plain_description() {
        Some(desc) => {
            key.push('0');
            key.push('_');
            let plain = chars_of(desc.as_str());
            push_all(&mut key, &plain);
            push_all(&mut key, &name);
        },
        None => {
            key.push('1');
            key.push('_');
            push_all(&mut key, &name);
        },
    }
    string_of(&key)
}

} // verus!
