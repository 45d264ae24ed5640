//! Which entries a listing shows, and where their descriptions are kept.
//!
//! The description of a directory is kept in a file inside it.  The
//! description of a file is kept in a directory of descriptions beside the
//! file, in a file named after it.  This module works out those places and
//! reads from a [`SidecarStore`], which holds the content of such files in
//! memory; reading from and writing to the disk is left to the caller.

use crate::errors::LsiError;
use crate::order::{ordered, sort_entries};
use crate::path::{
    final_segment, hidden, join_chars, joined_path, parent_chars, parent_of, segment_chars, views,
    EntryView, LsiPath, LsiPathKind,
};
use crate::text::{
    chars_of, push_all, replace_token, replaced, same_text, string_of, trim, trimmed,
};
use vstd::prelude::*;

verus! {

/// What the enumeration of a directory found: a path, and what kind of thing
/// stands there.
#[derive(Debug)]
pub struct FoundEntry {
    /// The path of the entry.
    pub path: String,
    /// Whether it is a directory.
    pub is_dir: bool,
    /// Whether it is a regular file.
    pub is_file: bool,
}

/// Whether the listing shows `found`: hidden entries only on request, and
/// only directories or only files where `is_only` asks for that.
pub open spec fn shown(found: FoundEntry, is_only: Option<LsiPathKind>, show_hidden: bool) -> bool {
    (!hidden(found.path@) || show_hidden) && match is_only {
        Some(LsiPathKind::Dir) => found.is_dir,
        Some(LsiPathKind::File) => found.is_file,
        None => true,
    }
}

/// The kind of the entry that is made for `found`.
pub open spec fn kind_of(found: FoundEntry) -> LsiPathKind {
    if found.is_dir {
        LsiPathKind::Dir
    } else {
        LsiPathKind::File
    }
}

/// The entry that is made for `found`.
pub open spec fn entry_for(found: FoundEntry, sort_mode: Seq<char>) -> EntryView {
    EntryView { path: found.path@, description: None, kind: kind_of(found), sort_mode }
}

/// The entries for those of `found` that the listing shows, in the order in
/// which they were found.
pub open spec fn selected(
    found: Seq<FoundEntry>,
    is_only: Option<LsiPathKind>,
    show_hidden: bool,
    sort_mode: Seq<char>,
) -> Seq<EntryView>
    decreases found.len(),
{
    if found.len() == 0 {
        Seq::empty()
    } else {
        let before = selected(found.drop_last(), is_only, show_hidden, sort_mode);
        if shown(found.last(), is_only, show_hidden) {
            before.push(entry_for(found.last(), sort_mode))
        } else {
            before
        }
    }
}

/// The name of the file that holds the description of a directory.
pub open spec fn dir_sidecar_name() -> Seq<char> {
    ".description.lsi"@
}

/// The name of the directory that holds the descriptions of files.
pub open spec fn sidecar_dir_name() -> Seq<char> {
    ".file_description_lsi"@
}

/// The file that holds the description of the directory `abs`.
pub open spec fn dir_sidecar(abs: Seq<char>) -> Seq<char> {
    joined_path(abs, dir_sidecar_name())
}

/// The directory that holds the description of the file `abs`.
pub open spec fn sidecar_dir(abs: Seq<char>) -> Seq<char> {
    joined_path(parent_of(abs), sidecar_dir_name())
}

/// The file that holds the description of the file `abs`.
pub open spec fn file_sidecar(abs: Seq<char>) -> Seq<char> {
    joined_path(sidecar_dir(abs), seq!['.'] + final_segment(abs) + ".lsi"@)
}

/// The two characters that stand for a line break in a description given on
/// the command line: a backslash and the letter n.
pub open spec fn newline_token() -> Seq<char> {
    seq!['\\', 'n']
}

/// `content` as it is stored: each backslash followed by n has become a line
/// break.
pub open spec fn expanded(content: Seq<char>) -> Seq<char> {
    replaced(content, newline_token(), seq!['\n'])
}

/// A line end of two characters: a carriage return and a newline.
pub open spec fn line_end() -> Seq<char> {
    seq!['\r', '\n']
}

/// `text` with each line end of two characters read as a newline.
pub open spec fn unified(text: Seq<char>) -> Seq<char> {
    replaced(text, line_end(), seq!['\n'])
}

/// What is read from the stored text `raw`: line ends of two characters are
/// read as newlines, and white space at the two ends is dropped.
pub open spec fn normalized(raw: Seq<char>) -> Seq<char> {
    trimmed(unified(raw))
}

/// The content of the files of descriptions, by path.
pub struct SidecarStore {
    files: Vec<(String, String)>,
}

/// What a list of files holds for each path: where a path occurs twice, the
/// later content.
pub open spec fn contents(files: Seq<(String, String)>) -> Map<Seq<char>, Seq<char>>
    decreases files.len(),
{
    if files.len() == 0 {
        Map::empty()
    } else {
        contents(files.drop_last()).insert(files.last().0@, files.last().1@)
    }
}

impl View for SidecarStore {
    type V = Map<Seq<char>, Seq<char>>;

    closed spec fn view(&self) -> Map<Seq<char>, Seq<char>> {
        contents(self.files@)
    }
}

/// What is to be done to store a description.
#[derive(Debug)]
pub struct WritePlan {
    /// The directory that has to exist before the file is written, if any.
    pub directory: Option<String>,
    /// The file to write.
    pub file: String,
    /// What to write into it.
    pub content: String,
}

impl SidecarStore {
    /// A store without files.
    pub fn new() -> (store: SidecarStore)
        ensures
            store@ == Map::<Seq<char>, Seq<char>>::empty(),
    {
        SidecarStore { files: Vec::new() }
    }

    /// Puts the file `path` with the content `content` into the store, in
    /// place of what was there under that path.
    pub fn insert(&mut self, path: String, content: String)
        ensures
            final(self)@ == old(self)@.insert(path@, content@),
    {
        proof {
            assert(self.files@.push((path, content)).drop_last() =~= self.files@);
        }
        self.files.push((path, content));
    }

    /// The content of the file `path`, if the store has it.
    pub fn get(&self, path: &str) -> (content: Option<&String>)
        ensures
            match content {
                Some(c) => self@.contains_key(path@) && self@[path@] == c@,
                None => !self@.contains_key(path@),
            },
    {
        let mut i: usize = self.files.len();
        proof {
            assert(self.files@.take(i as int) =~= self.files@);
        }
        while i > 0
            invariant
                i <= self.files.len(),
                contents(self.files@).contains_key(path@) == contents(
                    self.files@.take(i as int),
                ).contains_key(path@),
                contents(self.files@).contains_key(path@) ==> contents(self.files@)[path@]
                    == contents(self.files@.take(i as int))[path@],
            decreases i,
        {
            proof {
                assert(self.files@.take(i as int).drop_last() =~= self.files@.take(i - 1));
            }
            if same_text(self.files[i - 1].0.as_str(), path) {
                return Some(&self.files[i - 1].1);
            }
            i -= 1;
        }
        None
    }

    /// Carries out `plan` on the store: the file of the plan gets the content
    /// of the plan.
    pub fn write(&mut self, plan: &WritePlan)
        ensures
            final(self)@ == old(self)@.insert(plan.file@, plan.content@),
    {
        self.insert(plan.file.clone(), plan.content.clone());
    }
}

/// Whether the listing shows `found`.
pub fn path_filter(found: &FoundEntry, is_only: &Option<LsiPathKind>, show_hidden: &bool) -> (keep:
    bool)
    ensures
        keep == shown(*found, *is_only, *show_hidden),
{
    let is_hidden = LsiPath::is_hidden(found.path.as_str());
    if !is_hidden || *show_hidden {
        match is_only {
            Some(LsiPathKind::Dir) => found.is_dir,
            Some(LsiPathKind::File) => found.is_file,
            None => true,
        }
    } else {
        false
    }
}

/// The entries of a listing: one for each of `found` that the listing shows,
/// in the order of their keys.  None has a description yet.
pub fn get_pathes(
    found: &Vec<FoundEntry>,
    is_only: &Option<LsiPathKind>,
    show_hidden: &bool,
    sort_mode: &str,
) -> (paths: Vec<LsiPath>)
    ensures
        views(paths@) == ordered(selected(found@, *is_only, *show_hidden, sort_mode@)),
{
    let mut paths: Vec<LsiPath> = Vec::new();
    let mut i: usize = 0;
    proof {
        assert(views(paths@) =~= selected(found@.take(0), *is_only, *show_hidden, sort_mode@));
    }
    while i < found.len()
        invariant
            i <= found.len(),
            views(paths@) == selected(found@.take(i as int), *is_only, *show_hidden, sort_mode@),
        decreases found.len() - i,
    {
        proof {
            assert(found@.take(i + 1).drop_last() =~= found@.take(i as int));
        }
        if path_filter(&found[i], is_only, show_hidden) {
            let kind = if found[i].is_dir {
                LsiPathKind::Dir
            } else {
                LsiPathKind::File
            };
            let lsi_path = LsiPath::new(found[i].path.clone(), kind, sort_mode);
            proof {
                assert(views(paths@.push(lsi_path)) =~= views(paths@).push(lsi_path@));
            }
            paths.push(lsi_path);
        }
        i += 1;
    }
    proof {
        assert(found@.take(found.len() as int) =~= found@);
    }
    sort_entries(&mut paths);
    paths
}

/// The path of the file that holds the description of the directory `abs`.
pub fn dir_description_path(abs: &str) -> (path: String)
    ensures
        path@ == dir_sidecar(abs@),
{
    string_of(&join_chars(&chars_of(abs), &chars_of(".description.lsi")))
}

/// The path of the directory that holds the description of the file `abs`.
pub fn file_description_dir(abs: &str) -> (path: String)
    ensures
        path@ == sidecar_dir(abs@),
{
    let parent = parent_chars(&chars_of(abs));
    string_of(&join_chars(&parent, &chars_of(".file_description_lsi")))
}

/// The path of the file that holds the description of the file `abs`.  A
/// path without a final segment names no file.
pub fn file_description_path(abs: &str) -> (path: Result<String, LsiError>)
    ensures
        final_segment(abs@).len() == 0 ==> path is Err && path->Err_0 is InvalidPath,
        final_segment(abs@).len() > 0 ==> path is Ok && path->Ok_0@ == file_sidecar(abs@),
{
    let chars = chars_of(abs);
    let filename = segment_chars(&chars);
    if filename.len() == 0 {
        return Err(LsiError::InvalidPath);
    }
    let directory = chars_of(file_description_dir(abs).as_str());
    let mut name: Vec<char> = Vec::new();
    name.push('.');
    push_all(&mut name, &filename);
    push_all(&mut name, &chars_of(".lsi"));
    proof {
        assert(name@ =~= seq!['.'] + final_segment(abs@) + ".lsi"@);
    }
    Ok(string_of(&join_chars(&directory, &name)))
}

/// What is read from the stored text `raw`.
pub fn normalize(raw: &str) -> (text: String)
    ensures
        text@ == normalized(raw@),
{
    let chars = chars_of(raw);
    let mut pair: Vec<char> = Vec::new();
    pair.push('\r');
    pair.push('\n');
    let mut line_break: Vec<char> = Vec::new();
    line_break.push('\n');
    proof {
        assert(pair@ =~= line_end());
        assert(line_break@ =~= seq!['\n']);
    }
    let unified = replace_token(&chars, &pair, &line_break);
    string_of(&trim(&unified))
}

/// The description that the file `path` of the store holds.
pub fn read_description_file(path: &str, store: &SidecarStore) -> (description: Result<
    String,
    LsiError,
>)
    ensures
        match description {
            Ok(text) => store@.contains_key(path@) && text@ == normalized(store@[path@]),
            Err(e) => !store@.contains_key(path@) && e is DescriptionNotFound,
        },
{
    match store.get(path) {
        Some(raw) => Ok(normalize(raw.as_str())),
        None => Err(LsiError::DescriptionNotFound),
    }
}

/// The description of the directory `path`, which stands in the directory
/// `base`.
pub fn read_dir_description(path: &LsiPath, base: &str, store: &SidecarStore) -> (description:
    Result<String, LsiError>)
    ensures
        match description {
            Ok(text) => {
                let file = dir_sidecar(joined_path(base@, path.name()));
                path.name().len() > 0 && store@.contains_key(file) && text@ == normalized(
                    store@[file],
                )
            },
            Err(e) => if path.name().len() == 0 {
                e is InvalidPath
            } else {
                e is DescriptionNotFound && !store@.contains_key(
                    dir_sidecar(joined_path(base@, path.name())),
                )
            },
        },
{
    match path.absolute_path(base) {
        Ok(abs_path) => {
            let desc_path = dir_description_path(abs_path.as_str());
            read_description_file(desc_path.as_str(), store)
        },
        Err(e) => Err(e),
    }
}

/// The description of the file `path`, which stands in the directory
/// `base`.
pub fn read_file_description(path: &LsiPath, base: &str, store: &SidecarStore) -> (description:
    Result<String, LsiError>)
    ensures
        match description {
            Ok(text) => {
                let file = file_sidecar(joined_path(base@, path.name()));
                path.name().len() > 0 && store@.contains_key(file) && text@ == normalized(
                    store@[file],
                )
            },
            Err(e) => if path.name().len() == 0 {
                e is InvalidPath
            } else {
                e is DescriptionNotFound && !store@.contains_key(
                    file_sidecar(joined_path(base@, path.name())),
                )
            },
        },
{
    match path.absolute_path(base) {
        Ok(abs_path) => {
            match file_description_path(abs_path.as_str()) {
                Ok(desc_path) => read_description_file(desc_path.as_str(), store),
                Err(e) => Err(e),
            }
        },
        Err(e) => Err(e),
    }
}

/// Plans the storing of `content` as the description of `path`, which is
/// given resolved and is a directory if `is_dir` says so.  A backslash
/// followed by n in `content` is stored as a line break.
pub fn write_description(path: &str, is_dir: bool, content: String) -> (plan: Result<
    WritePlan,
    LsiError,
>)
    ensures
        is_dir ==> plan is Ok && plan->Ok_0.directory is None && plan->Ok_0.file@ == dir_sidecar(
            path@,
        ) && plan->Ok_0.content@ == expanded(content@),
        !is_dir && final_segment(path@).len() == 0 ==> plan is Err && plan->Err_0 is InvalidPath,
        !is_dir && final_segment(path@).len() > 0 ==> plan is Ok && plan->Ok_0.directory is Some
            && plan->Ok_0.directory->Some_0@ == sidecar_dir(path@) && plan->Ok_0.file@
            == file_sidecar(path@) && plan->Ok_0.content@ == expanded(content@),
{
    let mut token: Vec<char> = Vec::new();
    token.push('\\');
    token.push('n');
    let mut line_break: Vec<char> = Vec::new();
    line_break.push('\n');
    proof {
        assert(token@ =~= newline_token());
        assert(line_break@ =~= seq!['\n']);
    }
    let content = string_of(&replace_token(&chars_of(content.as_str()), &token, &line_break));
    if is_dir {
        Ok(WritePlan { directory: None, file: dir_description_path(path), content })
    } else {
        match file_description_path(path) {
            Ok(file) => Ok(
                WritePlan { directory: Some(file_description_dir(path)), file, content },
            ),
            Err(e) => Err(e),
        }
    }
}

} // verus!
