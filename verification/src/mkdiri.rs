//! Setting and editing the description of a path.
//!
//! The functions here decide what is to be done and plan it; writing the file
//! and starting the editor are left to the caller.

use crate::errors::LsiError;
use crate::fs::{
    dir_description_path, dir_sidecar, expanded, file_description_dir, file_description_path,
    file_sidecar, sidecar_dir, write_description, WritePlan,
};
use crate::path::final_segment;
use crate::text::{chars_of, push_all, string_of};
use crate::LsiArgs;
use vstd::prelude::*;

verus! {

/// What is to be done to edit a description in an editor.
#[derive(Debug)]
pub struct EditPlan {
    /// The directory that has to exist before the editor starts, if any.
    pub directory: Option<String>,
    /// The file to open in the editor.
    pub file: String,
    /// The editor to start.
    pub editor: String,
    /// What to tell the user before the editor starts.
    pub announcement: String,
}

/// What is to be done for a path.
#[derive(Debug)]
pub enum MkdiriPlan {
    /// Store a description.
    Write(WritePlan),
    /// Let the user edit the description.
    Edit(EditPlan),
}

/// What the user is told before `editor` is started on `file`.
pub open spec fn announced(editor: Seq<char>, file: Seq<char>) -> Seq<char> {
    seq!['E', 'x', 'e', 'c', ':', ' '] + editor + seq![' '] + file
}

/// Why no editor is started when none was named.
pub open spec fn no_editor() -> Seq<char> {
    "no description and no editor given"@
}

/// `plan` stores `content` as the description of `path`.
pub open spec fn writes(
    plan: WritePlan,
    path: Seq<char>,
    is_dir: bool,
    content: Seq<char>,
) -> bool {
    &&& plan.content@ == expanded(content)
    &&& if is_dir {
        plan.directory is None && plan.file@ == dir_sidecar(path)
    } else {
        plan.directory is Some && plan.directory->Some_0@ == sidecar_dir(path) && plan.file@
            == file_sidecar(path)
    }
}

/// `plan` opens the description of `path` in `editor`.
pub open spec fn edits(plan: EditPlan, path: Seq<char>, is_dir: bool, editor: Seq<char>) -> bool {
    &&& plan.editor@ == editor
    &&& plan.announcement@ == announced(editor, plan.file@)
    &&& if is_dir {
        plan.directory is None && plan.file@ == dir_sidecar(path)
    } else {
        plan.directory is Some && plan.directory->Some_0@ == sidecar_dir(path) && plan.file@
            == file_sidecar(path)
    }
}

/// What is to be done for `path`, which is given resolved and is a
/// directory if `is_dir` says so: a description that is given is stored;
/// else the editor that is given is started; with neither there is nothing
/// to do, which is an error.  A path that is no directory and has no final
/// segment has no description.
pub open spec fn planned(
    plan: Result<MkdiriPlan, LsiError>,
    path: Seq<char>,
    is_dir: bool,
    description: Option<&str>,
    editor: Option<&str>,
) -> bool {
    match description {
        Some(d) => if !is_dir && final_segment(path).len() == 0 {
            plan is Err && plan->Err_0 is InvalidPath
        } else {
            plan matches Ok(MkdiriPlan::Write(w)) && writes(w, path, is_dir, d@)
        },
        None => match editor {
            Some(e) => if !is_dir && final_segment(path).len() == 0 {
                plan is Err && plan->Err_0 is InvalidPath
            } else {
                plan matches Ok(MkdiriPlan::Edit(p)) && edits(p, path, is_dir, e@)
            },
            None => plan matches Err(LsiError::FailedLaunchEditor(why)) && why@ == no_editor(),
        },
    }
}

/// Plans what `args` asks for on the path `path`, which is the resolved
/// form of the path of `args`.
pub fn run(args: &LsiArgs, path: &str, is_dir: bool) -> (plan: Result<MkdiriPlan, LsiError>)
    ensures
        planned(plan, path@, is_dir, args.set_description, args.edit_description),
{
    mkdiri_description(path, is_dir, args.set_description, args.edit_description)
}

/// Plans the storing of `description`, or else the editing in `editor`.
pub fn mkdiri_description(
    path: &str,
    is_dir: bool,
    description: Option<&str>,
    editor: Option<&str>,
) -> (plan: Result<MkdiriPlan, LsiError>)
    ensures
        planned(plan, path@, is_dir, description, editor),
{
    match description {
        Some(d) => match write_description(path, is_dir, String::from_str(d)) {
            Ok(w) => Ok(MkdiriPlan::Write(w)),
            Err(e) => Err(e),
        },
        None => match editor {
            Some(e) => match launch_editor(path, is_dir, e) {
                Ok(p) => Ok(MkdiriPlan::Edit(p)),
                Err(error) => Err(error),
            },
            None => {
                let why = String::from_str("no description and no editor given");
                Err(LsiError::FailedLaunchEditor(why))
            },
        },
    }
}

/// Plans the editing of the description of `path` in `editor`.
pub fn launch_editor(path: &str, is_dir: bool, editor: &str) -> (plan: Result<EditPlan, LsiError>)
    ensures
        !is_dir && final_segment(path@).len() == 0 ==> plan is Err && plan->Err_0 is InvalidPath,
        is_dir || final_segment(path@).len() > 0 ==> plan is Ok && edits(
            plan->Ok_0,
            path@,
            is_dir,
            editor@,
        ),
{
    let (directory, filepath) = if is_dir {
        (None, dir_description_path(path))
    } else {
        match file_description_path(path) {
            Ok(file) => (Some(file_description_dir(path)), file),
            Err(e) => {
                return Err(e);
            },
        }
    };
    let mut announcement: Vec<char> = Vec::new();
    announcement.push('E');
    announcement.push('x');
    announcement.push('e');
    announcement.push('c');
    announcement.push(':');
    announcement.push(' ');
    push_all(&mut announcement, &chars_of(editor));
    announcement.push(' ');
    push_all(&mut announcement, &chars_of(filepath.as_str()));
    proof {
        assert(announcement@ =~= announced(editor@, filepath@));
    }
    Ok(
        EditPlan {
            directory,
            file: filepath,
            editor: String::from_str(editor),
            announcement: string_of(&announcement),
        },
    )
}

} // verus!
