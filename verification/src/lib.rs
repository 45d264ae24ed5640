//! Directory listings annotated with human-written descriptions.
//!
//! Every file and directory may have a short description, kept in a small file
//! beside it.  This library orders the entries of a directory, decorates their
//! descriptions with colours, and lays the listing out as a tree.  It touches
//! neither the disk nor the terminal: it is handed what was found there and
//! hands back the lines to print.

pub mod colors;
pub mod compare;
pub mod config;
pub mod decoration;
pub mod errors;
pub mod fs;
pub mod lsi;
pub mod markup;
pub mod mkdiri;
pub mod order;
pub mod path;
pub mod roundtrip;
pub mod stages;
pub mod text;
pub mod view;
pub mod width;

use path::LsiPathKind;
use vstd::prelude::*;

verus! {

/// What the command line asked for.
pub struct LsiArgs<'a> {
    /// The path to list, or whose description is to be set.
    pub path: &'a str,
    /// Whether hidden entries are shown.
    pub show_hidden: bool,
    /// Restricts the listing to files or to directories.
    pub is_only: Option<LsiPathKind>,
    /// Where the configuration is read from.
    pub config_path: Option<&'a str>,
    /// How many lines of a description are shown at most.
    pub desc_num: Option<usize>,
    /// Whether a description is to be set or edited, rather than listed.
    pub is_mkdiri_mode: bool,
    /// The description to set.
    pub set_description: Option<&'a str>,
    /// The editor in which to edit the description.
    pub edit_description: Option<&'a str>,
    /// The token that chooses the order of the listing.
    pub sort_mode: String,
}

} // verus!
