//! How many terminal columns a text takes.

use unicode_width::UnicodeWidthStr;
use vstd::prelude::*;

verus! {

/// The number of terminal columns that `text` occupies, as the crate
/// `unicode-width` counts them: wide characters take two columns, combining
/// ones none, and some sequences of characters are counted as one unit.
pub uninterp spec fn columns_of(text: Seq<char>) -> nat;

/// `UnicodeWidthStr::width` of `unicode-width`.  The contract only gives the
/// result its name: the width is a function of the characters alone.
#[verifier::external_body]
pub(crate) fn display_columns(text: &str) -> (columns: usize)
    ensures
        columns == columns_of(text@),
{
    UnicodeWidthStr::width(text)
}

} // verus!
