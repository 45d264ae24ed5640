//! The inline markup of descriptions.
//!
//! A description may hold *markers*: a letter between two semicolons, such as
//! `;r;` for red or `;e;` for the end of a coloured stretch.  It may also hold
//! the four characters `\033`, which stand for the escape character that a
//! user cannot type.

use crate::text::{
    lemma_replaced_has_no_token, lemma_replaced_twice, lemma_replaced_without_token, occurs_in,
    push_all, replace_token, replaced,
};
use vstd::prelude::*;

verus! {

/// What a marker asks for.
#[derive(Clone, Copy, Debug, PartialEq, Eq, Structural)]
pub enum Marker {
    Red,
    Green,
    Yellow,
    Blue,
    Purple,
    Cyan,
    White,
    Underline,
    End,
}

/// The marker that the letter `code` stands for between two semicolons.
pub open spec fn marker_of(code: char) -> Option<Marker> {
    if code == 'r' {
        Some(Marker::Red)
    } else if code == 'g' {
        Some(Marker::Green)
    } else if code == 'y' {
        Some(Marker::Yellow)
    } else if code == 'b' {
        Some(Marker::Blue)
    } else if code == 'p' {
        Some(Marker::Purple)
    } else if code == 'c' {
        Some(Marker::Cyan)
    } else if code == 'w' {
        Some(Marker::White)
    } else if code == '_' {
        Some(Marker::Underline)
    } else if code == 'e' {
        Some(Marker::End)
    } else {
        None
    }
}

/// The letter of each marker.
pub open spec fn code_of(marker: Marker) -> char {
    match marker {
        Marker::Red => 'r',
        Marker::Green => 'g',
        Marker::Yellow => 'y',
        Marker::Blue => 'b',
        Marker::Purple => 'p',
        Marker::Cyan => 'c',
        Marker::White => 'w',
        Marker::Underline => '_',
        Marker::End => 'e',
    }
}

/// The three characters that write `marker` in a description.
pub open spec fn marker_text(marker: Marker) -> Seq<char> {
    seq![';', code_of(marker), ';']
}

/// The marker that `text` begins with, if it begins with one.
pub open spec fn leading_marker(text: Seq<char>) -> Option<Marker> {
    if text.len() >= 3 && text[0] == ';' && text[2] == ';' {
        marker_of(text[1])
    } else {
        None
    }
}

/// `text` with each marker replaced by what `table` gives for it.
///
/// The text is read once, from left to right.  Where a marker begins, its
/// replacement is written and reading goes on behind the marker; any other
/// character is copied.  A replacement is never read again, so markers that it
/// may hold stay as they are.
pub open spec fn substituted(text: Seq<char>, table: spec_fn(Marker) -> Seq<char>) -> Seq<char>
    decreases text.len(),
{
    if text.len() == 0 {
        text
    } else {
        match leading_marker(text) {
            Some(marker) => table(marker) + substituted(text.skip(3), table),
            None => seq![text[0]] + substituted(text.skip(1), table),
        }
    }
}

/// The four characters `\033`.
pub open spec fn escape_token() -> Seq<char> {
    seq!['\\', '0', '3', '3']
}

/// The escape character alone.
pub open spec fn escape_text() -> Seq<char> {
    seq!['\x1b']
}

/// `text` with each `\033` replaced by the escape character.
pub open spec fn unescaped(text: Seq<char>) -> Seq<char> {
    replaced(text, escape_token(), escape_text())
}

/// `text` without its markers and without any `\033`: what is left to read.
pub open spec fn plain_text(text: Seq<char>) -> Seq<char> {
    replaced(substituted(text, |m: Marker| Seq::<char>::empty()), escape_token(), Seq::empty())
}

/// A text without any `\033` is left as it is by [`unescaped`].
pub proof fn lemma_unescaped_plain(text: Seq<char>)
    requires
        !occurs_in(escape_token(), text),
    ensures
        unescaped(text) == text,
{
    lemma_replaced_without_token(text, escape_token(), escape_text());
}

/// No `\033` is left in a text once [`unescaped`] has been applied to it,
/// and so applying it again changes nothing.
pub proof fn lemma_unescaped_twice(text: Seq<char>)
    ensures
        !occurs_in(escape_token(), unescaped(text)),
        unescaped(unescaped(text)) == unescaped(text),
{
    lemma_replaced_has_no_token(text, escape_token(), escape_text());
    lemma_replaced_twice(text, escape_token(), escape_text());
}

/// A replacement for each marker.
pub struct MarkerTable {
    pub red: Vec<char>,
    pub green: Vec<char>,
    pub yellow: Vec<char>,
    pub blue: Vec<char>,
    pub purple: Vec<char>,
    pub cyan: Vec<char>,
    pub white: Vec<char>,
    pub underline: Vec<char>,
    pub end: Vec<char>,
}

impl MarkerTable {
    /// The replacement that the table holds for `marker`.
    pub open spec fn of(&self, marker: Marker) -> Seq<char> {
        match marker {
            Marker::Red => self.red@,
            Marker::Green => self.green@,
            Marker::Yellow => self.yellow@,
            Marker::Blue => self.blue@,
            Marker::Purple => self.purple@,
            Marker::Cyan => self.cyan@,
            Marker::White => self.white@,
            Marker::Underline => self.underline@,
            Marker::End => self.end@,
        }
    }

    /// The table as a function from markers to their replacements.
    pub open spec fn as_fn(&self) -> spec_fn(Marker) -> Seq<char> {
        |m: Marker| self.of(m)
    }

    /// The table that replaces every marker by nothing.
    pub fn erasing() -> (table: MarkerTable)
        ensures
            forall|m: Marker| #[trigger] table.of(m) == Seq::<char>::empty(),
    {
        MarkerTable {
            red: Vec::new(),
            green: Vec::new(),
            yellow: Vec::new(),
            blue: Vec::new(),
            purple: Vec::new(),
            cyan: Vec::new(),
            white: Vec::new(),
            underline: Vec::new(),
            end: Vec::new(),
        }
    }

    /// The replacement for one marker.
    pub fn get(&self, marker: Marker) -> (replacement: &Vec<char>)
        ensures
            replacement@ == self.of(marker),
    {
        match marker {
            Marker::Red => &self.red,
            Marker::Green => &self.green,
            Marker::Yellow => &self.yellow,
            Marker::Blue => &self.blue,
            Marker::Purple => &self.purple,
            Marker::Cyan => &self.cyan,
            Marker::White => &self.white,
            Marker::Underline => &self.underline,
            Marker::End => &self.end,
        }
    }
}

/// The marker that a letter stands for.
pub fn marker_from_code(code: char) -> (marker: Option<Marker>)
    ensures
        marker == marker_of(code),
{
    if code == 'r' {
        Some(Marker::Red)
    } else if code == 'g' {
        Some(Marker::Green)
    } else if code == 'y' {
        Some(Marker::Yellow)
    } else if code == 'b' {
        Some(Marker::Blue)
    } else if code == 'p' {
        Some(Marker::Purple)
    } else if code == 'c' {
        Some(Marker::Cyan)
    } else if code == 'w' {
        Some(Marker::White)
    } else if code == '_' {
        Some(Marker::Underline)
    } else if code == 'e' {
        Some(Marker::End)
    } else {
        None
    }
}

/// The marker that begins at position `at` of `text`, if one does.
fn marker_at(text: &Vec<char>, at: usize) -> (marker: Option<Marker>)
    requires
        at <= text.len(),
    ensures
        marker == leading_marker(text@.skip(at as int)),
{
    if text.len() - at >= 3 && text[at] == ';' && text[at + 2] == ';' {
        marker_from_code(text[at + 1])
    } else {
        None
    }
}

/// Replaces each marker in `text` by its entry in `table`.
pub fn substitute(text: &Vec<char>, table: &MarkerTable) -> (out: Vec<char>)
    ensures
        out@ == substituted(text@, table.as_fn()),
{
    let ghost f = table.as_fn();
    let mut out: Vec<char> = Vec::new();
    let n = text.len();
    let mut i: usize = 0;
    proof {
        assert(text@.skip(0) =~= text@);
        assert(out@ + substituted(text@, f) =~= substituted(text@, f));
    }
    while i < n
        invariant
            n == text.len(),
            i <= n,
            f == table.as_fn(),
            out@ + substituted(text@.skip(i as int), f) == substituted(text@, f),
        decreases n - i,
    {
        let ghost rest = text@.skip(i as int);
        match marker_at(text, i) {
            Some(marker) => {
                proof {
                    assert(rest.skip(3) =~= text@.skip(i + 3));
                    assert(f(marker) == table.of(marker));
                    assert(out@ + table.of(marker) + substituted(text@.skip(i + 3), f) =~= out@
                        + substituted(rest, f));
                }
                push_all(&mut out, table.get(marker));
                i += 3;
            },
            None => {
                proof {
                    assert(rest.skip(1) =~= text@.skip(i + 1));
                    assert(out@.push(text@[i as int]) + substituted(text@.skip(i + 1), f) =~= out@
                        + substituted(rest, f));
                }
                out.push(text[i]);
                i += 1;
            },
        }
    }
    proof {
        assert(out@ + substituted(text@.skip(n as int), f) =~= out@);
    }
    out
}

/// The characters `\033` as a vector.
pub fn escape_token_chars() -> (token: Vec<char>)
    ensures
        token@ == escape_token(),
{
    let mut token: Vec<char> = Vec::new();
    token.push('\\');
    token.push('0');
    token.push('3');
    token.push('3');
    proof {
        assert(token@ =~= escape_token());
    }
    token
}

/// Replaces each `\033` in `text` by the escape character.
pub fn unescape(text: &Vec<char>) -> (out: Vec<char>)
    ensures
        out@ == unescaped(text@),
{
    let token = escape_token_chars();
    let mut with: Vec<char> = Vec::new();
    with.push('\x1b');
    proof {
        assert(with@ =~= escape_text());
    }
    replace_token(text, &token, &with)
}

/// Removes the markers and every `\033` from `text`.
pub fn strip_markup(text: &Vec<char>) -> (out: Vec<char>)
    ensures
        out@ == plain_text(text@),
{
    let table = MarkerTable::erasing();
    let without_markers = substitute(text, &table);
    proof {
        assert(table.as_fn() =~= (|m: Marker| Seq::<char>::empty()));
    }
    let token = escape_token_chars();
    let nothing: Vec<char> = Vec::new();
    replace_token(&without_markers, &token, &nothing)
}

} // verus!
