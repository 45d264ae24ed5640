//! What holds of the substitution of markers.
//!
//! A description is read once, and what replaces a marker is never read
//! again.  So every marker is replaced exactly once, whatever the palette
//! holds, and for the palettes that occur in practice it makes no difference
//! whether all markers are replaced at once or one type after the other.

use crate::colors::{default_sequence, joined, Colors};
use crate::config::ColorSlot;
use crate::decoration::marker_sequence;
use crate::markup::{code_of, leading_marker, marker_of, marker_text, substituted, Marker};
use vstd::prelude::*;

verus! {

/// A piece of a description: a stretch of plain text, or a marker.
pub enum Piece {
    /// Text that is copied as it is.
    Plain(Seq<char>),
    /// A marker.
    Mark(Marker),
}

/// No marker begins inside `text`, whatever follows it: each semicolon of
/// `text` has a character of `text` behind it, and that is not the letter of
/// a marker.  Text without semicolons is of this kind, and so are the escape
/// sequences that set colours, in which digits follow the semicolons.
pub open spec fn inert(text: Seq<char>) -> bool {
    forall|i: int|
        0 <= i < text.len() && #[trigger] text[i] == ';' ==> i + 1 < text.len() && marker_of(
            text[i + 1],
        ) is None
}

/// The plain pieces of `pieces` are inert, so that markers begin only where
/// a piece says so.
pub open spec fn plainly_cut(pieces: Seq<Piece>) -> bool {
    forall|i: int|
        0 <= i < pieces.len() ==> (#[trigger] pieces[i] matches Piece::Plain(t) ==> inert(t))
}

/// How a piece is written in a description.
pub open spec fn piece_written(piece: Piece) -> Seq<char> {
    match piece {
        Piece::Plain(t) => t,
        Piece::Mark(m) => marker_text(m),
    }
}

/// What is shown for a piece.
pub open spec fn piece_shown(piece: Piece, table: spec_fn(Marker) -> Seq<char>) -> Seq<char> {
    match piece {
        Piece::Plain(t) => t,
        Piece::Mark(m) => table(m),
    }
}

/// The description that is made of `pieces`.
pub open spec fn written(pieces: Seq<Piece>) -> Seq<char>
    decreases pieces.len(),
{
    if pieces.len() == 0 {
        Seq::empty()
    } else {
        piece_written(pieces[0]) + written(pieces.skip(1))
    }
}

/// What is shown for `pieces`: each piece by itself, one behind the other.
pub open spec fn shown(pieces: Seq<Piece>, table: spec_fn(Marker) -> Seq<char>) -> Seq<char>
    decreases pieces.len(),
{
    if pieces.len() == 0 {
        Seq::empty()
    } else {
        piece_shown(pieces[0], table) + shown(pieces.skip(1), table)
    }
}

/// The table that replaces the markers in `chosen` as `table` does and
/// leaves the others as they are written.
pub open spec fn only(table: spec_fn(Marker) -> Seq<char>, chosen: Set<Marker>) -> spec_fn(
    Marker,
) -> Seq<char> {
    |m: Marker|
        if chosen.contains(m) {
            table(m)
        } else {
            marker_text(m)
        }
}

/// What replaces a marker cannot be taken for a part of a marker: it is not
/// empty, it is inert, and it begins neither with a semicolon nor with the
/// letter of a marker.  Sequences that begin with the escape character and
/// are inert are of this kind.
pub open spec fn unmistakable(table: spec_fn(Marker) -> Seq<char>) -> bool {
    forall|m: Marker|
        (#[trigger] table(m)).len() > 0 && inert(table(m)) && table(m)[0] != ';' && marker_of(
            table(m)[0],
        ) is None
}

/// Each marker has a letter of its own: the letter tells which marker is
/// meant, and no two markers can be meant at one place.
pub proof fn lemma_marker_letters(a: Marker, b: Marker)
    ensures
        marker_of(code_of(a)) == Some(a),
        code_of(a) != ';',
        a != b ==> marker_text(a) != marker_text(b),
{
    if a != b {
        assert(marker_text(a)[1] != marker_text(b)[1]);
    }
}

/// A marker at the front is replaced by its entry in the table, and reading
/// goes on behind the marker.
pub proof fn lemma_marker_first(
    marker: Marker,
    rest: Seq<char>,
    table: spec_fn(Marker) -> Seq<char>,
)
    ensures
        substituted(marker_text(marker) + rest, table) == table(marker) + substituted(rest, table),
{
    let text = marker_text(marker) + rest;
    lemma_marker_letters(marker, marker);
    assert(text[0] == ';' && text[1] == code_of(marker) && text[2] == ';');
    assert(text.skip(3) =~= rest);
}

/// Two inert texts make an inert text.
pub proof fn lemma_inert_add(a: Seq<char>, b: Seq<char>)
    requires
        inert(a),
        inert(b),
    ensures
        inert(a + b),
{
    let both = a + b;
    assert forall|i: int| 0 <= i < both.len() && #[trigger] both[i] == ';' implies i + 1
        < both.len() && marker_of(both[i + 1]) is None by {
        if i < a.len() {
            assert(a[i] == ';');
            assert(both[i + 1] == a[i + 1]);
        } else {
            assert(b[i - a.len()] == ';');
            assert(both[i + 1] == b[i - a.len() + 1]);
        }
    }
}

/// Inert text at the front is copied, and reading goes on behind it.
pub proof fn lemma_plain_first(
    plain: Seq<char>,
    rest: Seq<char>,
    table: spec_fn(Marker) -> Seq<char>,
)
    requires
        inert(plain),
    ensures
        substituted(plain + rest, table) == plain + substituted(rest, table),
    decreases plain.len(),
{
    let text = plain + rest;
    if plain.len() == 0 {
        assert(text =~= rest);
        assert(plain + substituted(rest, table) =~= substituted(rest, table));
    } else {
        assert(text[0] == plain[0]);
        if plain[0] == ';' {
            assert(text[1] == plain[1]);
        }
        assert(leading_marker(text) is None);
        assert(text.skip(1) =~= plain.skip(1) + rest);
        assert(inert(plain.skip(1))) by {
            let tail = plain.skip(1);
            assert forall|i: int| 0 <= i < tail.len() && #[trigger] tail[i] == ';' implies i + 1
                < tail.len() && marker_of(tail[i + 1]) is None by {
                assert(plain[i + 1] == ';');
                assert(tail[i + 1] == plain[i + 2]);
            }
        }
        lemma_plain_first(plain.skip(1), rest, table);
        assert(seq![plain[0]] + (plain.skip(1) + substituted(rest, table)) =~= plain
            + substituted(rest, table));
    }
}

/// Every marker is replaced exactly once, and nothing else is changed: the
/// result for a description made of pieces is made of what is shown for each
/// piece.  This holds for every table, also for one whose entries hold text
/// that looks like a marker: such text is shown as it is.
pub proof fn lemma_each_marker_once(pieces: Seq<Piece>, table: spec_fn(Marker) -> Seq<char>)
    requires
        plainly_cut(pieces),
    ensures
        substituted(written(pieces), table) == shown(pieces, table),
    decreases pieces.len(),
{
    if pieces.len() > 0 {
        let rest = pieces.skip(1);
        assert forall|i: int| 0 <= i < rest.len() implies (#[trigger] rest[i] matches Piece::Plain(
            t,
        ) ==> inert(t)) by {
            assert(rest[i] == pieces[i + 1]);
        }
        lemma_each_marker_once(rest, table);
        match pieces[0] {
            Piece::Plain(t) => {
                lemma_plain_first(t, written(rest), table);
            },
            Piece::Mark(m) => {
                lemma_marker_first(m, written(rest), table);
            },
        }
    }
}

/// How the result of a stage begins, compared with the text it was made
/// from.
proof fn lemma_stage_front(
    text: Seq<char>,
    table: spec_fn(Marker) -> Seq<char>,
    chosen: Set<Marker>,
)
    requires
        unmistakable(table),
    ensures
        ({
            let out = substituted(text, only(table, chosen));
            &&& out.len() > 0 && out[0] == ';' ==> text.len() > 0 && text[0] == ';'
            &&& out.len() > 0 && marker_of(out[0]) is Some ==> text.len() > 0 && leading_marker(
                text,
            ) is None && text[0] == out[0] && out == seq![text[0]] + substituted(
                text.skip(1),
                only(table, chosen),
            )
        }),
{
    let stage = only(table, chosen);
    let out = substituted(text, stage);
    if text.len() > 0 {
        match leading_marker(text) {
            Some(m) => {
                assert(out == stage(m) + substituted(text.skip(3), stage));
                if chosen.contains(m) {
                    assert(stage(m) == table(m));
                    assert(out[0] == table(m)[0]);
                } else {
                    assert(stage(m) == marker_text(m));
                    assert(out[0] == ';');
                }
            },
            None => {
                assert(out == seq![text[0]] + substituted(text.skip(1), stage));
                assert(out[0] == text[0]);
            },
        }
    }
}

/// Two stages give what one stage for the markers of both gives.
pub proof fn lemma_two_stages(
    text: Seq<char>,
    table: spec_fn(Marker) -> Seq<char>,
    first: Set<Marker>,
    second: Set<Marker>,
)
    requires
        unmistakable(table),
    ensures
        substituted(substituted(text, only(table, first)), only(table, second)) == substituted(
            text,
            only(table, first.union(second)),
        ),
    decreases text.len(),
{
    let one = only(table, first);
    let two = only(table, second);
    let both = only(table, first.union(second));
    let out = substituted(text, one);
    if text.len() > 0 {
        match leading_marker(text) {
            Some(m) => {
                let rest = substituted(text.skip(3), one);
                lemma_two_stages(text.skip(3), table, first, second);
                assert(out == one(m) + rest);
                if first.contains(m) {
                    assert(one(m) == table(m) && both(m) == table(m));
                    lemma_plain_first(table(m), rest, two);
                } else {
                    assert(one(m) == marker_text(m) && both(m) == two(m));
                    lemma_marker_first(m, rest, two);
                }
            },
            None => {
                let rest = substituted(text.skip(1), one);
                lemma_two_stages(text.skip(1), table, first, second);
                assert(out == seq![text[0]] + rest);
                assert(out.skip(1) =~= rest);
                if leading_marker(out) is Some {
                    lemma_stage_front(text.skip(1), table, first);
                    assert(rest[0] == out[1]);
                    let behind = substituted(text.skip(1).skip(1), one);
                    assert(rest == seq![text[1]] + behind);
                    assert(behind[0] == out[2]);
                    lemma_stage_front(text.skip(1).skip(1), table, first);
                    assert(text[2] == ';');
                    assert(false);
                }
            },
        }
    }
}

/// Only the markers named in `order`, one type after the other.
pub open spec fn in_stages(
    text: Seq<char>,
    table: spec_fn(Marker) -> Seq<char>,
    order: Seq<Marker>,
) -> Seq<char>
    decreases order.len(),
{
    if order.len() == 0 {
        substituted(text, only(table, Set::empty()))
    } else {
        substituted(in_stages(text, table, order.drop_last()), only(table, set![order.last()]))
    }
}

/// Replacing one type of marker after the other gives what replacing the
/// markers of all these types at once gives.
pub proof fn lemma_stages_as_one(
    text: Seq<char>,
    table: spec_fn(Marker) -> Seq<char>,
    order: Seq<Marker>,
)
    requires
        unmistakable(table),
    ensures
        in_stages(text, table, order) == substituted(text, only(table, order.to_set())),
    decreases order.len(),
{
    if order.len() == 0 {
        assert(order.to_set() =~= Set::<Marker>::empty());
    } else {
        let before = order.drop_last();
        lemma_stages_as_one(text, table, before);
        lemma_two_stages(text, table, before.to_set(), set![order.last()]);
        assert(before.to_set().union(set![order.last()]) =~= order.to_set()) by {
            assert forall|m: Marker|
                before.to_set().union(set![order.last()]).contains(m) == order.to_set().contains(
                    m,
                ) by {
                if order.to_set().contains(m) {
                    let i = choose|i: int| 0 <= i < order.len() && order[i] == m;
                    if i < before.len() {
                        assert(before[i] == m);
                    }
                }
                if before.to_set().contains(m) {
                    let i = choose|i: int| 0 <= i < before.len() && before[i] == m;
                    assert(order[i] == m);
                }
            }
        }
    }
}

/// The order of the marker types does not matter: two orders that name every
/// type give the same result, which is the result of replacing all markers at
/// once.
pub proof fn lemma_order_independent(
    text: Seq<char>,
    table: spec_fn(Marker) -> Seq<char>,
    a: Seq<Marker>,
    b: Seq<Marker>,
)
    requires
        unmistakable(table),
        forall|m: Marker| a.contains(m),
        forall|m: Marker| b.contains(m),
    ensures
        in_stages(text, table, a) == substituted(text, table),
        in_stages(text, table, b) == in_stages(text, table, a),
{
    lemma_stages_as_one(text, table, a);
    lemma_stages_as_one(text, table, b);
    assert(only(table, a.to_set()) =~= table) by {
        assert forall|m: Marker| #[trigger] only(table, a.to_set())(m) == table(m) by {
            assert(a.contains(m));
        }
    }
    assert(only(table, b.to_set()) =~= table) by {
        assert forall|m: Marker| #[trigger] only(table, b.to_set())(m) == table(m) by {
            assert(b.contains(m));
        }
    }
}

/// A sequence that sets colours: it begins with the escape character and is
/// inert.
pub open spec fn escape_like(sequence: Seq<char>) -> bool {
    sequence.len() > 0 && sequence[0] == '\x1b' && inert(sequence)
}

/// One of the ten digits.
pub open spec fn is_digit(c: char) -> bool {
    c == '0' || c == '1' || c == '2' || c == '3' || c == '4' || c == '5' || c == '6' || c == '7'
        || c == '8' || c == '9'
}

/// A sequence with one number of one digit.
proof fn lemma_one_digit(sequence: Seq<char>, a: char)
    requires
        sequence == seq!['\x1b', '[', a, 'm'],
        is_digit(a),
    ensures
        escape_like(sequence),
{
    assert forall|i: int| 0 <= i < sequence.len() implies #[trigger] sequence[i] != ';' by {
        if i == 0 {
        } else if i == 1 {
        } else if i == 2 {
        } else {
        }
    }
}

/// A sequence with one number of two digits.
proof fn lemma_two_digits(sequence: Seq<char>, a: char, b: char)
    requires
        sequence == seq!['\x1b', '[', a, b, 'm'],
        is_digit(a),
        is_digit(b),
    ensures
        escape_like(sequence),
{
    assert forall|i: int| 0 <= i < sequence.len() implies #[trigger] sequence[i] != ';' by {
        if i == 0 {
        } else if i == 1 {
        } else if i == 2 {
        } else if i == 3 {
        } else {
        }
    }
}

/// A sequence with a number of one digit and a number of two digits.
proof fn lemma_two_numbers(sequence: Seq<char>, a: char, b: char, c: char)
    requires
        sequence == seq!['\x1b', '[', a, ';', b, c, 'm'],
        is_digit(a),
        is_digit(b),
        is_digit(c),
    ensures
        escape_like(sequence),
{
    assert forall|i: int| 0 <= i < sequence.len() && #[trigger] sequence[i] == ';' implies i + 1
        < sequence.len() && marker_of(sequence[i + 1]) is None by {
        if i == 0 {
        } else if i == 1 {
        } else if i == 2 {
        } else if i == 3 {
            assert(sequence[4] == b);
        } else if i == 4 {
        } else if i == 5 {
        } else {
        }
    }
}

/// Two sequences that set colours, one behind the other, set colours.
proof fn lemma_escape_like_add(a: Seq<char>, b: Seq<char>)
    requires
        escape_like(a),
        escape_like(b),
    ensures
        escape_like(a + b),
{
    lemma_inert_add(a, b);
    assert((a + b)[0] == a[0]);
}

/// The built-in sequences of the markers set colours.
proof fn lemma_default_sequences()
    ensures
        escape_like(default_sequence(ColorSlot::Red)),
        escape_like(default_sequence(ColorSlot::Green)),
        escape_like(default_sequence(ColorSlot::Yellow)),
        escape_like(default_sequence(ColorSlot::Blue)),
        escape_like(default_sequence(ColorSlot::Purple)),
        escape_like(default_sequence(ColorSlot::Cyan)),
        escape_like(default_sequence(ColorSlot::White)),
        escape_like(default_sequence(ColorSlot::Underline)),
        escape_like(default_sequence(ColorSlot::End)),
        escape_like(default_sequence(ColorSlot::Description)),
{
    reveal_strlit("\x1b[1;31m");
    reveal_strlit("\x1b[1;32m");
    reveal_strlit("\x1b[33m");
    reveal_strlit("\x1b[1;34m");
    reveal_strlit("\x1b[1;35m");
    reveal_strlit("\x1b[36m");
    reveal_strlit("\x1b[37m");
    reveal_strlit("\x1b[4m");
    reveal_strlit("\x1b[0m");
    assert("\x1b[1;31m"@ =~= seq!['\x1b', '[', '1', ';', '3', '1', 'm']);
    lemma_two_numbers("\x1b[1;31m"@, '1', '3', '1');
    assert("\x1b[1;32m"@ =~= seq!['\x1b', '[', '1', ';', '3', '2', 'm']);
    lemma_two_numbers("\x1b[1;32m"@, '1', '3', '2');
    assert("\x1b[33m"@ =~= seq!['\x1b', '[', '3', '3', 'm']);
    lemma_two_digits("\x1b[33m"@, '3', '3');
    assert("\x1b[1;34m"@ =~= seq!['\x1b', '[', '1', ';', '3', '4', 'm']);
    lemma_two_numbers("\x1b[1;34m"@, '1', '3', '4');
    assert("\x1b[1;35m"@ =~= seq!['\x1b', '[', '1', ';', '3', '5', 'm']);
    lemma_two_numbers("\x1b[1;35m"@, '1', '3', '5');
    assert("\x1b[36m"@ =~= seq!['\x1b', '[', '3', '6', 'm']);
    lemma_two_digits("\x1b[36m"@, '3', '6');
    assert("\x1b[37m"@ =~= seq!['\x1b', '[', '3', '7', 'm']);
    lemma_two_digits("\x1b[37m"@, '3', '7');
    assert("\x1b[4m"@ =~= seq!['\x1b', '[', '4', 'm']);
    lemma_one_digit("\x1b[4m"@, '4');
    assert("\x1b[0m"@ =~= seq!['\x1b', '[', '0', 'm']);
    lemma_one_digit("\x1b[0m"@, '0');
}

/// An override that is made of inert fragments sets colours.
pub proof fn lemma_override_sets_colours(fragments: Seq<Seq<char>>)
    requires
        fragments.len() > 0,
        forall|i: int| 0 <= i < fragments.len() ==> inert(#[trigger] fragments[i]),
    ensures
        escape_like(joined(fragments)),
    decreases fragments.len(),
{
    let before = fragments.drop_last();
    let escaped = seq!['\x1b'] + fragments.last();
    assert(inert(seq!['\x1b'])) by {
        assert forall|i: int| 0 <= i < 1 implies #[trigger] seq!['\x1b'][i] != ';' by {}
    }
    lemma_inert_add(seq!['\x1b'], fragments.last());
    assert(escape_like(escaped));
    if before.len() == 0 {
        assert(joined(before) =~= Seq::<char>::empty());
        assert(joined(fragments) =~= escaped);
    } else {
        assert forall|i: int| 0 <= i < before.len() implies inert(#[trigger] before[i]) by {
            assert(before[i] == fragments[i]);
        }
        lemma_override_sets_colours(before);
        lemma_escape_like_add(joined(before), escaped);
        assert(joined(fragments) =~= joined(before) + escaped);
    }
}

/// A palette of sequences that set colours is unmistakable.
pub proof fn lemma_escape_like_palette(colors: Colors)
    requires
        escape_like(colors.red@),
        escape_like(colors.green@),
        escape_like(colors.yellow@),
        escape_like(colors.blue@),
        escape_like(colors.purple@),
        escape_like(colors.cyan@),
        escape_like(colors.white@),
        escape_like(colors.underline@),
        escape_like(colors.end@),
        escape_like(colors.description@),
    ensures
        unmistakable(|m: Marker| marker_sequence(colors, m)),
{
    lemma_escape_like_add(colors.end@, colors.description@);
    let table = |m: Marker| marker_sequence(colors, m);
    assert forall|m: Marker|
        (#[trigger] table(m)).len() > 0 && inert(table(m)) && table(m)[0] != ';' && marker_of(
            table(m)[0],
        ) is None by {
        assert(escape_like(table(m)));
    }
}

/// The built-in palette is unmistakable: with it, the markers may be
/// replaced all at once or one type after the other, in any order.
pub proof fn lemma_default_palette(colors: Colors)
    requires
        forall|slot: ColorSlot| #[trigger] colors.of(slot) == default_sequence(slot),
    ensures
        unmistakable(|m: Marker| marker_sequence(colors, m)),
{
    lemma_default_sequences();
    assert(colors.red@ == colors.of(ColorSlot::Red));
    assert(colors.green@ == colors.of(ColorSlot::Green));
    assert(colors.yellow@ == colors.of(ColorSlot::Yellow));
    assert(colors.blue@ == colors.of(ColorSlot::Blue));
    assert(colors.purple@ == colors.of(ColorSlot::Purple));
    assert(colors.cyan@ == colors.of(ColorSlot::Cyan));
    assert(colors.white@ == colors.of(ColorSlot::White));
    assert(colors.underline@ == colors.of(ColorSlot::Underline));
    assert(colors.end@ == colors.of(ColorSlot::End));
    assert(colors.description@ == colors.of(ColorSlot::Description));
    lemma_escape_like_palette(colors);
}

} // verus!
