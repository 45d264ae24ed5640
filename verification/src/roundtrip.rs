//! What comes back when a stored description is read.
//!
//! A description is stored with its line breaks and read back without the
//! white space at its two ends.  Between those ends nothing is lost: the
//! description comes back with the lines that it was stored with.

use crate::fs::{expanded, line_end, newline_token, normalized, unified};
use crate::text::{
    is_space, lemma_line_count, lemma_newlines_add, lemma_newlines_single, lemma_starts_with,
    lines_of, newlines_in,
    occurrences, starts_with, trimmed, without_leading_space, without_trailing_space,
};
use vstd::prelude::*;

verus! {

/// A single character holds no line end of two characters.
proof fn lemma_unified_single(c: char)
    ensures
        unified(seq![c]) == seq![c],
{
    let one = seq![c];
    lemma_starts_with(one, line_end());
    assert(one.skip(1) =~= Seq::<char>::empty());
    assert(unified(Seq::<char>::empty()) =~= Seq::<char>::empty());
    assert(unified(one) =~= one);
}

/// What one more character at the end of a text does to its unified form:
/// it is added, unless it is the newline that completes a line end, which
/// takes the place of the carriage return before it.
proof fn lemma_unified_push(text: Seq<char>, c: char)
    ensures
        unified(text.push(c)) == if text.len() > 0 && text.last() == '\r' && c == '\n' {
            unified(text).drop_last().push('\n')
        } else {
            unified(text).push(c)
        },
        unified(text.push(c)).len() > 0,
        unified(text.push(c)).last() == c,
    decreases text.len(),
{
    let more = text.push(c);
    lemma_starts_with(more, line_end());
    lemma_starts_with(text, line_end());
    if text.len() == 0 {
        assert(more =~= seq![c]);
        lemma_unified_single(c);
        assert(unified(text).push(c) =~= seq![c]);
    } else if starts_with(text, line_end()) {
        assert(more.skip(2) =~= text.skip(2).push(c));
        let rest = text.skip(2);
        if rest.len() == 0 {
            assert(rest.push(c) =~= seq![c]);
            lemma_unified_single(c);
            assert(unified(rest) =~= Seq::<char>::empty());
            assert(unified(text) =~= seq!['\n']);
            assert(unified(more) =~= unified(text).push(c));
        } else {
            lemma_unified_push(rest, c);
            lemma_unified_nonempty(rest);
            assert(rest.last() == text.last());
            if rest.last() == '\r' && c == '\n' {
                assert(unified(more) =~= unified(text).drop_last().push('\n'));
            } else {
                assert(unified(more) =~= unified(text).push(c));
            }
        }
    } else if text.len() == 1 && text[0] == '\r' && c == '\n' {
        assert(more.skip(2) =~= Seq::<char>::empty());
        assert(unified(Seq::<char>::empty()) =~= Seq::<char>::empty());
        assert(unified(more) =~= seq!['\n']);
        assert(text =~= seq!['\r']);
        lemma_unified_single('\r');
        assert(unified(text).drop_last().push('\n') =~= seq!['\n']);
    } else {
        assert(!starts_with(more, line_end()));
        assert(more.skip(1) =~= text.skip(1).push(c));
        let rest = text.skip(1);
        lemma_unified_push(rest, c);
        if rest.len() == 0 {
            assert(unified(rest) =~= Seq::<char>::empty());
            assert(rest.push(c) =~= seq![c]);
            lemma_unified_single(c);
            assert(unified(more) =~= unified(text).push(c));
        } else {
            lemma_unified_nonempty(rest);
            assert(rest.last() == text.last());
            if rest.last() == '\r' && c == '\n' {
                assert(unified(more) =~= unified(text).drop_last().push('\n'));
            } else {
                assert(unified(more) =~= unified(text).push(c));
            }
        }
    }
}

/// The unified form of a text that is not empty is not empty.
proof fn lemma_unified_nonempty(text: Seq<char>)
    requires
        text.len() > 0,
    ensures
        unified(text).len() > 0,
{
}

/// The unified form of a text ends as the text ends.
proof fn lemma_unified_last(text: Seq<char>)
    requires
        text.len() > 0,
    ensures
        unified(text).len() > 0,
        unified(text).last() == text.last(),
{
    assert(text.drop_last().push(text.last()) =~= text);
    lemma_unified_push(text.drop_last(), text.last());
}

/// Reading line ends of two characters as newlines keeps the number of
/// newlines.
pub proof fn lemma_unified_newlines(text: Seq<char>)
    ensures
        newlines_in(unified(text)) == newlines_in(text),
    decreases text.len(),
{
    if text.len() > 0 {
        let before = text.drop_last();
        let c = text.last();
        assert(before.push(c) =~= text);
        lemma_unified_push(before, c);
        lemma_unified_newlines(before);
        if before.len() > 0 && before.last() == '\r' && c == '\n' {
            lemma_unified_last(before);
            let shorter = unified(before).drop_last();
            assert(shorter.push('\n').drop_last() =~= shorter);
        } else {
            assert(unified(before).push(c).drop_last() =~= unified(before));
        }
    }
}

/// White space at the end of a text is dropped before or after line ends
/// are unified, with the same result.
proof fn lemma_unified_trailing(text: Seq<char>)
    ensures
        without_trailing_space(unified(text)) == unified(without_trailing_space(text)),
    decreases text.len(),
{
    if text.len() > 0 {
        let before = text.drop_last();
        let c = text.last();
        assert(before.push(c) =~= text);
        lemma_unified_push(before, c);
        if is_space(c) {
            lemma_unified_trailing(before);
            if before.len() > 0 && before.last() == '\r' && c == '\n' {
                lemma_unified_last(before);
                let shorter = unified(before).drop_last();
                assert(shorter.push('\n').drop_last() =~= shorter);
            } else {
                assert(unified(before).push(c).drop_last() =~= unified(before));
            }
        }
    }
}

/// White space at the beginning of a text is dropped before or after line
/// ends are unified, with the same result.
proof fn lemma_unified_leading(text: Seq<char>)
    ensures
        without_leading_space(unified(text)) == unified(without_leading_space(text)),
    decreases text.len(),
{
    lemma_starts_with(text, line_end());
    if text.len() == 0 {
    } else if starts_with(text, line_end()) {
        let rest = text.skip(2);
        lemma_unified_leading(rest);
        assert(unified(text) == seq!['\n'] + unified(rest));
        assert(unified(text).skip(1) =~= unified(rest));
        assert(text.skip(1).skip(1) =~= rest);
        assert(is_space('\r') && is_space('\n'));
        assert(without_leading_space(text) == without_leading_space(text.skip(1)));
        assert(without_leading_space(text.skip(1)) == without_leading_space(rest));
        assert(without_leading_space(unified(text)) == without_leading_space(unified(rest)));
    } else {
        let rest = text.skip(1);
        lemma_unified_leading(rest);
        assert(unified(text) == seq![text[0]] + unified(rest));
        assert(unified(text).skip(1) =~= unified(rest));
    }
}

/// What is read from a stored text is the text between its first and its
/// last character that is not white space, with its line ends unified.
pub proof fn lemma_normalized(raw: Seq<char>)
    ensures
        normalized(raw) == unified(trimmed(raw)),
{
    lemma_unified_trailing(raw);
    lemma_unified_leading(without_trailing_space(raw));
}

/// What is read from a stored text has as many lines as the text has
/// between its first and its last character that is not white space.
pub proof fn lemma_lines_read_back(raw: Seq<char>)
    ensures
        lines_of(normalized(raw)).len() == lines_of(trimmed(raw)).len(),
{
    lemma_normalized(raw);
    lemma_unified_newlines(trimmed(raw));
    lemma_line_count(normalized(raw));
    lemma_line_count(trimmed(raw));
}

/// Storing a description turns each backslash followed by n into a line
/// break of its own.
pub proof fn lemma_expanded_lines(content: Seq<char>)
    ensures
        lines_of(expanded(content)).len() == lines_of(content).len() + occurrences(
            content,
            newline_token(),
        ),
    decreases content.len(),
{
    lemma_expanded_newlines(content);
    lemma_line_count(expanded(content));
    lemma_line_count(content);
}

/// Each token that is replaced adds one newline.
proof fn lemma_expanded_newlines(content: Seq<char>)
    ensures
        newlines_in(expanded(content)) == newlines_in(content) + occurrences(
            content,
            newline_token(),
        ),
    decreases content.len(),
{
    let token = newline_token();
    lemma_starts_with(content, token);
    if content.len() == 0 {
    } else if starts_with(content, token) {
        let rest = content.skip(2);
        lemma_expanded_newlines(rest);
        lemma_newlines_add(seq!['\n'], expanded(rest));
        assert(content =~= token + rest);
        lemma_newlines_add(token, rest);
        assert(newlines_in(token) == 0) by {
            assert(token =~= seq!['\\'] + seq!['n']);
            lemma_newlines_add(seq!['\\'], seq!['n']);
            lemma_newlines_single('\\');
            lemma_newlines_single('n');
        }
        lemma_newlines_single('\n');
    } else {
        let rest = content.skip(1);
        lemma_expanded_newlines(rest);
        let first = seq![content[0]];
        lemma_newlines_single(content[0]);
        lemma_newlines_add(first, expanded(rest));
        assert(content =~= first + rest);
        lemma_newlines_add(first, rest);
    }
}

/// The round trip of a description: what was written with a backslash and
/// an n for each line break is stored with real line breaks, and read back
/// with as many lines as were stored.  This holds where the white space at
/// the two ends of the stored text, which is not read back, holds no line
/// break.
pub proof fn lemma_round_trip(content: Seq<char>)
    requires
        newlines_in(trimmed(expanded(content))) == newlines_in(expanded(content)),
    ensures
        lines_of(normalized(expanded(content))).len() == lines_of(expanded(content)).len(),
        lines_of(expanded(content)).len() == lines_of(content).len() + occurrences(
            content,
            newline_token(),
        ),
{
    let stored = expanded(content);
    lemma_lines_read_back(stored);
    lemma_line_count(trimmed(stored));
    lemma_line_count(stored);
    lemma_expanded_lines(content);
}

} // verus!
