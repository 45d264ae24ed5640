//! Character-level helpers shared by the rest of the crate.
//!
//! Text is modelled as `Seq<char>`.  Executable code works on `Vec<char>`, which
//! gives constant-time indexing, and converts from and to `String` at the edges.

use vstd::prelude::*;

verus! {

/// `String::push` appends one character to the end of the string.
pub assume_specification[ String::push ](s: &mut String, ch: char)
    ensures
        final(s)@ == old(s)@.push(ch),
;

/// `text` begins with `token`.
pub open spec fn starts_with(text: Seq<char>, token: Seq<char>) -> bool {
    token.len() <= text.len() && text.take(token.len() as int) =~= token
}

/// `text` with every occurrence of `token` replaced by `with`.
///
/// Occurrences are found from left to right and do not overlap; the text that
/// replaces an occurrence is never searched again.  An empty `token` occurs
/// nowhere.
pub open spec fn replaced(text: Seq<char>, token: Seq<char>, with: Seq<char>) -> Seq<char>
    decreases text.len(),
{
    if text.len() == 0 || token.len() == 0 {
        text
    } else if starts_with(text, token) {
        with + replaced(text.skip(token.len() as int), token, with)
    } else {
        seq![text[0]] + replaced(text.skip(1), token, with)
    }
}

/// `token` occurs somewhere in `text`.
pub open spec fn occurs_in(token: Seq<char>, text: Seq<char>) -> bool {
    exists|i: int| 0 <= i <= text.len() && #[trigger] starts_with(text.skip(i), token)
}

/// `n` copies of `c`.
pub open spec fn repeated(c: char, n: nat) -> Seq<char> {
    Seq::new(n, |i: int| c)
}

/// The lines of `text`: the pieces between its newline characters.
///
/// There is always at least one line, and a text that ends in a newline has an
/// empty last line.
pub open spec fn lines_of(text: Seq<char>) -> Seq<Seq<char>>
    decreases text.len(),
{
    if text.len() == 0 {
        seq![Seq::<char>::empty()]
    } else {
        let before = lines_of(text.drop_last());
        if text.last() == '\n' {
            before.push(Seq::<char>::empty())
        } else {
            before.update(before.len() - 1, before.last().push(text.last()))
        }
    }
}

/// The number of newline characters in `text`.
pub open spec fn newlines_in(text: Seq<char>) -> nat
    decreases text.len(),
{
    if text.len() == 0 {
        0
    } else if text.last() == '\n' {
        newlines_in(text.drop_last()) + 1
    } else {
        newlines_in(text.drop_last())
    }
}

/// A text has one line more than it has newline characters.
pub proof fn lemma_line_count(text: Seq<char>)
    ensures
        lines_of(text).len() == newlines_in(text) + 1,
    decreases text.len(),
{
    if text.len() > 0 {
        lemma_line_count(text.drop_last());
    }
}

/// Whether `c` is white space: one of the characters that Unicode gives the
/// property `White_Space`.
pub open spec fn is_space(c: char) -> bool {
    let u = c as u32;
    (0x09 <= u <= 0x0d) || u == 0x20 || u == 0x85 || u == 0xa0 || u == 0x1680 || (0x2000 <= u
        <= 0x200a) || u == 0x2028 || u == 0x2029 || u == 0x202f || u == 0x205f || u == 0x3000
}

/// `text` without the white space that it ends in.
pub open spec fn without_trailing_space(text: Seq<char>) -> Seq<char>
    decreases text.len(),
{
    if text.len() > 0 && is_space(text.last()) {
        without_trailing_space(text.drop_last())
    } else {
        text
    }
}

/// `text` without the white space that it begins with.
pub open spec fn without_leading_space(text: Seq<char>) -> Seq<char>
    decreases text.len(),
{
    if text.len() > 0 && is_space(text[0]) {
        without_leading_space(text.skip(1))
    } else {
        text
    }
}

/// `text` without the white space at its two ends.
pub open spec fn trimmed(text: Seq<char>) -> Seq<char> {
    without_leading_space(without_trailing_space(text))
}

/// How often `token` is found in `text`, from left to right and without
/// overlap: the number of replacements that [`replaced`] makes.
pub open spec fn occurrences(text: Seq<char>, token: Seq<char>) -> nat
    decreases text.len(),
{
    if text.len() == 0 || token.len() == 0 {
        0
    } else if starts_with(text, token) {
        1 + occurrences(text.skip(token.len() as int), token)
    } else {
        occurrences(text.skip(1), token)
    }
}

/// The newline of a single character, if it is one.
pub proof fn lemma_newlines_single(c: char)
    ensures
        newlines_in(seq![c]) == if c == '\n' {
            1nat
        } else {
            0nat
        },
{
    assert(seq![c].drop_last() =~= Seq::<char>::empty());
    assert(newlines_in(Seq::<char>::empty()) == 0);
}

/// No line holds a newline.
pub proof fn lemma_lines_hold_no_newline(text: Seq<char>, k: int)
    requires
        0 <= k < lines_of(text).len(),
    ensures
        newlines_in(lines_of(text)[k]) == 0,
    decreases text.len(),
{
    if text.len() > 0 {
        let before = lines_of(text.drop_last());
        lemma_line_count(text.drop_last());
        if text.last() == '\n' {
            if k < before.len() {
                lemma_lines_hold_no_newline(text.drop_last(), k);
            }
        } else {
            if k < before.len() - 1 {
                lemma_lines_hold_no_newline(text.drop_last(), k);
            } else {
                lemma_lines_hold_no_newline(text.drop_last(), before.len() - 1);
                assert(before.last().push(text.last()).drop_last() =~= before.last());
            }
        }
    }
}

/// Copies of a character that is no newline hold no newline.
pub proof fn lemma_repeated_holds_no_newline(c: char, n: nat)
    requires
        c != '\n',
    ensures
        newlines_in(repeated(c, n)) == 0,
    decreases n,
{
    if n > 0 {
        assert(repeated(c, n).drop_last() =~= repeated(c, (n - 1) as nat));
        lemma_repeated_holds_no_newline(c, (n - 1) as nat);
    }
}

/// The newlines of two texts put together are those of the one and those of
/// the other.
pub proof fn lemma_newlines_add(a: Seq<char>, b: Seq<char>)
    ensures
        newlines_in(a + b) == newlines_in(a) + newlines_in(b),
    decreases b.len(),
{
    if b.len() == 0 {
        assert(a + b =~= a);
    } else {
        assert((a + b).drop_last() =~= a + b.drop_last());
        lemma_newlines_add(a, b.drop_last());
    }
}

/// No character of `a` is a character of `b`.
pub open spec fn no_common_char(a: Seq<char>, b: Seq<char>) -> bool {
    forall|i: int, j: int| 0 <= i < a.len() && 0 <= j < b.len() ==> a[i] != b[j]
}

/// To begin with a token is to agree with it character by character.
pub proof fn lemma_starts_with(text: Seq<char>, token: Seq<char>)
    ensures
        starts_with(text, token) <==> token.len() <= text.len() && forall|k: int|
            0 <= k < token.len() ==> text[k] == token[k],
{
    if token.len() <= text.len() {
        if forall|k: int| 0 <= k < token.len() ==> text[k] == token[k] {
            assert(text.take(token.len() as int) =~= token);
        }
        if starts_with(text, token) {
            assert forall|k: int| 0 <= k < token.len() implies text[k] == token[k] by {
                assert(text.take(token.len() as int)[k] == token[k]);
            }
        }
    }
}

/// A text in which `token` does not occur is left as it is.
pub proof fn lemma_replaced_without_token(text: Seq<char>, token: Seq<char>, with: Seq<char>)
    requires
        !occurs_in(token, text),
    ensures
        replaced(text, token, with) == text,
    decreases text.len(),
{
    if text.len() > 0 && token.len() > 0 {
        assert(text.skip(0) =~= text);
        assert(!starts_with(text.skip(0), token));
        let rest = text.skip(1);
        assert forall|i: int| 0 <= i <= rest.len() implies !starts_with(
            #[trigger] rest.skip(i),
            token,
        ) by {
            assert(rest.skip(i) =~= text.skip(i + 1));
        }
        lemma_replaced_without_token(rest, token, with);
        assert(seq![text[0]] + rest =~= text);
    }
}

/// What the result of a replacement begins with, the text began with too,
/// as far as it is made of characters that the replacement does not hold.
proof fn lemma_prefix_survives(u: Seq<char>, token: Seq<char>, with: Seq<char>, p: Seq<char>)
    requires
        token.len() > 0,
        with.len() > 0,
        no_common_char(with, p),
        starts_with(replaced(u, token, with), p),
    ensures
        starts_with(u, p),
    decreases p.len(),
{
    let out = replaced(u, token, with);
    lemma_starts_with(out, p);
    lemma_starts_with(u, p);
    if p.len() > 0 {
        assert(out[0] == p[0]);
        if u.len() == 0 {
        } else if starts_with(u, token) {
            assert(out[0] == with[0]);
        } else {
            let rest = replaced(u.skip(1), token, with);
            assert(out =~= seq![u[0]] + rest);
            assert forall|k: int| 0 <= k < p.skip(1).len() implies rest[k] == p.skip(1)[k] by {
                assert(out[k + 1] == p[k + 1]);
            }
            lemma_starts_with(rest, p.skip(1));
            lemma_prefix_survives(u.skip(1), token, with, p.skip(1));
            lemma_starts_with(u.skip(1), p.skip(1));
            assert forall|k: int| 0 <= k < p.len() implies u[k] == p[k] by {
                if k > 0 {
                    assert(u.skip(1)[k - 1] == p.skip(1)[k - 1]);
                }
            }
        }
    }
}

/// Where what replaces a token shares no character with it, the token
/// occurs nowhere in the result of the replacement.
pub proof fn lemma_replaced_has_no_token(text: Seq<char>, token: Seq<char>, with: Seq<char>)
    requires
        token.len() > 0,
        with.len() > 0,
        no_common_char(with, token),
    ensures
        !occurs_in(token, replaced(text, token, with)),
    decreases text.len(),
{
    let out = replaced(text, token, with);
    assert forall|i: int| 0 <= i <= out.len() implies !starts_with(#[trigger] out.skip(i), token) by {
        lemma_starts_with(out.skip(i), token);
        if text.len() == 0 {
        } else if starts_with(text, token) {
            let rest = replaced(text.skip(token.len() as int), token, with);
            lemma_replaced_has_no_token(text.skip(token.len() as int), token, with);
            if i < with.len() {
                if starts_with(out.skip(i), token) {
                    assert(out.skip(i)[0] == token[0]);
                    assert(out.skip(i)[0] == with[i]);
                }
            } else {
                assert(out.skip(i) =~= rest.skip(i - with.len()));
                assert(!starts_with(rest.skip(i - with.len()), token));
            }
        } else {
            let rest = replaced(text.skip(1), token, with);
            lemma_replaced_has_no_token(text.skip(1), token, with);
            assert(out =~= seq![text[0]] + rest);
            if i == 0 {
                if starts_with(out.skip(0), token) {
                    assert(out.skip(0) =~= out);
                    lemma_starts_with(out, token);
                    let tail = token.skip(1);
                    assert forall|k: int| 0 <= k < tail.len() implies rest[k] == tail[k] by {
                        assert(out[k + 1] == token[k + 1]);
                    }
                    lemma_starts_with(rest, tail);
                    assert(no_common_char(with, tail)) by {
                        assert forall|a: int, b: int|
                            0 <= a < with.len() && 0 <= b < tail.len() implies with[a]
                            != tail[b] by {
                            assert(tail[b] == token[b + 1]);
                        }
                    }
                    lemma_prefix_survives(text.skip(1), token, with, tail);
                    lemma_starts_with(text.skip(1), tail);
                    lemma_starts_with(text, token);
                    assert forall|k: int| 0 <= k < token.len() implies text[k] == token[k] by {
                        if k > 0 {
                            assert(text.skip(1)[k - 1] == tail[k - 1]);
                        } else {
                            assert(out[0] == token[0]);
                        }
                    }
                }
            } else {
                assert(out.skip(i) =~= rest.skip(i - 1));
                assert(!starts_with(rest.skip(i - 1), token));
            }
        }
    }
}

/// Where what replaces a token shares no character with it, replacing a
/// second time changes nothing.
pub proof fn lemma_replaced_twice(text: Seq<char>, token: Seq<char>, with: Seq<char>)
    requires
        token.len() > 0,
        with.len() > 0,
        no_common_char(with, token),
    ensures
        replaced(replaced(text, token, with), token, with) == replaced(text, token, with),
{
    lemma_replaced_has_no_token(text, token, with);
    lemma_replaced_without_token(replaced(text, token, with), token, with);
}

/// The characters of `s`, in order.
pub fn chars_of(s: &str) -> (out: Vec<char>)
    ensures
        out@ == s@,
{
    let mut out: Vec<char> = Vec::new();
    for c in it: s.chars()
        invariant
            out@ == it.seq().take(it.index()),
            it.seq() == s@,
    {
        out.push(c);
    }
    out
}

/// The string made of the characters of `chars`, in order.
pub fn string_of(chars: &Vec<char>) -> (out: String)
    ensures
        out@ == chars@,
{
    let mut out = String::new();
    let mut i: usize = 0;
    while i < chars.len()
        invariant
            i <= chars.len(),
            out@ == chars@.take(i as int),
        decreases chars.len() - i,
    {
        out.push(chars[i]);
        i += 1;
    }
    out
}

/// Whether two pieces of text hold the same characters.
pub fn same_text(a: &str, b: &str) -> (same: bool)
    ensures
        same == (a@ == b@),
{
    let left = chars_of(a);
    let right = chars_of(b);
    if left.len() != right.len() {
        return false;
    }
    let mut i: usize = 0;
    while i < left.len()
        invariant
            left@ == a@,
            right@ == b@,
            left.len() == right.len(),
            i <= left.len(),
            left@.take(i as int) == right@.take(i as int),
        decreases left.len() - i,
    {
        if left[i] != right[i] {
            assert(a@[i as int] != b@[i as int]);
            return false;
        }
        proof {
            assert(left@.take(i + 1) =~= left@.take(i as int).push(left@[i as int]));
            assert(right@.take(i + 1) =~= right@.take(i as int).push(right@[i as int]));
        }
        i += 1;
    }
    proof {
        assert(left@.take(left.len() as int) =~= left@);
        assert(right@.take(right.len() as int) =~= right@);
    }
    true
}

/// Appends the characters of `more` to `out`.
pub fn push_all(out: &mut Vec<char>, more: &Vec<char>)
    ensures
        final(out)@ == old(out)@ + more@,
{
    let mut i: usize = 0;
    while i < more.len()
        invariant
            i <= more.len(),
            out@ == old(out)@ + more@.take(i as int),
        decreases more.len() - i,
    {
        out.push(more[i]);
        i += 1;
    }
}

/// Whether `token` stands in `text` at position `at`.
fn starts_with_at(text: &Vec<char>, at: usize, token: &Vec<char>) -> (found: bool)
    requires
        at <= text.len(),
    ensures
        found == starts_with(text@.skip(at as int), token@),
{
    if token.len() > text.len() - at {
        return false;
    }
    let mut k: usize = 0;
    while k < token.len()
        invariant
            at <= text.len(),
            token.len() <= text.len() - at,
            k <= token.len(),
            forall|j: int| 0 <= j < k ==> text@[at + j] == token@[j],
        decreases token.len() - k,
    {
        if text[at + k] != token[k] {
            assert(text@.skip(at as int).take(token@.len() as int)[k as int] != token@[k as int]);
            return false;
        }
        k += 1;
    }
    true
}

/// Replaces every occurrence of `token` in `text` by `with`, from left to right.
pub fn replace_token(text: &Vec<char>, token: &Vec<char>, with: &Vec<char>) -> (out: Vec<char>)
    ensures
        out@ == replaced(text@, token@, with@),
{
    let mut out: Vec<char> = Vec::new();
    let n = text.len();
    let mut i: usize = 0;
    proof {
        assert(text@.skip(0) =~= text@);
        assert(out@ + replaced(text@, token@, with@) =~= replaced(text@, token@, with@));
    }
    while i < n
        invariant
            n == text.len(),
            i <= n,
            out@ + replaced(text@.skip(i as int), token@, with@) == replaced(
                text@,
                token@,
                with@,
            ),
        decreases n - i,
    {
        let ghost rest = text@.skip(i as int);
        if token.len() > 0 && starts_with_at(text, i, token) {
            proof {
                assert(rest.skip(token@.len() as int) =~= text@.skip(i + token@.len()));
                assert(out@ + with@ + replaced(text@.skip(i + token@.len()), token@, with@)
                    =~= out@ + replaced(rest, token@, with@));
            }
            push_all(&mut out, with);
            i += token.len();
        } else {
            proof {
                assert(rest.skip(1) =~= text@.skip(i + 1));
                assert(out@.push(text@[i as int]) + replaced(text@.skip(i + 1), token@, with@)
                    =~= out@ + replaced(rest, token@, with@));
            }
            out.push(text[i]);
            i += 1;
        }
    }
    proof {
        assert(out@ + replaced(text@.skip(n as int), token@, with@) =~= out@);
    }
    out
}

/// Splits `text` at its newline characters.
pub fn split_lines(text: &Vec<char>) -> (lines: Vec<Vec<char>>)
    ensures
        lines.len() == lines_of(text@).len(),
        forall|k: int| 0 <= k < lines.len() ==> (#[trigger] lines@[k])@ == lines_of(text@)[k],
{
    let mut lines: Vec<Vec<char>> = Vec::new();
    let mut current: Vec<char> = Vec::new();
    let mut i: usize = 0;
    while i < text.len()
        invariant
            i <= text.len(),
            lines.len() + 1 == lines_of(text@.take(i as int)).len(),
            forall|k: int|
                0 <= k < lines.len() ==> (#[trigger] lines@[k])@ == lines_of(
                    text@.take(i as int),
                )[k],
            current@ == lines_of(text@.take(i as int)).last(),
        decreases text.len() - i,
    {
        proof {
            assert(text@.take(i + 1).drop_last() =~= text@.take(i as int));
        }
        if text[i] == '\n' {
            lines.push(current);
            current = Vec::new();
        } else {
            current.push(text[i]);
        }
        i += 1;
    }
    proof {
        assert(text@.take(text.len() as int) =~= text@);
    }
    lines.push(current);
    lines
}

/// `n` copies of `c`.
pub fn repeat_char(c: char, n: usize) -> (out: Vec<char>)
    ensures
        out@ == repeated(c, n as nat),
{
    let mut out: Vec<char> = Vec::new();
    let mut i: usize = 0;
    while i < n
        invariant
            i <= n,
            out@ == repeated(c, i as nat),
        decreases n - i,
    {
        out.push(c);
        i += 1;
    }
    out
}

/// Whether `c` is white space.
pub fn char_is_space(c: char) -> (space: bool)
    ensures
        space == is_space(c),
{
    let u: u32 = c as u32;
    (0x09 <= u && u <= 0x0d) || u == 0x20 || u == 0x85 || u == 0xa0 || u == 0x1680 || (0x2000 <= u
        && u <= 0x200a) || u == 0x2028 || u == 0x2029 || u == 0x202f || u == 0x205f || u
        == 0x3000
}

/// `text` without the white space at its two ends.
pub fn trim(text: &Vec<char>) -> (out: Vec<char>)
    ensures
        out@ == trimmed(text@),
{
    let mut end: usize = text.len();
    proof {
        assert(text@.take(end as int) =~= text@);
    }
    while end > 0 && char_is_space(text[end - 1])
        invariant
            end <= text.len(),
            without_trailing_space(text@) == without_trailing_space(text@.take(end as int)),
        decreases end,
    {
        proof {
            assert(text@.take(end as int).drop_last() =~= text@.take(end - 1));
        }
        end -= 1;
    }
    let ghost kept = text@.take(end as int);
    let mut start: usize = 0;
    proof {
        assert(kept.skip(0) =~= kept);
    }
    while start < end && char_is_space(text[start])
        invariant
            start <= end <= text.len(),
            kept == text@.take(end as int),
            without_leading_space(kept) == without_leading_space(kept.skip(start as int)),
        decreases end - start,
    {
        proof {
            assert(kept.skip(start as int).skip(1) =~= kept.skip(start + 1));
        }
        start += 1;
    }
    let mut out: Vec<char> = Vec::new();
    let mut i: usize = start;
    proof {
        assert(kept.skip(start as int) =~= text@.subrange(start as int, end as int));
    }
    while i < end
        invariant
            start <= i <= end <= text.len(),
            out@ == text@.subrange(start as int, i as int),
        decreases end - i,
    {
        out.push(text[i]);
        proof {
            assert(text@.subrange(start as int, i + 1) =~= text@.subrange(
                start as int,
                i as int,
            ).push(text@[i as int]));
        }
        i += 1;
    }
    out
}

} // verus!
