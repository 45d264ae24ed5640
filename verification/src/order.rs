//! The order of a listing.
//!
//! Entries are ordered by their keys, and keys are compared character by
//! character.  Every key begins with a character that tells directories from
//! files, so that directories always come first.

use crate::path::{entry_name, key_of, key_under, views, EntryView, LsiPath, LsiPathKind};
use vstd::prelude::*;

verus! {

/// `a` comes before `b`, or is equal to it, in the dictionary order in which
/// characters are compared by their code points.
pub open spec fn lex_le(a: Seq<char>, b: Seq<char>) -> bool
    decreases a.len(),
{
    if a.len() == 0 {
        true
    } else if b.len() == 0 {
        false
    } else if a[0] == b[0] {
        lex_le(a.skip(1), b.skip(1))
    } else {
        (a[0] as u32) < (b[0] as u32)
    }
}

/// `a` comes strictly before `b`.
pub open spec fn lex_lt(a: Seq<char>, b: Seq<char>) -> bool {
    lex_le(a, b) && !lex_le(b, a)
}

/// Every text is before or equal to itself.
pub proof fn lemma_lex_le_reflexive(a: Seq<char>)
    ensures
        lex_le(a, a),
    decreases a.len(),
{
    if a.len() > 0 {
        lemma_lex_le_reflexive(a.skip(1));
    }
}

/// Of two texts, one is before or equal to the other.
pub proof fn lemma_lex_le_total(a: Seq<char>, b: Seq<char>)
    ensures
        lex_le(a, b) || lex_le(b, a),
    decreases a.len(),
{
    if a.len() > 0 && b.len() > 0 {
        if a[0] == b[0] {
            lemma_lex_le_total(a.skip(1), b.skip(1));
        } else {
            vstd::utf8::char_u32_cast(a[0], a[0] as u32);
            vstd::utf8::char_u32_cast(b[0], b[0] as u32);
        }
    }
}

/// What is before something that is before a third is before the third.
pub proof fn lemma_lex_le_transitive(a: Seq<char>, b: Seq<char>, c: Seq<char>)
    requires
        lex_le(a, b),
        lex_le(b, c),
    ensures
        lex_le(a, c),
    decreases a.len(),
{
    if a.len() > 0 && b.len() > 0 && c.len() > 0 && a[0] == b[0] && b[0] == c[0] {
        lemma_lex_le_transitive(a.skip(1), b.skip(1), c.skip(1));
    }
}

/// Two texts of which each is before or equal to the other are the same
/// text.
pub proof fn lemma_lex_le_antisymmetric(a: Seq<char>, b: Seq<char>)
    requires
        lex_le(a, b),
        lex_le(b, a),
    ensures
        a == b,
    decreases a.len(),
{
    if a.len() == 0 || b.len() == 0 {
        assert(a =~= b);
    } else {
        lemma_lex_le_antisymmetric(a.skip(1), b.skip(1));
        assert(a =~= seq![a[0]] + a.skip(1));
        assert(b =~= seq![b[0]] + b.skip(1));
    }
}

/// Whether `a` is before or equal to `b`.
pub fn chars_le(a: &Vec<char>, b: &Vec<char>) -> (le: bool)
    ensures
        le == lex_le(a@, b@),
{
    let mut i: usize = 0;
    proof {
        assert(a@.skip(0) =~= a@);
        assert(b@.skip(0) =~= b@);
    }
    loop
        invariant
            i <= a.len(),
            i <= b.len(),
            lex_le(a@, b@) == lex_le(a@.skip(i as int), b@.skip(i as int)),
        decreases a.len() - i,
    {
        if i == a.len() {
            return true;
        }
        if i == b.len() {
            return false;
        }
        if a[i] != b[i] {
            return (a[i] as u32) < (b[i] as u32);
        }
        proof {
            assert(a@.skip(i as int).skip(1) =~= a@.skip(i + 1));
            assert(b@.skip(i as int).skip(1) =~= b@.skip(i + 1));
        }
        i += 1;
    }
}

/// Each entry of `entries` is before or equal to all that follow it.
pub open spec fn sorted(entries: Seq<EntryView>) -> bool {
    forall|i: int, j: int|
        0 <= i < j < entries.len() ==> lex_le(
            key_of(#[trigger] entries[i]),
            key_of(#[trigger] entries[j]),
        )
}

/// Where an entry with the key `key` goes into `entries`: behind the last
/// entry that is before or equal to it.
pub open spec fn place(entries: Seq<EntryView>, key: Seq<char>) -> int
    decreases entries.len(),
{
    if entries.len() == 0 || lex_le(key_of(entries.last()), key) {
        entries.len() as int
    } else {
        place(entries.drop_last(), key)
    }
}

/// `entries` in the order of their keys.  Entries with the same key stay in
/// the order in which they were.
pub open spec fn ordered(entries: Seq<EntryView>) -> Seq<EntryView>
    decreases entries.len(),
{
    if entries.len() == 0 {
        entries
    } else {
        let before = ordered(entries.drop_last());
        before.insert(place(before, key_of(entries.last())), entries.last())
    }
}

/// The place of a key lies within the sequence; all entries from there on
/// are strictly behind the key, and the entry before it is not.
pub proof fn lemma_place(entries: Seq<EntryView>, key: Seq<char>)
    ensures
        0 <= place(entries, key) <= entries.len(),
        forall|k: int|
            place(entries, key) <= k < entries.len() ==> !lex_le(
                key_of(#[trigger] entries[k]),
                key,
            ),
        place(entries, key) > 0 ==> lex_le(key_of(entries[place(entries, key) - 1]), key),
    decreases entries.len(),
{
    if entries.len() == 0 || lex_le(key_of(entries.last()), key) {
    } else {
        let shorter = entries.drop_last();
        lemma_place(shorter, key);
        assert forall|k: int| place(entries, key) <= k < entries.len() implies !lex_le(
            key_of(#[trigger] entries[k]),
            key,
        ) by {
            if k < shorter.len() {
                assert(shorter[k] == entries[k]);
            }
        }
        if place(entries, key) > 0 {
            assert(shorter[place(entries, key) - 1] == entries[place(entries, key) - 1]);
        }
    }
}

/// Putting an entry at its place keeps a sorted sequence sorted.
pub proof fn lemma_insert_sorted(entries: Seq<EntryView>, entry: EntryView)
    requires
        sorted(entries),
    ensures
        sorted(entries.insert(place(entries, key_of(entry)), entry)),
{
    let key = key_of(entry);
    let p = place(entries, key);
    lemma_place(entries, key);
    let after = entries.insert(p, entry);
    assert forall|i: int, j: int| 0 <= i < j < after.len() implies lex_le(
        key_of(#[trigger] after[i]),
        key_of(#[trigger] after[j]),
    ) by {
        if j < p {
            assert(after[i] == entries[i] && after[j] == entries[j]);
        } else if j == p {
            assert(after[i] == entries[i]);
            if i < p - 1 {
                lemma_lex_le_transitive(key_of(entries[i]), key_of(entries[p - 1]), key);
            }
        } else if i < p {
            assert(after[i] == entries[i] && after[j] == entries[j - 1]);
        } else if i == p {
            assert(after[j] == entries[j - 1]);
            lemma_lex_le_total(key_of(entries[j - 1]), key);
        } else {
            assert(after[i] == entries[i - 1] && after[j] == entries[j - 1]);
        }
    }
}

/// The ordered sequence is sorted.
pub proof fn lemma_ordered_sorted(entries: Seq<EntryView>)
    ensures
        sorted(ordered(entries)),
        ordered(entries).len() == entries.len(),
    decreases entries.len(),
{
    if entries.len() > 0 {
        lemma_ordered_sorted(entries.drop_last());
        lemma_place(ordered(entries.drop_last()), key_of(entries.last()));
        lemma_insert_sorted(ordered(entries.drop_last()), entries.last());
    }
}

/// An entry put into a sequence is one more entry of it, wherever it goes.
proof fn lemma_insert_multiset(entries: Seq<EntryView>, at: int, entry: EntryView)
    requires
        0 <= at <= entries.len(),
    ensures
        entries.insert(at, entry).to_multiset() == entries.to_multiset().insert(entry),
{
    broadcast use vstd::seq_lib::group_to_multiset_ensures;

    let after = entries.insert(at, entry);
    assert(after.remove(at) =~= entries);
    assert(after[at] == entry);
    assert(after.contains(entry));
    assert(after.to_multiset().count(entry) > 0);
    assert(after.remove(at).to_multiset() == after.to_multiset().remove(entry));
    assert(after.to_multiset() =~= entries.to_multiset().insert(entry));
}

/// The ordered sequence holds the same entries as the one it was made from,
/// each as often.
pub proof fn lemma_ordered_permutation(entries: Seq<EntryView>)
    ensures
        ordered(entries).to_multiset() == entries.to_multiset(),
    decreases entries.len(),
{
    broadcast use vstd::seq_lib::group_to_multiset_ensures;

    if entries.len() > 0 {
        let shorter = entries.drop_last();
        let before = ordered(shorter);
        lemma_ordered_permutation(shorter);
        lemma_ordered_sorted(shorter);
        lemma_place(before, key_of(entries.last()));
        let p = place(before, key_of(entries.last()));
        assert(entries =~= shorter.push(entries.last()));
        lemma_insert_multiset(before, p, entries.last());
    } else {
        assert(ordered(entries) =~= entries);
    }
}

/// The entries of `entries` that have the key `key`, in their order.
pub open spec fn with_key(entries: Seq<EntryView>, key: Seq<char>) -> Seq<EntryView> {
    entries.filter(|e: EntryView| key_of(e) == key)
}

/// Where no entry has the key, none is found.
proof fn lemma_with_key_none(entries: Seq<EntryView>, key: Seq<char>)
    requires
        forall|i: int| 0 <= i < entries.len() ==> key_of(#[trigger] entries[i]) != key,
    ensures
        with_key(entries, key) == Seq::<EntryView>::empty(),
    decreases entries.len(),
{
    reveal(Seq::filter);
    if entries.len() > 0 {
        let shorter = entries.drop_last();
        assert forall|i: int| 0 <= i < shorter.len() implies key_of(#[trigger] shorter[i])
            != key by {
            assert(shorter[i] == entries[i]);
        }
        lemma_with_key_none(shorter, key);
        assert(key_of(entries[entries.len() - 1]) != key);
    }
}

/// A single entry is found under its own key and under no other.
proof fn lemma_with_key_single(entry: EntryView, key: Seq<char>)
    ensures
        with_key(seq![entry], key) == if key_of(entry) == key {
            seq![entry]
        } else {
            Seq::<EntryView>::empty()
        },
{
    reveal(Seq::filter);
    let one = seq![entry];
    assert(one.drop_last() =~= Seq::<EntryView>::empty());
    assert(with_key(Seq::<EntryView>::empty(), key) =~= Seq::<EntryView>::empty());
    assert(one.last() == entry);
    if key_of(entry) == key {
        assert(with_key(one, key) =~= seq![entry]);
    } else {
        assert(with_key(one, key) =~= Seq::<EntryView>::empty());
    }
}

/// The order is stable: the entries that share a key stand in the ordered
/// sequence as they stood before.
pub proof fn lemma_ordered_stable(entries: Seq<EntryView>, key: Seq<char>)
    ensures
        with_key(ordered(entries), key) == with_key(entries, key),
    decreases entries.len(),
{
    if entries.len() > 0 {
        let spec_pred = |e: EntryView| key_of(e) == key;
        let shorter = entries.drop_last();
        let last = entries.last();
        let before = ordered(shorter);
        let p = place(before, key_of(last));
        lemma_ordered_stable(shorter, key);
        lemma_place(before, key_of(last));
        let front = before.take(p);
        let back = before.skip(p);
        assert(before =~= front + back);
        assert(before.insert(p, last) =~= front + seq![last] + back);
        assert(entries =~= shorter + seq![last]);
        Seq::filter_distributes_over_add(front, back, spec_pred);
        Seq::filter_distributes_over_add(front, seq![last], spec_pred);
        Seq::filter_distributes_over_add(front + seq![last], back, spec_pred);
        Seq::filter_distributes_over_add(shorter, seq![last], spec_pred);
        lemma_with_key_single(last, key);
        if key_of(last) == key {
            assert forall|i: int| 0 <= i < back.len() implies key_of(#[trigger] back[i]) != key by {
                assert(back[i] == before[p + i]);
                lemma_lex_le_reflexive(key);
            }
            lemma_with_key_none(back, key);
            assert(with_key(ordered(entries), key) =~= with_key(entries, key));
        } else {
            assert(with_key(ordered(entries), key) =~= with_key(entries, key));
        }
    } else {
        assert(ordered(entries) =~= entries);
    }
}

/// Directories first: the key of a directory is strictly before the key of
/// anything that is not one, whatever the sort modes, names and descriptions
/// of the two.
pub proof fn lemma_directory_key_first(
    mode_a: Seq<char>,
    description_a: Option<Seq<char>>,
    name_a: Seq<char>,
    mode_b: Seq<char>,
    description_b: Option<Seq<char>>,
    name_b: Seq<char>,
)
    ensures
        lex_lt(
            key_under(mode_a, LsiPathKind::Dir, description_a, name_a),
            key_under(mode_b, LsiPathKind::File, description_b, name_b),
        ),
{
    let a = key_under(mode_a, LsiPathKind::Dir, description_a, name_a);
    let b = key_under(mode_b, LsiPathKind::File, description_b, name_b);
    assert(a.len() > 0 && a[0] == '0');
    assert(b.len() > 0 && b[0] == '1');
}

/// Directories first, said of entries.
pub proof fn lemma_directories_first(a: EntryView, b: EntryView)
    requires
        a.kind == LsiPathKind::Dir,
        b.kind == LsiPathKind::File,
    ensures
        lex_lt(key_of(a), key_of(b)),
{
    lemma_directory_key_first(
        a.sort_mode,
        a.description,
        entry_name(a),
        b.sort_mode,
        b.description,
        entry_name(b),
    );
}

/// In a sorted listing no file stands before a directory.
pub proof fn lemma_sorted_directories_first(entries: Seq<EntryView>, i: int, j: int)
    requires
        sorted(entries),
        0 <= i < j < entries.len(),
    ensures
        !(entries[i].kind == LsiPathKind::File && entries[j].kind == LsiPathKind::Dir),
{
    if entries[i].kind == LsiPathKind::File && entries[j].kind == LsiPathKind::Dir {
        lemma_directories_first(entries[j], entries[i]);
    }
}

/// Putting an entry into a vector puts its view into the views.
proof fn lemma_views_insert(entries: Seq<LsiPath>, at: int, entry: LsiPath)
    requires
        0 <= at <= entries.len(),
    ensures
        views(entries.insert(at, entry)) == views(entries).insert(at, entry@),
{
    assert(views(entries.insert(at, entry)) =~= views(entries).insert(at, entry@));
}

/// Puts `pathes` into the order of their keys.  Entries with equal keys keep
/// their order.
pub fn sort_entries(pathes: &mut Vec<LsiPath>)
    ensures
        views(final(pathes)@) == ordered(views(old(pathes)@)),
        sorted(views(final(pathes)@)),
        views(final(pathes)@).to_multiset() == views(old(pathes)@).to_multiset(),
        final(pathes).len() == old(pathes).len(),
        forall|key: Seq<char>| #[trigger]
            with_key(views(final(pathes)@), key) == with_key(views(old(pathes)@), key),
        forall|i: int, j: int|
            0 <= i < j < final(pathes).len() ==> !((#[trigger] final(pathes)@[i])@.kind
                == LsiPathKind::File && (#[trigger] final(pathes)@[j])@.kind == LsiPathKind::Dir),
{
    let mut taken: Vec<LsiPath> = Vec::new();
    std::mem::swap(pathes, &mut taken);
    let mut keys: Vec<Vec<char>> = Vec::new();
    let ghost all = taken@;
    proof {
        assert(views(all).take(0) =~= views(pathes@));
    }
    for entry in it: taken
        invariant
            it.seq() == all,
            all == old(pathes)@,
            views(pathes@) == ordered(views(all).take(it.index() as int)),
            keys.len() == pathes.len(),
            forall|k: int| 0 <= k < keys.len() ==> (#[trigger] keys@[k])@ == pathes@[k].key(),
    {
        let key = entry.key_chars();
        let mut j: usize = pathes.len();
        proof {
            assert(views(pathes@).take(j as int) =~= views(pathes@));
        }
        while j > 0 && !chars_le(&keys[j - 1], &key)
            invariant
                j <= pathes.len(),
                keys.len() == pathes.len(),
                forall|k: int| 0 <= k < keys.len() ==> (#[trigger] keys@[k])@ == pathes@[k].key(),
                place(views(pathes@), key@) == place(views(pathes@).take(j as int), key@),
            decreases j,
        {
            proof {
                assert(views(pathes@).take(j as int).drop_last() =~= views(pathes@).take(j - 1));
                assert(views(pathes@).take(j as int).last() == pathes@[j - 1]@);
            }
            j -= 1;
        }
        proof {
            let upto = views(all).take(it.index() + 1);
            assert(upto.drop_last() =~= views(all).take(it.index() as int));
            assert(upto.last() == entry@);
            assert(j > 0 ==> views(pathes@).take(j as int).last() == pathes@[j - 1]@);
            lemma_views_insert(pathes@, j as int, entry);
        }
        pathes.insert(j, entry);
        keys.insert(j, key);
    }
    proof {
        assert(views(all).take(all.len() as int) =~= views(all));
        lemma_ordered_sorted(views(all));
        lemma_ordered_permutation(views(all));
        assert forall|key: Seq<char>| #[trigger]
            with_key(views(pathes@), key) == with_key(views(all), key) by {
            lemma_ordered_stable(views(all), key);
        }
        assert forall|i: int, j: int| 0 <= i < j < pathes.len() implies !((#[trigger] pathes@[i])@.kind
            == LsiPathKind::File && (#[trigger] pathes@[j])@.kind == LsiPathKind::Dir) by {
            lemma_sorted_directories_first(views(pathes@), i, j);
        }
    }
}

} // verus!
