//! The canonical order of labels: sorted by key, in the order that strings
//! have, after the entries under one key were taken out.

use crate::labels::{entries, unique_keys, Entry, Label};
use itertools::Itertools;
use vstd::prelude::*;
use vstd::relations::{sorted_by, total_ordering};
use vstd::seq_lib::lemma_sorted_unique;

verus! {

/// The order of strings: position by position, by the characters' code
/// points, a proper prefix first.
pub open spec fn text_le(a: Seq<char>, b: Seq<char>) -> bool
    decreases a.len(),
{
    if a.len() == 0 {
        true
    } else if b.len() == 0 {
        false
    } else if a[0] != b[0] {
        a[0] < b[0]
    } else {
        text_le(a.drop_first(), b.drop_first())
    }
}

pub proof fn lemma_text_le_reflexive(a: Seq<char>)
    ensures
        text_le(a, a),
    decreases a.len(),
{
    if a.len() > 0 {
        lemma_text_le_reflexive(a.drop_first());
    }
}

pub proof fn lemma_text_le_antisymmetric(a: Seq<char>, b: Seq<char>)
    requires
        text_le(a, b),
        text_le(b, a),
    ensures
        a == b,
    decreases a.len(),
{
    if a.len() == 0 || b.len() == 0 {
        assert(a =~= b);
    } else {
        lemma_text_le_antisymmetric(a.drop_first(), b.drop_first());
        assert(a.len() == a.drop_first().len() + 1);
        assert(b.len() == b.drop_first().len() + 1);
        assert forall|i: int| 0 <= i < a.len() implies a[i] == b[i] by {
            if i > 0 {
                assert(a[i] == a.drop_first()[i - 1]);
                assert(b[i] == b.drop_first()[i - 1]);
            }
        }
        assert(a.len() == a.drop_first().len() + 1);
        assert(b.len() == b.drop_first().len() + 1);
        assert(a =~= b);
    }
}

pub proof fn lemma_text_le_transitive(a: Seq<char>, b: Seq<char>, c: Seq<char>)
    requires
        text_le(a, b),
        text_le(b, c),
    ensures
        text_le(a, c),
    decreases a.len(),
{
    if a.len() > 0 && b.len() > 0 && c.len() > 0 {
        if a[0] == b[0] && b[0] == c[0] {
            lemma_text_le_transitive(a.drop_first(), b.drop_first(), c.drop_first());
        }
    }
}

pub proof fn lemma_text_le_total(a: Seq<char>, b: Seq<char>)
    ensures
        text_le(a, b) || text_le(b, a),
    decreases a.len(),
{
    if a.len() > 0 && b.len() > 0 {
        if a[0] == b[0] {
            lemma_text_le_total(a.drop_first(), b.drop_first());
        }
    }
}

/// The order of entries: by key, and under one key by value.
pub open spec fn entry_le(x: Entry, y: Entry) -> bool {
    if x.0 != y.0 {
        text_le(x.0, y.0)
    } else {
        text_le(x.1, y.1)
    }
}

pub open spec fn entry_order() -> spec_fn(Entry, Entry) -> bool {
    |x: Entry, y: Entry| entry_le(x, y)
}

pub proof fn lemma_entry_order_total()
    ensures
        total_ordering(entry_order()),
{
    let ord = entry_order();
    assert forall|x: Entry| #[trigger] ord(x, x) by {
        lemma_text_le_reflexive(x.1);
    }
    assert forall|x: Entry, y: Entry| #[trigger] ord(x, y) && #[trigger] ord(y, x) implies x
        == y by {
        if x.0 != y.0 {
            lemma_text_le_antisymmetric(x.0, y.0);
        } else {
            lemma_text_le_antisymmetric(x.1, y.1);
        }
    }
    assert forall|x: Entry, y: Entry, z: Entry| #[trigger] ord(x, y) && #[trigger] ord(
        y,
        z,
    ) implies ord(x, z) by {
        if x.0 != y.0 && y.0 != z.0 {
            lemma_text_le_transitive(x.0, y.0, z.0);
            if x.0 == z.0 {
                lemma_text_le_antisymmetric(x.0, y.0);
            }
        } else if x.0 == y.0 && y.0 == z.0 {
            lemma_text_le_transitive(x.1, y.1, z.1);
        }
    }
    assert forall|x: Entry, y: Entry| #[trigger] ord(x, y) || #[trigger] ord(y, x) by {
        lemma_text_le_total(x.0, y.0);
        lemma_text_le_total(x.1, y.1);
    }
}

/// Ascending by key.
pub open spec fn key_sorted(s: Seq<Entry>) -> bool {
    forall|i: int, j: int| 0 <= i < j < s.len() ==> text_le(#[trigger] s[i].0, #[trigger] s[j].0)
}

/// The entries without those under one key, in their order.
pub open spec fn without_key(s: Seq<Entry>, key: Seq<char>) -> Seq<Entry>
    decreases s.len(),
{
    if s.len() == 0 {
        s
    } else if s.last().0 == key {
        without_key(s.drop_last(), key)
    } else {
        without_key(s.drop_last(), key).push(s.last())
    }
}

/// The canonical form of a list of entries: those under `key` removed, the
/// rest in ascending order.
pub open spec fn canonical_entries(s: Seq<Entry>, key: Seq<char>) -> Seq<Entry> {
    without_key(s, key).sort_by(entry_order())
}

/// How often an entry occurs after a key was taken out.
pub proof fn lemma_without_key_count(s: Seq<Entry>, key: Seq<char>, e: Entry)
    ensures
        without_key(s, key).to_multiset().count(e) == if e.0 == key {
            0
        } else {
            s.to_multiset().count(e)
        },
    decreases s.len(),
{
    broadcast use vstd::seq_lib::group_to_multiset_ensures;
    broadcast use vstd::multiset::group_multiset_axioms;

    if s.len() == 0 {
        assert(s.to_multiset().len() == 0);
    } else {
        let front = s.drop_last();
        lemma_without_key_count(front, key, e);
        assert(s =~= front.push(s.last()));
        assert(s.to_multiset() =~= front.to_multiset().insert(s.last()));
    }
}

/// What stays after a key was taken out was there before, under another key.
pub proof fn lemma_without_key_members(s: Seq<Entry>, key: Seq<char>, i: int)
    requires
        0 <= i < without_key(s, key).len(),
    ensures
        without_key(s, key)[i].0 != key,
        exists|j: int| 0 <= j < s.len() && #[trigger] s[j] == without_key(s, key)[i],
    decreases s.len(),
{
    if s.len() > 0 {
        let front = s.drop_last();
        let w = without_key(front, key);
        if i < w.len() {
            lemma_without_key_members(front, key, i);
            let j = choose|j: int| 0 <= j < front.len() && #[trigger] front[j] == w[i];
            assert(s[j] == w[i]);
        } else {
            assert(s[s.len() - 1] == without_key(s, key)[i]);
        }
    }
}

/// Taking a key out leaves no key twice where none was twice before.
pub proof fn lemma_without_key_unique(s: Seq<Entry>, key: Seq<char>)
    requires
        unique_keys(s),
    ensures
        unique_keys(without_key(s, key)),
    decreases s.len(),
{
    if s.len() > 0 {
        let front = s.drop_last();
        let w = without_key(front, key);
        assert(unique_keys(front)) by {
            assert forall|i: int, j: int|
                0 <= i < front.len() && 0 <= j < front.len() && i != j implies front[i].0
                != front[j].0 by {
                assert(front[i] == s[i] && front[j] == s[j]);
            }
        }
        lemma_without_key_unique(front, key);
        if s.last().0 != key {
            let full = w.push(s.last());
            assert forall|i: int, j: int|
                0 <= i < full.len() && 0 <= j < full.len() && i != j implies full[i].0
                != full[j].0 by {
                if i < w.len() && j < w.len() {
                    assert(full[i] == w[i] && full[j] == w[j]);
                } else {
                    let k = if i < w.len() {
                        i
                    } else {
                        j
                    };
                    lemma_without_key_members(front, key, k);
                    let m = choose|m: int| 0 <= m < front.len() && #[trigger] front[m] == w[k];
                    assert(s[m] == w[k]);
                    assert(s[m].0 != s[s.len() - 1].0);
                }
            }
        }
    }
}

/// Two lists that agree entry by entry, but for the values under `key`, are
/// the same once that key is taken out.
pub proof fn lemma_without_key_ignores_value(a: Seq<Entry>, b: Seq<Entry>, key: Seq<char>)
    requires
        a.len() == b.len(),
        forall|i: int| 0 <= i < a.len() ==> (#[trigger] a[i]).0 == b[i].0,
        forall|i: int| 0 <= i < a.len() && a[i].0 != key ==> (#[trigger] a[i]).1 == b[i].1,
    ensures
        without_key(a, key) == without_key(b, key),
    decreases a.len(),
{
    if a.len() > 0 {
        let n = a.len() - 1;
        assert(a[n].0 == b[n].0);
        assert forall|i: int| 0 <= i < n implies (#[trigger] a.drop_last()[i]).0 == b.drop_last()[i].0 by {
            assert(a[i].0 == b[i].0);
        }
        assert forall|i: int| 0 <= i < n && a.drop_last()[i].0 != key implies (
        #[trigger] a.drop_last()[i]).1 == b.drop_last()[i].1 by {
            assert(a[i].1 == b[i].1);
        }
        lemma_without_key_ignores_value(a.drop_last(), b.drop_last(), key);
        if a[n].0 != key {
            assert(a[n].1 == b[n].1);
            assert(a[n] == b[n]);
        }
    } else {
        assert(a =~= b);
    }
}

/// The canonical form does not depend on the order of the entries: two lists
/// with the same entries, each as often, have the same canonical form.
pub proof fn lemma_canonical_order_independent(a: Seq<Entry>, b: Seq<Entry>, key: Seq<char>)
    requires
        a.to_multiset() == b.to_multiset(),
    ensures
        canonical_entries(a, key) == canonical_entries(b, key),
{
    let wa = without_key(a, key);
    let wb = without_key(b, key);
    assert forall|e: Entry| wa.to_multiset().count(e) == wb.to_multiset().count(e) by {
        lemma_without_key_count(a, key, e);
        lemma_without_key_count(b, key, e);
    }
    assert(wa.to_multiset() =~= wb.to_multiset());
    lemma_entry_order_total();
    wa.lemma_sort_by_ensures(entry_order());
    wb.lemma_sort_by_ensures(entry_order());
    lemma_sorted_unique(wa.sort_by(entry_order()), wb.sort_by(entry_order()), entry_order());
}

/// An entry shows in the canonical form: where one list holds an entry, not
/// under the key that is taken out, which the other list does not hold, the
/// two canonical forms differ.
pub proof fn lemma_entry_shows(a: Seq<Entry>, b: Seq<Entry>, key: Seq<char>, e: Entry)
    requires
        a.contains(e),
        !b.contains(e),
        e.0 != key,
    ensures
        canonical_entries(a, key) != canonical_entries(b, key),
{
    broadcast use vstd::seq_lib::group_to_multiset_ensures;

    lemma_without_key_count(a, key, e);
    lemma_without_key_count(b, key, e);
    assert(a.to_multiset().count(e) > 0);
    assert(b.to_multiset().count(e) == 0);
    lemma_entry_order_total();
    without_key(a, key).lemma_sort_by_ensures(entry_order());
    without_key(b, key).lemma_sort_by_ensures(entry_order());
    assert(canonical_entries(a, key).to_multiset().count(e) > 0);
    assert(canonical_entries(b, key).to_multiset().count(e) == 0);
}

/// A list that is ascending by key and holds the entries of a list without a
/// key twice is that list in the order of entries.
pub proof fn lemma_key_sorted_is_sorted(a: Seq<Entry>, b: Seq<Entry>)
    requires
        unique_keys(a),
        key_sorted(b),
        a.to_multiset() == b.to_multiset(),
    ensures
        b == a.sort_by(entry_order()),
{
    broadcast use vstd::seq_lib::group_to_multiset_ensures;

    let ord = entry_order();
    lemma_entry_order_total();
    assert forall|i: int, j: int| 0 <= i < j < b.len() implies #[trigger] ord(b[i], b[j]) by {
        assert(text_le(b[i].0, b[j].0));
        if b[i].0 == b[j].0 {
            assert(b.contains(b[i]));
            assert(b.contains(b[j]));
            assert(a.to_multiset().count(b[i]) > 0);
            assert(a.to_multiset().count(b[j]) > 0);
            assert(a.contains(b[i]));
            assert(a.contains(b[j]));
            let m = choose|m: int| 0 <= m < a.len() && a[m] == b[i];
            let n = choose|n: int| 0 <= n < a.len() && a[n] == b[j];
            assert(m == n);
            lemma_text_le_reflexive(b[i].1);
        }
    }
    assert(sorted_by(b, ord));
    a.lemma_sort_by_ensures(ord);
    lemma_sorted_unique(b, a.sort_by(ord), ord);
}

/// Calls `itertools::Itertools::sorted_by_key` with the key of each label,
/// and collects what it hands out. That function sorts with
/// `slice::sort_by_key`: the result holds the same labels, each as often, in
/// ascending order of their keys, which are strings.
#[verifier::external_body]
fn sort_by_key(v: Vec<Label>) -> (r: Vec<Label>)
    ensures
        entries(r@).to_multiset() == entries(v@).to_multiset(),
        key_sorted(entries(r@)),
{
    v.into_iter().sorted_by_key(|l| l.key.clone()).collect()
}

/// Sorts labels by key.
pub fn sorted_labels(v: Vec<Label>) -> (r: Vec<Label>)
    requires
        unique_keys(entries(v@)),
    ensures
        entries(r@) == entries(v@).sort_by(entry_order()),
{
    let ghost before = entries(v@);
    let r = sort_by_key(v);
    proof {
        lemma_key_sorted_is_sorted(before, entries(r@));
    }
    r
}

/// Copies the labels, leaving out those under one key.
pub fn labels_without(labels: &Vec<Label>, key: &String) -> (r: Vec<Label>)
    ensures
        entries(r@) == without_key(entries(labels@), key@),
{
    let mut kept: Vec<Label> = Vec::new();
    let mut i: usize = 0;
    assert(entries(labels@).take(0) =~= Seq::<Entry>::empty());
    assert(entries(kept@) =~= Seq::<Entry>::empty());
    while i < labels.len()
        invariant
            i <= labels.len(),
            entries(kept@) == without_key(entries(labels@).take(i as int), key@),
        decreases labels.len() - i,
    {
        let ghost old_kept = kept@;
        proof {
            let next = entries(labels@).take(i + 1);
            assert(next.drop_last() =~= entries(labels@).take(i as int));
            assert(next.last() == labels@[i as int]@);
        }
        if labels[i].key != *key {
            let l = labels[i].duplicate();
            kept.push(l);
            assert(entries(kept@) =~= entries(old_kept).push(l@));
        }
        i += 1;
    }
    assert(entries(labels@).take(i as int) =~= entries(labels@));
    kept
}

/// The labels in canonical form: those under `key` left out, the rest sorted
/// by key.
pub fn canonical_labels(labels: &Vec<Label>, key: &String) -> (r: Vec<Label>)
    requires
        unique_keys(entries(labels@)),
    ensures
        entries(r@) == canonical_entries(entries(labels@), key@),
{
    let kept = labels_without(labels, key);
    proof {
        lemma_without_key_unique(entries(labels@), key@);
    }
    sorted_labels(kept)
}

} // verus!
