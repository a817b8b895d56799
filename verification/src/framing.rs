//! The canonical text can be read in one way only: two resources with the
//! same canonical text have the same name, namespace, canonical labels,
//! sorted annotations and payload.

use crate::canonical::{
    canonical_entries, entry_order, lemma_entry_order_total, lemma_entry_shows,
};
use crate::decimal::dec_text;
use crate::fingerprint::{
    canonical_text, entries_text, field_text, hash_key, list_text, ResourceText,
};
use crate::labels::Entry;
use vstd::prelude::*;

verus! {

/// A number in decimal has a digit, and nothing but digits.
pub proof fn lemma_dec_digits(n: nat)
    ensures
        dec_text(n).len() >= 1,
        forall|i: int| 0 <= i < dec_text(n).len() ==> '0' <= #[trigger] dec_text(n)[i] <= '9',
    decreases n,
{
    if n >= 10 {
        lemma_dec_digits(n / 10);
    }
}

/// Two numbers with the same decimal text are the same.
pub proof fn lemma_dec_injective(n: nat, m: nat)
    requires
        dec_text(n) == dec_text(m),
    ensures
        n == m,
    decreases n,
{
    if n < 10 && m < 10 {
        assert(dec_text(n)[0] == dec_text(m)[0]);
        assert(dec_text(n)[0] as int == 48 + n);
        assert(dec_text(m)[0] as int == 48 + m);
    } else if n < 10 {
        lemma_dec_digits(m / 10);
        assert(dec_text(n).len() == 1);
        assert(dec_text(m).len() == dec_text(m / 10).len() + 1);
    } else if m < 10 {
        lemma_dec_digits(n / 10);
        assert(dec_text(m).len() == 1);
        assert(dec_text(n).len() == dec_text(n / 10).len() + 1);
    } else {
        let a = dec_text(n);
        let b = dec_text(m);
        assert(a.drop_last() =~= dec_text(n / 10));
        assert(b.drop_last() =~= dec_text(m / 10));
        assert(a.last() == b.last());
        assert(a.last() as int == 48 + n % 10);
        assert(b.last() as int == 48 + m % 10);
        lemma_dec_injective(n / 10, m / 10);
        assert(n % 10 == m % 10);
        assert(n == 10 * (n / 10) + n % 10);
        assert(m == 10 * (m / 10) + m % 10);
    }
}

/// Two texts that are cut at the first occurrence of a character agree in
/// what stands before it and in what stands behind it.
proof fn lemma_split_at(p: Seq<char>, q: Seq<char>, x: Seq<char>, y: Seq<char>, c: char)
    requires
        p + seq![c] + x == q + seq![c] + y,
        forall|i: int| 0 <= i < p.len() ==> p[i] != c,
        forall|i: int| 0 <= i < q.len() ==> q[i] != c,
    ensures
        p == q,
        x == y,
{
    let u = p + seq![c] + x;
    let v = q + seq![c] + y;
    if p.len() < q.len() {
        assert(u[p.len() as int] == c);
        assert(v[p.len() as int] == q[p.len() as int]);
    }
    if q.len() < p.len() {
        assert(v[q.len() as int] == c);
        assert(u[q.len() as int] == p[q.len() as int]);
    }
    assert(u.len() == v.len());
    assert forall|i: int| 0 <= i < p.len() implies p[i] == q[i] by {
        assert(u[i] == p[i]);
        assert(v[i] == q[i]);
    }
    assert(p =~= q);
    assert(u.len() == p.len() + 1 + x.len());
    assert(v.len() == q.len() + 1 + y.len());
    assert(x.len() == y.len());
    assert forall|i: int| 0 <= i < x.len() implies x[i] == y[i] by {
        assert(u[p.len() + 1 + i] == x[i]);
        assert(v[q.len() + 1 + i] == y[i]);
    }
    assert(x =~= y);
}

/// Two texts that start with parts of one length agree in both parts.
proof fn lemma_cut(p: Seq<char>, q: Seq<char>, x: Seq<char>, y: Seq<char>)
    requires
        p + x == q + y,
        p.len() == q.len(),
    ensures
        p == q,
        x == y,
{
    let u = p + x;
    let v = q + y;
    assert(u.len() == v.len());
    assert forall|i: int| 0 <= i < p.len() implies p[i] == q[i] by {
        assert(u[i] == p[i]);
        assert(v[i] == q[i]);
    }
    assert(p =~= q);
    assert(u.len() == p.len() + x.len());
    assert(v.len() == q.len() + y.len());
    assert(x.len() == y.len());
    assert forall|i: int| 0 <= i < x.len() implies x[i] == y[i] by {
        assert(u[p.len() + i] == x[i]);
        assert(v[q.len() + i] == y[i]);
    }
    assert(x =~= y);
}

/// A field can be read off the front of a text in one way only.
pub proof fn lemma_field_split(a: Seq<char>, b: Seq<char>, x: Seq<char>, y: Seq<char>)
    requires
        field_text(a) + x == field_text(b) + y,
    ensures
        a == b,
        x == y,
{
    reveal_strlit(":");
    reveal_strlit("\n");
    assert(":"@ =~= seq![':']);
    assert("\n"@ =~= seq!['\n']);
    let pa = dec_text(a.len());
    let pb = dec_text(b.len());
    let end = seq!['\n'];
    let ra = a + (end + x);
    let rb = b + (end + y);
    assert(field_text(a) + x =~= pa + seq![':'] + ra);
    assert(field_text(b) + y =~= pb + seq![':'] + rb);
    lemma_dec_digits(a.len());
    lemma_dec_digits(b.len());
    lemma_split_at(pa, pb, ra, rb, ':');
    lemma_dec_injective(a.len(), b.len());
    lemma_cut(a, b, end + x, end + y);
    lemma_cut(end, end, x, y);
}

/// The text of a list of entries starts with its first entry.
proof fn lemma_entries_front(s: Seq<Entry>)
    requires
        s.len() > 0,
    ensures
        entries_text(s) == field_text(s[0].0) + field_text(s[0].1) + entries_text(s.drop_first()),
    decreases s.len(),
{
    if s.len() == 1 {
        assert(s.drop_last() =~= Seq::<Entry>::empty());
        assert(s.drop_first() =~= Seq::<Entry>::empty());
        assert(entries_text(s) =~= field_text(s[0].0) + field_text(s[0].1) + entries_text(
            s.drop_first(),
        ));
    } else {
        let front = s.drop_last();
        let rest = s.drop_first();
        lemma_entries_front(front);
        assert(front.drop_first() =~= rest.drop_last());
        assert(front[0] == s[0]);
        assert(rest.last() == s.last());
        assert(entries_text(s) =~= field_text(s[0].0) + field_text(s[0].1) + entries_text(rest));
    }
}

/// As many entries can be read off the front of a text in one way only.
pub proof fn lemma_entries_split(s: Seq<Entry>, t: Seq<Entry>, x: Seq<char>, y: Seq<char>)
    requires
        s.len() == t.len(),
        entries_text(s) + x == entries_text(t) + y,
    ensures
        s == t,
        x == y,
    decreases s.len(),
{
    if s.len() == 0 {
        assert(entries_text(s) + x =~= x);
        assert(entries_text(t) + y =~= y);
        assert(s =~= t);
    } else {
        lemma_entries_front(s);
        lemma_entries_front(t);
        let s1 = s.drop_first();
        let t1 = t.drop_first();
        let xs = field_text(s[0].1) + (entries_text(s1) + x);
        let ys = field_text(t[0].1) + (entries_text(t1) + y);
        assert(entries_text(s) + x =~= field_text(s[0].0) + xs);
        assert(entries_text(t) + y =~= field_text(t[0].0) + ys);
        lemma_field_split(s[0].0, t[0].0, xs, ys);
        lemma_field_split(s[0].1, t[0].1, entries_text(s1) + x, entries_text(t1) + y);
        lemma_entries_split(s1, t1, x, y);
        assert(s[0] == t[0]);
        assert forall|i: int| 0 <= i < s.len() implies s[i] == t[i] by {
            if i > 0 {
                assert(s[i] == s1[i - 1]);
                assert(t[i] == t1[i - 1]);
            }
        }
        assert(s =~= t);
    }
}

/// A list can be read off the front of a text in one way only.
pub proof fn lemma_list_split(s: Seq<Entry>, t: Seq<Entry>, x: Seq<char>, y: Seq<char>)
    requires
        list_text(s) + x == list_text(t) + y,
    ensures
        s == t,
        x == y,
{
    reveal_strlit("\n");
    assert("\n"@ =~= seq!['\n']);
    let ps = dec_text(s.len());
    let pt = dec_text(t.len());
    let rs = entries_text(s) + x;
    let rt = entries_text(t) + y;
    assert(list_text(s) + x =~= ps + seq!['\n'] + rs);
    assert(list_text(t) + y =~= pt + seq!['\n'] + rt);
    lemma_dec_digits(s.len());
    lemma_dec_digits(t.len());
    lemma_split_at(ps, pt, rs, rt, '\n');
    lemma_dec_injective(s.len(), t.len());
    lemma_entries_split(s, t, x, y);
}

proof fn lemma_regroup(a: Seq<char>, b: Seq<char>, c: Seq<char>, d: Seq<char>, e: Seq<char>)
    ensures
        a + b + c + d + e == a + (b + (c + (d + e))),
{
    assert(a + b + c + d + e =~= a + (b + (c + (d + e))));
}

/// Two resources with the same canonical text agree in all that the
/// fingerprint looks at.
pub proof fn lemma_canonical_text_injective(a: ResourceText, b: ResourceText)
    requires
        canonical_text(a) == canonical_text(b),
    ensures
        a.name == b.name,
        a.namespace == b.namespace,
        canonical_entries(a.labels, hash_key()) == canonical_entries(b.labels, hash_key()),
        a.annotations.sort_by(entry_order()) == b.annotations.sort_by(entry_order()),
        a.payload == b.payload,
{
    let la = canonical_entries(a.labels, hash_key());
    let lb = canonical_entries(b.labels, hash_key());
    let na = a.annotations.sort_by(entry_order());
    let nb = b.annotations.sort_by(entry_order());
    let a3 = list_text(na) + a.payload;
    let b3 = list_text(nb) + b.payload;
    let a2 = list_text(la) + a3;
    let b2 = list_text(lb) + b3;
    let a1 = field_text(a.namespace) + a2;
    let b1 = field_text(b.namespace) + b2;
    lemma_regroup(
        field_text(a.name),
        field_text(a.namespace),
        list_text(la),
        list_text(na),
        a.payload,
    );
    lemma_regroup(
        field_text(b.name),
        field_text(b.namespace),
        list_text(lb),
        list_text(nb),
        b.payload,
    );
    lemma_field_split(a.name, b.name, a1, b1);
    lemma_field_split(a.namespace, b.namespace, a2, b2);
    lemma_list_split(la, lb, a3, b3);
    lemma_list_split(na, nb, a.payload, b.payload);
}

/// Sensitivity of the canonical text: a label, not the fingerprint's own,
/// that one resource carries and the other does not, with this value, gives
/// the two resources different canonical texts.
pub proof fn lemma_label_shows(a: ResourceText, b: ResourceText, e: Entry)
    requires
        a.labels.contains(e),
        !b.labels.contains(e),
        e.0 != hash_key(),
    ensures
        canonical_text(a) != canonical_text(b),
{
    lemma_entry_shows(a.labels, b.labels, hash_key(), e);
    if canonical_text(a) == canonical_text(b) {
        lemma_canonical_text_injective(a, b);
    }
}

/// Sensitivity of the canonical text: an annotation that one resource
/// carries and the other does not, with this value, gives the two resources
/// different canonical texts.
pub proof fn lemma_annotation_shows(a: ResourceText, b: ResourceText, e: Entry)
    requires
        a.annotations.contains(e),
        !b.annotations.contains(e),
    ensures
        canonical_text(a) != canonical_text(b),
{
    broadcast use vstd::seq_lib::group_to_multiset_ensures;

    lemma_entry_order_total();
    a.annotations.lemma_sort_by_ensures(entry_order());
    b.annotations.lemma_sort_by_ensures(entry_order());
    assert(a.annotations.to_multiset().count(e) > 0);
    assert(b.annotations.to_multiset().count(e) == 0);
    if canonical_text(a) == canonical_text(b) {
        lemma_canonical_text_injective(a, b);
    }
}

/// Sensitivity of the canonical text: two resources with different payloads,
/// names or namespaces have different canonical texts.
pub proof fn lemma_plain_fields_show(a: ResourceText, b: ResourceText)
    requires
        a.payload != b.payload || a.name != b.name || a.namespace != b.namespace,
    ensures
        canonical_text(a) != canonical_text(b),
{
    if canonical_text(a) == canonical_text(b) {
        lemma_canonical_text_injective(a, b);
    }
}

} // verus!
