//! The content fingerprint of a resource: a hash of its canonical text, which
//! does not depend on the order of labels and annotations, on the generation
//! counter, or on the fingerprint that the resource already carries.

use crate::canonical::{
    canonical_entries, canonical_labels, entry_order, lemma_canonical_order_independent,
    lemma_entry_order_total, lemma_without_key_ignores_value, sorted_labels, without_key,
};
use crate::decimal::{dec_text, push_decimal};
use crate::hash::{hash_text, hex_text, lemma_hex_width, pow16, push_hex, text_hash};
use crate::labels::{
    entries, find_label, lemma_lookup_first, lookup, unique_keys, Entry, Label, SkateLabels,
};
use crate::names::NamespacedName;
use vstd::prelude::*;
use vstd::seq_lib::lemma_sorted_unique;
use vstd::string::StrSliceExecFns;
use vstd::string::StringExecFns;

verus! {

/// A resource as the fingerprint sees it. The payload is whatever else the
/// resource holds, as text.
#[derive(Debug)]
pub struct ResourceDescription {
    pub name: String,
    pub namespace: String,
    pub labels: Vec<Label>,
    pub annotations: Vec<Label>,
    pub generation: Option<i64>,
    pub payload: String,
}

/// A resource as plain values.
pub struct ResourceText {
    pub name: Seq<char>,
    pub namespace: Seq<char>,
    pub labels: Seq<Entry>,
    pub annotations: Seq<Entry>,
    pub generation: Option<i64>,
    pub payload: Seq<char>,
}

impl View for ResourceDescription {
    type V = ResourceText;

    open spec fn view(&self) -> ResourceText {
        ResourceText {
            name: self.name@,
            namespace: self.namespace@,
            labels: entries(self.labels@),
            annotations: entries(self.annotations@),
            generation: self.generation,
            payload: self.payload@,
        }
    }
}

/// Why an identity could not be read from a resource.
#[derive(Debug, Clone, Copy, PartialEq, Eq, Structural)]
pub enum LabelError {
    /// The label `skate.io/name` or `skate.io/namespace` is missing.
    MissingIdentityLabels,
}

/// The key under which a resource carries its fingerprint.
pub open spec fn hash_key() -> Seq<char> {
    SkateLabels::Hash.text()
}

/// One field of the canonical text: its length in characters, a colon, the
/// field, a line break.
pub open spec fn field_text(s: Seq<char>) -> Seq<char> {
    dec_text(s.len()) + ":"@ + s + "\n"@
}

/// The text of the entries of a list: the key and the value of each, in order.
pub open spec fn entries_text(s: Seq<Entry>) -> Seq<char>
    decreases s.len(),
{
    if s.len() == 0 {
        Seq::empty()
    } else {
        entries_text(s.drop_last()) + field_text(s.last().0) + field_text(s.last().1)
    }
}

/// The text of a list of entries: how many there are, then the entries.
pub open spec fn list_text(s: Seq<Entry>) -> Seq<char> {
    dec_text(s.len()) + "\n"@ + entries_text(s)
}

/// What stands in the canonical text before the payload.
pub open spec fn canonical_head(v: ResourceText) -> Seq<char> {
    field_text(v.name) + field_text(v.namespace) + list_text(
        canonical_entries(v.labels, hash_key()),
    ) + list_text(v.annotations.sort_by(entry_order()))
}

/// The canonical text of a resource: name, namespace, the labels but the
/// fingerprint sorted by key, the annotations sorted by key, the payload. The
/// generation counter is not in it.
pub open spec fn canonical_text(v: ResourceText) -> Seq<char> {
    canonical_head(v) + v.payload
}

/// The fingerprint of a resource: the hash of its canonical text, as sixteen
/// hexadecimal digits.
pub open spec fn fingerprint_of(v: ResourceText) -> Seq<char> {
    hex_text(text_hash(canonical_text(v)) as nat, 16)
}

/// The entries with the value under a key set: replaced where the key is
/// there, added at the end where it is not.
pub open spec fn with_entry(s: Seq<Entry>, key: Seq<char>, value: Seq<char>) -> Seq<Entry> {
    if exists|i: int| 0 <= i < s.len() && (#[trigger] s[i]).0 == key {
        let i = choose|i: int| 0 <= i < s.len() && (#[trigger] s[i]).0 == key;
        s.update(i, (key, value))
    } else {
        s.push((key, value))
    }
}

/// Order independence: two resources that differ only in the order of their
/// labels and of their annotations have the same fingerprint.
pub proof fn lemma_fingerprint_order_independent(a: ResourceText, b: ResourceText)
    requires
        a.name == b.name,
        a.namespace == b.namespace,
        a.payload == b.payload,
        a.labels.to_multiset() == b.labels.to_multiset(),
        a.annotations.to_multiset() == b.annotations.to_multiset(),
    ensures
        canonical_text(a) == canonical_text(b),
        fingerprint_of(a) == fingerprint_of(b),
{
    lemma_canonical_order_independent(a.labels, b.labels, hash_key());
    lemma_entry_order_total();
    a.annotations.lemma_sort_by_ensures(entry_order());
    b.annotations.lemma_sort_by_ensures(entry_order());
    lemma_sorted_unique(
        a.annotations.sort_by(entry_order()),
        b.annotations.sort_by(entry_order()),
        entry_order(),
    );
}

/// Volatile fields: two resources that differ only in the generation counter
/// and in the value of the fingerprint label have the same fingerprint.
pub proof fn lemma_fingerprint_ignores_volatile(a: ResourceText, b: ResourceText)
    requires
        a.name == b.name,
        a.namespace == b.namespace,
        a.payload == b.payload,
        a.annotations == b.annotations,
        a.labels.len() == b.labels.len(),
        forall|i: int| 0 <= i < a.labels.len() ==> (#[trigger] a.labels[i]).0 == b.labels[i].0,
        forall|i: int|
            0 <= i < a.labels.len() && a.labels[i].0 != hash_key() ==> (#[trigger] a.labels[i]).1
                == b.labels[i].1,
    ensures
        canonical_text(a) == canonical_text(b),
        fingerprint_of(a) == fingerprint_of(b),
{
    lemma_without_key_ignores_value(a.labels, b.labels, hash_key());
}

/// A fingerprint has sixteen digits.
pub proof fn lemma_fingerprint_width(v: ResourceText)
    ensures
        fingerprint_of(v).len() == 16,
{
    reveal_with_fuel(pow16, 17);
    assert(pow16(16) == 0x1_0000_0000_0000_0000);
    lemma_hex_width(text_hash(canonical_text(v)) as nat, 16, pow16(16));
}

/// After a value was set under a key, it is the value under that key.
pub proof fn lemma_with_entry_lookup(s: Seq<Entry>, key: Seq<char>, value: Seq<char>)
    requires
        unique_keys(s),
    ensures
        lookup(with_entry(s, key, value), key) == Some(value),
{
    let t = with_entry(s, key, value);
    if exists|i: int| 0 <= i < s.len() && (#[trigger] s[i]).0 == key {
        let i = choose|i: int| 0 <= i < s.len() && (#[trigger] s[i]).0 == key;
        assert forall|j: int| 0 <= j < i implies (#[trigger] t[j]).0 != key by {
            assert(s[j].0 != s[i].0);
        }
        lemma_lookup_first(t, key, i);
    } else {
        assert forall|j: int| 0 <= j < s.len() implies (#[trigger] t[j]).0 != key by {
            assert(t[j] == s[j]);
        }
        lemma_lookup_first(t, key, s.len() as int);
    }
}

/// Setting the fingerprint label leaves the fingerprint as it was.
pub proof fn lemma_stamp_keeps_fingerprint(v: ResourceText, value: Seq<char>)
    ensures
        fingerprint_of(ResourceText { labels: with_entry(v.labels, hash_key(), value), ..v })
            == fingerprint_of(v),
{
    let s = v.labels;
    let t = with_entry(s, hash_key(), value);
    if exists|i: int| 0 <= i < s.len() && (#[trigger] s[i]).0 == hash_key() {
        lemma_without_key_ignores_value(s, t, hash_key());
    } else {
        assert(t.drop_last() =~= s);
    }
    assert(without_key(t, hash_key()) == without_key(s, hash_key()));
}

/// Appends one field.
fn push_field(out: &mut String, s: &str)
    ensures
        final(out)@ == old(out)@ + field_text(s@),
{
    let ghost start = out@;
    let n: usize = s.unicode_len();
    push_decimal(out, n as u64);
    out.append(":");
    out.append(s);
    out.append("\n");
    assert(out@ =~= start + field_text(s@));
}

/// Appends a list of labels.
fn push_list(out: &mut String, labels: &Vec<Label>)
    ensures
        final(out)@ == old(out)@ + list_text(entries(labels@)),
{
    let ghost start = out@;
    push_decimal(out, labels.len() as u64);
    out.append("\n");
    let ghost head = out@;
    let mut i: usize = 0;
    assert(entries(labels@).take(0) =~= Seq::<Entry>::empty());
    assert(out@ =~= head + entries_text(entries(labels@).take(0)));
    while i < labels.len()
        invariant
            i <= labels.len(),
            out@ == head + entries_text(entries(labels@).take(i as int)),
        decreases labels.len() - i,
    {
        push_field(out, labels[i].key.as_str());
        push_field(out, labels[i].value.as_str());
        proof {
            let next = entries(labels@).take(i + 1);
            assert(next.drop_last() =~= entries(labels@).take(i as int));
            assert(next.last() == labels@[i as int]@);
            assert(out@ =~= head + entries_text(next));
        }
        i += 1;
    }
    assert(entries(labels@).take(i as int) =~= entries(labels@));
    assert(out@ =~= start + list_text(entries(labels@)));
}

/// A copy of a list of labels.
pub fn copy_labels(labels: &Vec<Label>) -> (r: Vec<Label>)
    ensures
        entries(r@) == entries(labels@),
{
    let mut r: Vec<Label> = Vec::new();
    let mut i: usize = 0;
    while i < labels.len()
        invariant
            i <= labels.len(),
            r@.len() == i,
            forall|k: int| 0 <= k < i ==> r@[k]@ == labels@[k]@,
        decreases labels.len() - i,
    {
        r.push(labels[i].duplicate());
        i += 1;
    }
    assert(entries(r@) =~= entries(labels@));
    r
}

/// The canonical text of a resource.
pub fn canonical_form(obj: &ResourceDescription) -> (r: String)
    requires
        unique_keys(obj@.labels),
        unique_keys(obj@.annotations),
    ensures
        r@ == canonical_text(obj@),
{
    let key = SkateLabels::Hash.to_string();
    let labels = canonical_labels(&obj.labels, &key);
    let annotations = sorted_labels(copy_labels(&obj.annotations));
    let mut r = String::new();
    push_field(&mut r, obj.name.as_str());
    push_field(&mut r, obj.namespace.as_str());
    push_list(&mut r, &labels);
    push_list(&mut r, &annotations);
    r.append(obj.payload.as_str());
    assert(r@ =~= canonical_text(obj@));
    r
}

/// The fingerprint of a resource. The resource is left as it is.
pub fn calc_k8s_resource_hash(obj: &ResourceDescription) -> (r: String)
    requires
        unique_keys(obj@.labels),
        unique_keys(obj@.annotations),
    ensures
        r@ == fingerprint_of(obj@),
        r@.len() == 16,
{
    let text = canonical_form(obj);
    let h: u64 = hash_text(text.as_str());
    let mut r = String::new();
    push_hex(&mut r, h, 16);
    proof {
        assert(r@ =~= hex_text(h as nat, 16));
        lemma_fingerprint_width(obj@);
    }
    r
}

/// Sets the value under a key in a list of labels.
pub fn set_entry(list: &mut Vec<Label>, key: &str, value: &str)
    requires
        unique_keys(entries(old(list)@)),
    ensures
        entries(final(list)@) == with_entry(entries(old(list)@), key@, value@),
        unique_keys(entries(final(list)@)),
{
    let ghost before = entries(list@);
    let wanted = String::from_str(key);
    let mut i: usize = 0;
    while i < list.len()
        invariant
            i <= list.len(),
            wanted@ == key@,
            entries(list@) == before,
            before == entries(old(list)@),
            unique_keys(before),
            forall|k: int| 0 <= k < i ==> (#[trigger] before[k]).0 != key@,
        decreases list.len() - i,
    {
        assert(before[i as int] == list@[i as int]@);
        if list[i].key == wanted {
            list.set(i, Label::new(key, value));
            proof {
                let j = choose|j: int| 0 <= j < before.len() && (#[trigger] before[j]).0 == key@;
                assert(j == i);
                let after = entries(list@);
                assert(after =~= before.update(i as int, (key@, value@)));
                assert forall|a: int, b: int|
                    0 <= a < after.len() && 0 <= b < after.len() && a != b implies after[a].0
                    != after[b].0 by {
                    assert(after[a].0 == before[a].0 && after[b].0 == before[b].0);
                }
            }
            return ;
        }
        i += 1;
    }
    list.push(Label::new(key, value));
    proof {
        let after = entries(list@);
        assert(after =~= before.push((key@, value@)));
        assert forall|a: int, b: int|
            0 <= a < after.len() && 0 <= b < after.len() && a != b implies after[a].0
            != after[b].0 by {
            if a < before.len() {
                assert(after[a] == before[a]);
            }
            if b < before.len() {
                assert(after[b] == before[b]);
            }
        }
    }
}

/// The name and namespace that a list of labels gives under the reserved
/// keys for them.
pub fn identity_of(labels: &Vec<Label>) -> (r: Result<NamespacedName, LabelError>)
    ensures
        match r {
            Ok(n) => lookup(entries(labels@), SkateLabels::Name.text()) == Some(n.name@) && lookup(
                entries(labels@),
                SkateLabels::Namespace.text(),
            ) == Some(n.namespace@),
            Err(e) => lookup(entries(labels@), SkateLabels::Name.text()) is None || lookup(
                entries(labels@),
                SkateLabels::Namespace.text(),
            ) is None,
        },
{
    let name = find_label(labels, &SkateLabels::Name.to_string());
    let namespace = find_label(labels, &SkateLabels::Namespace.to_string());
    match (name, namespace) {
        (Some(name), Some(namespace)) => Ok(NamespacedName { name, namespace }),
        _ => Err(LabelError::MissingIdentityLabels),
    }
}

/// What a resource says of itself in its reserved labels.
pub trait GetSkateLabels {
    fn namespaced_name(&self) -> Result<NamespacedName, LabelError>;

    fn hash(&self) -> String;
}

impl GetSkateLabels for ResourceDescription {
    /// The identity in the labels `skate.io/name` and `skate.io/namespace`;
    /// an error where either is missing.
    fn namespaced_name(&self) -> (r: Result<NamespacedName, LabelError>)
        ensures
            match r {
                Ok(n) => lookup(self@.labels, SkateLabels::Name.text()) == Some(n.name@) && lookup(
                    self@.labels,
                    SkateLabels::Namespace.text(),
                ) == Some(n.namespace@),
                Err(e) => lookup(self@.labels, SkateLabels::Name.text()) is None || lookup(
                    self@.labels,
                    SkateLabels::Namespace.text(),
                ) is None,
            },
    {
        identity_of(&self.labels)
    }

    /// The fingerprint that the resource carries, or the empty string.
    fn hash(&self) -> (r: String)
        ensures
            r@ == match lookup(self@.labels, hash_key()) {
                Some(h) => h,
                None => Seq::empty(),
            },
    {
        match find_label(&self.labels, &SkateLabels::Hash.to_string()) {
            Some(h) => h,
            None => String::new(),
        }
    }
}

/// The identity of a resource, from its reserved labels.
pub fn metadata_name(obj: &ResourceDescription) -> (r: Result<NamespacedName, LabelError>)
    ensures
        match r {
            Ok(n) => lookup(obj@.labels, SkateLabels::Name.text()) == Some(n.name@) && lookup(
                obj@.labels,
                SkateLabels::Namespace.text(),
            ) == Some(n.namespace@),
            Err(e) => lookup(obj@.labels, SkateLabels::Name.text()) is None || lookup(
                obj@.labels,
                SkateLabels::Namespace.text(),
            ) is None,
        },
{
    obj.namespaced_name()
}

impl ResourceDescription {
    /// No key occurs twice among the labels, nor among the annotations.
    pub open spec fn wf(&self) -> bool {
        unique_keys(self@.labels) && unique_keys(self@.annotations)
    }

    /// A resource without labels, annotations or generation.
    pub fn new(name: &str, namespace: &str, payload: &str) -> (r: ResourceDescription)
        ensures
            r.wf(),
            r@ == (ResourceText {
                name: name@,
                namespace: namespace@,
                labels: Seq::empty(),
                annotations: Seq::empty(),
                generation: None,
                payload: payload@,
            }),
    {
        let r = ResourceDescription {
            name: String::from_str(name),
            namespace: String::from_str(namespace),
            labels: Vec::new(),
            annotations: Vec::new(),
            generation: None,
            payload: String::from_str(payload),
        };
        assert(r@.labels =~= Seq::empty());
        assert(r@.annotations =~= Seq::empty());
        r
    }

    /// Sets a label, in place of the one under the same key if there is one.
    pub fn set_label(&mut self, key: &str, value: &str)
        requires
            old(self).wf(),
        ensures
            final(self).wf(),
            final(self)@ == (ResourceText {
                labels: with_entry(old(self)@.labels, key@, value@),
                ..old(self)@
            }),
    {
        set_entry(&mut self.labels, key, value);
    }

    /// Sets an annotation, in place of the one under the same key if there
    /// is one.
    pub fn set_annotation(&mut self, key: &str, value: &str)
        requires
            old(self).wf(),
        ensures
            final(self).wf(),
            final(self)@ == (ResourceText {
                annotations: with_entry(old(self)@.annotations, key@, value@),
                ..old(self)@
            }),
    {
        set_entry(&mut self.annotations, key, value);
    }
}

/// Computes the fingerprint of a resource and stores it in the resource's
/// labels under `skate.io/hash`. Nothing else changes, and the fingerprint of
/// the resource is afterwards what it was before.
pub fn hash_k8s_resource(obj: &mut ResourceDescription) -> (r: String)
    requires
        old(obj).wf(),
    ensures
        r@ == fingerprint_of(old(obj)@),
        final(obj).wf(),
        final(obj)@ == (ResourceText {
            labels: with_entry(old(obj)@.labels, hash_key(), r@),
            ..old(obj)@
        }),
        fingerprint_of(final(obj)@) == r@,
        lookup(final(obj)@.labels, hash_key()) == Some(r@),
{
    let hash = calc_k8s_resource_hash(obj);
    let key = SkateLabels::Hash.to_string();
    set_entry(&mut obj.labels, key.as_str(), hash.as_str());
    proof {
        lemma_stamp_keeps_fingerprint(old(obj)@, hash@);
        lemma_with_entry_lookup(old(obj)@.labels, hash_key(), hash@);
    }
    hash
}

} // verus!
