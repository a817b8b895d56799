//! Labels of a resource, and the reserved label keys under `skate.io/`.

use vstd::prelude::*;
use vstd::string::StringExecFns;

verus! {

/// A label or annotation as plain text: its key and its value.
pub type Entry = (Seq<char>, Seq<char>);

/// One entry of a label or annotation map.
#[derive(Debug)]
pub struct Label {
    pub key: String,
    pub value: String,
}

impl View for Label {
    type V = Entry;

    open spec fn view(&self) -> Entry {
        (self.key@, self.value@)
    }
}

impl Label {
    pub fn new(key: &str, value: &str) -> (r: Label)
        ensures
            r@ == (key@, value@),
    {
        Label { key: String::from_str(key), value: String::from_str(value) }
    }

    pub fn duplicate(&self) -> (r: Label)
        ensures
            r@ == self@,
    {
        Label { key: self.key.clone(), value: self.value.clone() }
    }
}

/// The entries of a list of labels, as plain text.
pub open spec fn entries(s: Seq<Label>) -> Seq<Entry> {
    Seq::new(s.len(), |i: int| s[i]@)
}

/// No key occurs twice.
pub open spec fn unique_keys(s: Seq<Entry>) -> bool {
    forall|i: int, j: int| 0 <= i < s.len() && 0 <= j < s.len() && i != j ==> s[i].0 != s[j].0
}

/// The value stored under a key: that of the first entry with this key.
pub open spec fn lookup(s: Seq<Entry>, key: Seq<char>) -> Option<Seq<char>>
    decreases s.len(),
{
    if s.len() == 0 {
        None
    } else if s[0].0 == key {
        Some(s[0].1)
    } else {
        lookup(s.drop_first(), key)
    }
}

/// The value under a key in labels that may be absent.
pub open spec fn lookup_in(labels: Option<Vec<Label>>, key: Seq<char>) -> Option<Seq<char>> {
    match labels {
        Some(v) => lookup(entries(v@), key),
        None => None,
    }
}

pub open spec fn opt_text(r: Option<String>) -> Option<Seq<char>> {
    match r {
        Some(s) => Some(s@),
        None => None,
    }
}

/// A key is absent exactly when no entry carries it.
pub proof fn lemma_lookup_none(s: Seq<Entry>, key: Seq<char>)
    ensures
        lookup(s, key) is None <==> forall|i: int| 0 <= i < s.len() ==> (#[trigger] s[i]).0 != key,
    decreases s.len(),
{
    if s.len() > 0 {
        let rest = s.drop_first();
        lemma_lookup_none(rest, key);
        if s[0].0 != key {
            if lookup(rest, key) is None {
                assert forall|i: int| 0 <= i < s.len() implies (#[trigger] s[i]).0 != key by {
                    if i > 0 {
                        assert(s[i] == rest[i - 1]);
                    }
                }
            } else {
                let i = choose|i: int| 0 <= i < rest.len() && (#[trigger] rest[i]).0 == key;
                assert(s[i + 1] == rest[i]);
            }
        }
    }
}

/// The value under a key is that of the first entry that carries the key.
pub proof fn lemma_lookup_first(s: Seq<Entry>, key: Seq<char>, i: int)
    requires
        0 <= i < s.len(),
        s[i].0 == key,
        forall|j: int| 0 <= j < i ==> (#[trigger] s[j]).0 != key,
    ensures
        lookup(s, key) == Some(s[i].1),
    decreases i,
{
    if i > 0 {
        let rest = s.drop_first();
        assert(rest[i - 1] == s[i]);
        assert forall|j: int| 0 <= j < i - 1 implies (#[trigger] rest[j]).0 != key by {
            assert(rest[j] == s[j + 1]);
        }
        assert(s[0].0 != key);
        lemma_lookup_first(rest, key, i - 1);
    }
}

/// Looks a key up in a list of labels: `None` exactly where no label
/// carries the key.
pub fn find_label(labels: &Vec<Label>, key: &String) -> (r: Option<String>)
    ensures
        opt_text(r) == lookup(entries(labels@), key@),
        r is None <==> forall|i: int|
            0 <= i < labels@.len() ==> (#[trigger] entries(labels@)[i]).0 != key@,
{
    proof {
        lemma_lookup_none(entries(labels@), key@);
    }
    let mut i: usize = 0;
    assert(entries(labels@).skip(0) =~= entries(labels@));
    while i < labels.len()
        invariant
            i <= labels.len(),
            lookup(entries(labels@), key@) == lookup(entries(labels@).skip(i as int), key@),
        decreases labels.len() - i,
    {
        proof {
            let rest = entries(labels@).skip(i as int);
            assert(rest[0] == labels@[i as int]@);
            assert(rest.drop_first() =~= entries(labels@).skip(i + 1));
        }
        if labels[i].key == *key {
            return Some(labels[i].value.clone());
        }
        i += 1;
    }
    None
}

/// The value of the label with the given key, if the labels are present and
/// hold it.
pub fn get_label_value(labels: &Option<Vec<Label>>, key: &str) -> (r: Option<String>)
    ensures
        opt_text(r) == lookup_in(*labels, key@),
{
    match labels {
        Some(v) => {
            let k = String::from_str(key);
            find_label(v, &k)
        },
        None => None,
    }
}

/// The reserved label keys.
#[derive(Clone, Copy, Debug, PartialEq, Eq, Structural)]
pub enum SkateLabels {
    Name,
    Namespace,
    Hash,
    Replica,
    Arch,
    Daemonset,
    Deployment,
    Nodename,
    Hostname,
    Cronjob,
}

impl SkateLabels {
    /// The text of a reserved key: the prefix `skate.io/` and the key's name
    /// in lower case.
    pub open spec fn text(self) -> Seq<char> {
        match self {
            SkateLabels::Name => "skate.io/name"@,
            SkateLabels::Namespace => "skate.io/namespace"@,
            SkateLabels::Hash => "skate.io/hash"@,
            SkateLabels::Replica => "skate.io/replica"@,
            SkateLabels::Arch => "skate.io/arch"@,
            SkateLabels::Daemonset => "skate.io/daemonset"@,
            SkateLabels::Deployment => "skate.io/deployment"@,
            SkateLabels::Nodename => "skate.io/nodename"@,
            SkateLabels::Hostname => "skate.io/hostname"@,
            SkateLabels::Cronjob => "skate.io/cronjob"@,
        }
    }

    /// Every reserved key stands under the one reserved prefix.
    pub proof fn lemma_reserved_prefix(self)
        ensures
            self.text().len() > 9,
            self.text().take(9) == "skate.io/"@,
    {
        Self::reveal_texts();
        reveal_strlit("skate.io/");
        assert(self.text().take(9) =~= "skate.io/"@);
    }

    /// No two reserved keys have the same text.
    pub proof fn lemma_text_injective(self, other: SkateLabels)
        requires
            self.text() == other.text(),
        ensures
            self == other,
    {
        Self::reveal_texts();
        assert(self.text().len() == other.text().len());
        assert(self.text()[9] == other.text()[9]);
    }

    proof fn reveal_texts()
        ensures
            "skate.io/name"@.len() == 13 && "skate.io/name"@[9] == 'n',
            "skate.io/namespace"@.len() == 18 && "skate.io/namespace"@[9] == 'n',
            "skate.io/hash"@.len() == 13 && "skate.io/hash"@[9] == 'h',
            "skate.io/replica"@.len() == 16 && "skate.io/replica"@[9] == 'r',
            "skate.io/arch"@.len() == 13 && "skate.io/arch"@[9] == 'a',
            "skate.io/daemonset"@.len() == 18 && "skate.io/daemonset"@[9] == 'd',
            "skate.io/deployment"@.len() == 19 && "skate.io/deployment"@[9] == 'd',
            "skate.io/nodename"@.len() == 17 && "skate.io/nodename"@[9] == 'n',
            "skate.io/hostname"@.len() == 17 && "skate.io/hostname"@[9] == 'h',
            "skate.io/cronjob"@.len() == 16 && "skate.io/cronjob"@[9] == 'c',
            forall|l: SkateLabels|
                #![trigger l.text()]
                l.text().take(9) =~= seq!['s', 'k', 'a', 't', 'e', '.', 'i', 'o', '/'],
    {
        reveal_strlit("skate.io/name");
        reveal_strlit("skate.io/namespace");
        reveal_strlit("skate.io/hash");
        reveal_strlit("skate.io/replica");
        reveal_strlit("skate.io/arch");
        reveal_strlit("skate.io/daemonset");
        reveal_strlit("skate.io/deployment");
        reveal_strlit("skate.io/nodename");
        reveal_strlit("skate.io/hostname");
        reveal_strlit("skate.io/cronjob");
    }

    /// The key as a string.
    pub fn to_string(&self) -> (r: String)
        ensures
            r@ == self.text(),
    {
        match self {
            SkateLabels::Name => String::from_str("skate.io/name"),
            SkateLabels::Namespace => String::from_str("skate.io/namespace"),
            SkateLabels::Hash => String::from_str("skate.io/hash"),
            SkateLabels::Replica => String::from_str("skate.io/replica"),
            SkateLabels::Arch => String::from_str("skate.io/arch"),
            SkateLabels::Daemonset => String::from_str("skate.io/daemonset"),
            SkateLabels::Deployment => String::from_str("skate.io/deployment"),
            SkateLabels::Nodename => String::from_str("skate.io/nodename"),
            SkateLabels::Hostname => String::from_str("skate.io/hostname"),
            SkateLabels::Cronjob => String::from_str("skate.io/cronjob"),
        }
    }

    /// The reserved key with a given position in the enumeration.
    fn nth(i: usize) -> (r: SkateLabels)
        requires
            i < 10,
        ensures
            r == Self::all()[i as int],
    {
        if i == 0 {
            SkateLabels::Name
        } else if i == 1 {
            SkateLabels::Namespace
        } else if i == 2 {
            SkateLabels::Hash
        } else if i == 3 {
            SkateLabels::Replica
        } else if i == 4 {
            SkateLabels::Arch
        } else if i == 5 {
            SkateLabels::Daemonset
        } else if i == 6 {
            SkateLabels::Deployment
        } else if i == 7 {
            SkateLabels::Nodename
        } else if i == 8 {
            SkateLabels::Hostname
        } else {
            SkateLabels::Cronjob
        }
    }

    /// Every reserved key, in the order of the enumeration.
    pub open spec fn all() -> Seq<SkateLabels> {
        seq![
            SkateLabels::Name,
            SkateLabels::Namespace,
            SkateLabels::Hash,
            SkateLabels::Replica,
            SkateLabels::Arch,
            SkateLabels::Daemonset,
            SkateLabels::Deployment,
            SkateLabels::Nodename,
            SkateLabels::Hostname,
            SkateLabels::Cronjob,
        ]
    }

    /// Reads a reserved key back from its text: `Some` exactly for the texts
    /// that `to_string` produces.
    pub fn parse(s: &str) -> (r: Option<SkateLabels>)
        ensures
            match r {
                Some(l) => l.text() == s@,
                None => forall|l: SkateLabels| l.text() != s@,
            },
    {
        let wanted = String::from_str(s);
        let mut i: usize = 0;
        while i < 10
            invariant
                i <= 10,
                wanted@ == s@,
                forall|k: int| 0 <= k < i ==> (#[trigger] Self::all()[k]).text() != s@,
            decreases 10 - i,
        {
            let l = Self::nth(i);
            if l.to_string() == wanted {
                return Some(l);
            }
            i += 1;
        }
        proof {
            assert forall|l: SkateLabels| l.text() != s@ by {
                let ghost all = Self::all();
                assert(l == all[0] || l == all[1] || l == all[2] || l == all[3] || l == all[4]
                    || l == all[5] || l == all[6] || l == all[7] || l == all[8] || l == all[9]);
            }
        }
        None
    }
}

/// The value of a reserved label, if the labels are present and hold it.
pub fn get_skate_label_value(labels: &Option<Vec<Label>>, key: &SkateLabels) -> (r: Option<
    String,
>)
    ensures
        opt_text(r) == lookup_in(*labels, key.text()),
{
    match labels {
        Some(v) => {
            let k = key.to_string();
            find_label(v, &k)
        },
        None => None,
    }
}

/// Whether no key occurs twice in a list of labels.
pub fn unique_label_keys(labels: &Vec<Label>) -> (r: bool)
    ensures
        r == unique_keys(entries(labels@)),
{
    let mut i: usize = 0;
    while i < labels.len()
        invariant
            i <= labels.len(),
            forall|a: int, b: int|
                0 <= a < i && 0 <= b < labels.len() && a != b ==> entries(labels@)[a].0
                    != entries(labels@)[b].0,
        decreases labels.len() - i,
    {
        let mut j: usize = i + 1;
        while j < labels.len()
            invariant
                i < j <= labels.len(),
                forall|b: int| i < b < j ==> entries(labels@)[i as int].0 != entries(labels@)[b].0,
            decreases labels.len() - j,
        {
            if labels[i].key == labels[j].key {
                assert(entries(labels@)[i as int].0 == entries(labels@)[j as int].0);
                return false;
            }
            j += 1;
        }
        i += 1;
    }
    true
}

} // verus!
