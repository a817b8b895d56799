//! A name together with its namespace, written `name.namespace`.

use crate::text::find_char;
use vstd::prelude::*;
use vstd::string::StrSliceExecFns;
use vstd::string::StringExecFns;

verus! {

#[derive(Debug)]
pub struct NamespacedName {
    pub name: String,
    pub namespace: String,
}

/// The name in a text: what stands before its first dot, or all of it where
/// it has none.
pub open spec fn name_part(s: Seq<char>) -> Seq<char> {
    match s.index_of_first('.') {
        Some(i) => s.take(i),
        None => s,
    }
}

/// The namespace in a text: what stands behind its last dot, or nothing where
/// it has none.
pub open spec fn namespace_part(s: Seq<char>) -> Seq<char> {
    match s.index_of_last('.') {
        Some(j) => s.skip(j + 1),
        None => Seq::empty(),
    }
}

/// The text of a name and a namespace: the two joined by a dot.
pub open spec fn joined(name: Seq<char>, namespace: Seq<char>) -> Seq<char> {
    name + seq!['.'] + namespace
}

impl NamespacedName {
    pub fn new(name: &str, namespace: &str) -> (r: NamespacedName)
        ensures
            r.name@ == name@,
            r.namespace@ == namespace@,
    {
        NamespacedName { name: String::from_str(name), namespace: String::from_str(namespace) }
    }

    /// Reads `name.namespace`. A text without a dot is a name with an empty
    /// namespace.
    pub fn from(s: &str) -> (r: NamespacedName)
        ensures
            r.name@ == name_part(s@),
            r.namespace@ == namespace_part(s@),
    {
        let n: usize = s.unicode_len();
        let (first, last) = find_char(s, '.');
        proof {
            s@.index_of_first_ensures('.');
            s@.index_of_last_ensures('.');
        }
        match (first, last) {
            (Some(i), Some(j)) => {
                let name = s.substring_char(0, i);
                let namespace = s.substring_char(j + 1, n);
                assert(s@.subrange(0, i as int) =~= s@.take(i as int));
                assert(s@.subrange(j + 1, n as int) =~= s@.skip(j + 1));
                NamespacedName {
                    name: String::from_str(name),
                    namespace: String::from_str(namespace),
                }
            },
            _ => NamespacedName { name: String::from_str(s), namespace: String::new() },
        }
    }

    /// Writes `name.namespace`.
    pub fn to_string(&self) -> (r: String)
        ensures
            r@ == joined(self.name@, self.namespace@),
    {
        proof {
            reveal_strlit(".");
            assert("."@ =~= seq!['.']);
        }
        let mut r = self.name.clone();
        r.append(".");
        r.append(self.namespace.as_str());
        r
    }
}

/// A name and a namespace without a dot in either come back from their text.
pub proof fn lemma_round_trip(name: Seq<char>, namespace: Seq<char>)
    requires
        !name.contains('.'),
        !namespace.contains('.'),
    ensures
        name_part(joined(name, namespace)) == name,
        namespace_part(joined(name, namespace)) == namespace,
{
    let s = joined(name, namespace);
    let i = name.len() as int;
    assert(s[i] == '.');
    assert forall|k: int| 0 <= k < i implies s[k] != '.' by {
        assert(s[k] == name[k]);
        assert(name.contains(name[k]));
    }
    assert forall|k: int| i < k < s.len() implies s[k] != '.' by {
        assert(s[k] == namespace[k - i - 1]);
        assert(namespace.contains(namespace[k - i - 1]));
    }
    crate::text::lemma_is_first(s, '.', i);
    crate::text::lemma_is_last(s, '.', i);
    assert(s.take(i) =~= name);
    assert(s.skip(i + 1) =~= namespace);
}

} // verus!
