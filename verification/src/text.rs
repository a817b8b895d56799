//! Searching a string for a character.

use vstd::prelude::*;
use vstd::std_specs::iter::IteratorSpec;

verus! {

pub open spec fn opt_index(r: Option<usize>) -> Option<int> {
    match r {
        Some(i) => Some(i as int),
        None => None,
    }
}

/// An index that holds the needle, with none before it, is the first one.
pub proof fn lemma_is_first(s: Seq<char>, c: char, i: int)
    requires
        0 <= i < s.len(),
        s[i] == c,
        forall|k: int| 0 <= k < i ==> s[k] != c,
    ensures
        s.index_of_first(c) == Some(i),
{
    s.index_of_first_ensures(c);
    assert(s.contains(c));
}

/// An index that holds the needle, with none after it, is the last one.
pub proof fn lemma_is_last(s: Seq<char>, c: char, i: int)
    requires
        0 <= i < s.len(),
        s[i] == c,
        forall|k: int| i < k < s.len() ==> s[k] != c,
    ensures
        s.index_of_last(c) == Some(i),
{
    s.index_of_last_ensures(c);
    assert(s.contains(c));
}

pub proof fn lemma_is_absent(s: Seq<char>, c: char)
    requires
        forall|k: int| 0 <= k < s.len() ==> s[k] != c,
    ensures
        s.index_of_first(c) is None,
        s.index_of_last(c) is None,
{
    s.index_of_first_ensures(c);
    s.index_of_last_ensures(c);
}

/// The positions, counted in characters, of the first and the last
/// occurrence of a character in a string.
pub fn find_char(s: &str, c: char) -> (r: (Option<usize>, Option<usize>))
    ensures
        opt_index(r.0) == s@.index_of_first(c),
        opt_index(r.1) == s@.index_of_last(c),
{
    broadcast use vstd::string::axiom_spec_iter;
    broadcast use vstd::string::next_postcondition;

    let n: usize = s.unicode_len();
    let mut first: Option<usize> = None;
    let mut last: Option<usize> = None;
    let mut pos: usize = 0;
    let mut it = s.chars();
    let ghost mut done: Seq<char> = Seq::empty();
    assert(done + it.remaining() =~= s@);
    loop
        invariant
            it.obeys_prophetic_iter_laws(),
            it.decrease() is Some,
            done + it.remaining() == s@,
            pos == done.len(),
            n == s@.len(),
            first is Some <==> last is Some,
            first is None ==> forall|k: int| 0 <= k < pos ==> s@[k] != c,
            first matches Some(f) ==> f < pos && s@[f as int] == c && forall|k: int|
                0 <= k < f ==> s@[k] != c,
            last matches Some(l) ==> l < pos && s@[l as int] == c && forall|k: int|
                l < k < pos ==> s@[k] != c,
        ensures
            pos == n,
            first is Some <==> last is Some,
            first is None ==> forall|k: int| 0 <= k < n ==> s@[k] != c,
            first matches Some(f) ==> f < n && s@[f as int] == c && forall|k: int|
                0 <= k < f ==> s@[k] != c,
            last matches Some(l) ==> l < n && s@[l as int] == c && forall|k: int|
                l < k < n ==> s@[k] != c,
        decreases it.decrease()->0,
    {
        let ghost before = it.remaining();
        match it.next() {
            Some(x) => {
                proof {
                    let next = done.push(x);
                    assert(next + before.drop_first() =~= done + before);
                    assert(s@[pos as int] == (done + before)[pos as int]);
                    assert(s@[pos as int] == x);
                    done = next;
                }
                if x == c {
                    if first.is_none() {
                        first = Some(pos);
                    }
                    last = Some(pos);
                }
                pos = pos + 1;
            },
            None => {
                proof {
                    assert(done =~= s@);
                }
                break ;
            },
        }
    }
    proof {
        match first {
            Some(f) => {
                lemma_is_first(s@, c, f as int);
                lemma_is_last(s@, c, last.unwrap() as int);
            },
            None => {
                lemma_is_absent(s@, c);
            },
        }
    }
    (first, last)
}

} // verus!
