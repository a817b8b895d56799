//! The slug encoder: free text to a lowercase identifier fragment made of
//! letters, digits and single dashes.

use vstd::prelude::*;
use vstd::std_specs::iter::IteratorSpec;

verus! {

/// The separator byte, `-`.
pub const DASH: u8 = 45u8;

/// What `deunicode::deunicode_char` returns for a character: the bytes of its
/// ASCII stand-in, or `None` where the table has no entry for it.
pub uninterp spec fn transliteration(c: char) -> Option<Seq<u8>>;

/// Calls `deunicode::deunicode_char`, a lookup in a fixed table, and copies
/// the bytes of the string it returns. The contract only names that result.
#[verifier::external_body]
fn transliterate(c: char) -> (r: Option<Vec<u8>>)
    ensures
        transliteration(c) == (match r {
            Some(v) => Some(v@),
            None => None::<Seq<u8>>,
        }),
{
    deunicode::deunicode_char(c).map(|s| s.as_bytes().to_vec())
}

/// Calls `String::push`, which appends one character to the string.
#[verifier::external_body]
pub(crate) fn push_char(s: &mut String, c: char)
    ensures
        final(s)@ == old(s)@.push(c),
{
    s.push(c)
}

pub open spec fn is_lower_or_digit(b: u8) -> bool {
    (0x61 <= b <= 0x7a) || (0x30 <= b <= 0x39)
}

pub open spec fn is_upper(b: u8) -> bool {
    0x41 <= b <= 0x5a
}

/// The output after one more byte is fed to it: a letter or digit is appended
/// in lower case, anything else appends one dash unless the output is empty or
/// already ends in one.
pub open spec fn feed(out: Seq<u8>, b: u8) -> Seq<u8> {
    if is_lower_or_digit(b) {
        out.push(b)
    } else if is_upper(b) {
        out.push((b + 32) as u8)
    } else if out.len() == 0 || out.last() == DASH {
        out
    } else {
        out.push(DASH)
    }
}

pub open spec fn feed_all(out: Seq<u8>, bytes: Seq<u8>) -> Seq<u8>
    decreases bytes.len(),
{
    if bytes.len() == 0 {
        out
    } else {
        feed(feed_all(out, bytes.drop_last()), bytes.last())
    }
}

/// The bytes that one character of the input feeds: itself where it is ASCII,
/// else its transliteration, else a single separator.
pub open spec fn char_bytes(c: char) -> Seq<u8> {
    if (c as u32) < 128 {
        seq![c as u8]
    } else {
        match transliteration(c) {
            Some(t) => t,
            None => seq![DASH],
        }
    }
}

/// The output before the trailing dash is removed.
pub open spec fn raw_slug(s: Seq<char>) -> Seq<u8>
    decreases s.len(),
{
    if s.len() == 0 {
        Seq::empty()
    } else {
        feed_all(raw_slug(s.drop_last()), char_bytes(s.last()))
    }
}

pub open spec fn trim_dash(out: Seq<u8>) -> Seq<u8> {
    if out.len() > 0 && out.last() == DASH {
        out.drop_last()
    } else {
        out
    }
}

pub open spec fn slug_bytes(s: Seq<char>) -> Seq<u8> {
    trim_dash(raw_slug(s))
}

pub open spec fn ascii_chars(b: Seq<u8>) -> Seq<char> {
    Seq::new(b.len(), |i: int| b[i] as char)
}

/// The slug of a text.
pub open spec fn slug_of(s: Seq<char>) -> Seq<char> {
    ascii_chars(slug_bytes(s))
}

pub open spec fn is_slug_char(c: char) -> bool {
    ('a' <= c <= 'z') || ('0' <= c <= '9')
}

/// A text is a slug when it is empty, or is runs of lowercase letters and
/// digits joined by single dashes: no dash at either end, no two in a row.
pub open spec fn is_slug(t: Seq<char>) -> bool {
    &&& forall|i: int| 0 <= i < t.len() ==> is_slug_char(#[trigger] t[i]) || t[i] == '-'
    &&& t.len() > 0 ==> t[0] != '-' && t.last() != '-'
    &&& forall|i: int| 0 <= i < t.len() - 1 ==> !(#[trigger] t[i] == '-' && t[i + 1] == '-')
}

/// What holds of the output at every step: only slug bytes, no dash in front,
/// no two dashes in a row. A dash at the end is still possible.
pub open spec fn is_partial_slug(b: Seq<u8>) -> bool {
    &&& forall|i: int| 0 <= i < b.len() ==> is_lower_or_digit(#[trigger] b[i]) || b[i] == DASH
    &&& b.len() > 0 ==> b[0] != DASH
    &&& forall|i: int| 0 <= i < b.len() - 1 ==> !(#[trigger] b[i] == DASH && b[i + 1] == DASH)
}

proof fn lemma_feed_partial(out: Seq<u8>, b: u8)
    requires
        is_partial_slug(out),
    ensures
        is_partial_slug(feed(out, b)),
{
}

proof fn lemma_feed_all_partial(out: Seq<u8>, bytes: Seq<u8>)
    requires
        is_partial_slug(out),
    ensures
        is_partial_slug(feed_all(out, bytes)),
    decreases bytes.len(),
{
    if bytes.len() > 0 {
        lemma_feed_all_partial(out, bytes.drop_last());
        lemma_feed_partial(feed_all(out, bytes.drop_last()), bytes.last());
    }
}

proof fn lemma_raw_partial(s: Seq<char>)
    ensures
        is_partial_slug(raw_slug(s)),
    decreases s.len(),
{
    if s.len() > 0 {
        lemma_raw_partial(s.drop_last());
        lemma_feed_all_partial(raw_slug(s.drop_last()), char_bytes(s.last()));
    }
}

proof fn lemma_feed_one(out: Seq<u8>, b: u8)
    ensures
        feed_all(out, seq![b]) == feed(out, b),
{
    let one = seq![b];
    assert(one.drop_last() =~= Seq::<u8>::empty());
    assert(feed_all(out, one.drop_last()) == out);
    assert(one.last() == b);
}

/// Feeding the characters of a partial slug to the encoder gives back its bytes.
proof fn lemma_raw_fixpoint(b: Seq<u8>)
    requires
        is_partial_slug(b),
    ensures
        raw_slug(ascii_chars(b)) == b,
    decreases b.len(),
{
    let t = ascii_chars(b);
    if b.len() > 0 {
        let front = b.drop_last();
        let x = b.last();
        assert(is_partial_slug(front));
        lemma_raw_fixpoint(front);
        assert(t.drop_last() =~= ascii_chars(front));
        assert(t.last() == x as char);
        assert(x < 128);
        assert(char_bytes(t.last()) =~= seq![x]);
        lemma_feed_one(front, x);
        if x == DASH {
            assert(b[0] != DASH);
            assert(front.len() > 0);
            assert(!(b[b.len() - 2] == DASH && b[b.len() - 2 + 1] == DASH));
            assert(front.last() != DASH);
        }
        assert(feed(front, x) =~= b);
    } else {
        assert(t.len() == 0);
    }
}

/// Shape: the slug of any text is empty, or is runs of lowercase letters and
/// digits joined by single dashes.
pub proof fn lemma_slug_shape(x: Seq<char>)
    ensures
        is_slug(slug_of(x)),
        is_partial_slug(slug_bytes(x)),
        slug_bytes(x).len() > 0 ==> slug_bytes(x).last() != DASH,
{
    lemma_raw_partial(x);
    let raw = raw_slug(x);
    let b = slug_bytes(x);
    if raw.len() > 0 && raw.last() == DASH {
        assert(raw[0] != DASH);
        assert(!(raw[raw.len() - 2] == DASH && raw[raw.len() - 2 + 1] == DASH));
    }
    let t = slug_of(x);
    assert forall|i: int| 0 <= i < t.len() implies is_slug_char(#[trigger] t[i]) || t[i] == '-' by {
        assert(is_lower_or_digit(b[i]) || b[i] == DASH);
    }
    assert forall|i: int| 0 <= i < t.len() - 1 implies !(#[trigger] t[i] == '-' && t[i + 1]
        == '-') by {
        assert(!(b[i] == DASH && b[i + 1] == DASH));
    }
}

/// Idempotence: the slug of a slug is that slug.
pub proof fn lemma_slug_idempotent(x: Seq<char>)
    ensures
        slug_of(slug_of(x)) == slug_of(x),
{
    lemma_slug_shape(x);
    lemma_raw_fixpoint(slug_bytes(x));
}

/// Feeds one byte to the output.
pub fn push_byte(out: &mut Vec<u8>, b: u8)
    ensures
        final(out)@ == feed(old(out)@, b),
{
    if (0x61 <= b && b <= 0x7a) || (0x30 <= b && b <= 0x39) {
        out.push(b);
    } else if 0x41 <= b && b <= 0x5a {
        out.push(b + 32);
    } else {
        let n: usize = out.len();
        if n > 0 && out[n - 1] != DASH {
            out.push(DASH);
        }
    }
}

/// Feeds a run of bytes to the output, in order.
pub fn push_bytes(out: &mut Vec<u8>, bytes: &Vec<u8>)
    ensures
        final(out)@ == feed_all(old(out)@, bytes@),
{
    let mut j: usize = 0;
    while j < bytes.len()
        invariant
            j <= bytes.len(),
            out@ == feed_all(old(out)@, bytes@.take(j as int)),
        decreases bytes.len() - j,
    {
        push_byte(out, bytes[j]);
        proof {
            let next = bytes@.take(j + 1);
            assert(next.drop_last() =~= bytes@.take(j as int));
            assert(next.last() == bytes@[j as int]);
        }
        j += 1;
    }
    proof {
        assert(bytes@.take(j as int) =~= bytes@);
    }
}

/// Turns a text into its slug. The result has the shape of a slug, and
/// encoding it again changes nothing.
pub fn slugify(s: &str) -> (r: String)
    ensures
        r@ == slug_of(s@),
        is_slug(r@),
        slug_of(r@) == r@,
{
    broadcast use vstd::string::axiom_spec_iter;
    broadcast use vstd::string::next_postcondition;

    let mut out: Vec<u8> = Vec::new();
    let mut it = s.chars();
    let ghost mut done: Seq<char> = Seq::empty();
    assert(done + it.remaining() =~= s@);
    loop
        invariant
            it.obeys_prophetic_iter_laws(),
            done + it.remaining() == s@,
            out@ == raw_slug(done),
            it.decrease() is Some,
        ensures
            out@ == raw_slug(s@),
        decreases it.decrease()->0,
    {
        let ghost before = it.remaining();
        match it.next() {
            Some(c) => {
                if (c as u32) < 128 {
                    push_byte(&mut out, c as u8);
                    proof {
                        lemma_feed_one(raw_slug(done), c as u8);
                    }
                } else {
                    match transliterate(c) {
                        Some(t) => {
                            push_bytes(&mut out, &t);
                        },
                        None => {
                            push_byte(&mut out, DASH);
                            proof {
                                lemma_feed_one(raw_slug(done), DASH);
                            }
                        },
                    }
                }
                proof {
                    let next = done.push(c);
                    assert(next.drop_last() =~= done);
                    assert(next.last() == c);
                    assert(next + before.drop_first() =~= done + before);
                    done = next;
                }
            },
            None => {
                proof {
                    assert(done =~= s@);
                }
                break ;
            },
        }
    }
    let mut n: usize = out.len();
    if n > 0 && out[n - 1] == DASH {
        n = n - 1;
    }
    let mut r = String::new();
    let mut i: usize = 0;
    while i < n
        invariant
            i <= n <= out.len(),
            r@.len() == i,
            forall|k: int| 0 <= k < i ==> r@[k] == out@[k] as char,
        decreases n - i,
    {
        push_char(&mut r, out[i] as char);
        i += 1;
    }
    proof {
        assert(slug_bytes(s@).len() == n);
        assert(r@ =~= slug_of(s@));
        lemma_slug_shape(s@);
        lemma_slug_idempotent(s@);
    }
    r
}

/// `slugify` for a caller that hands over the text.
pub fn slugify_owned(s: String) -> (r: String)
    ensures
        r@ == slug_of(s@),
        is_slug(r@),
        slug_of(r@) == r@,
{
    slugify(s.as_str())
}

} // verus!
