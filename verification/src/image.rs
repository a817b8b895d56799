//! Container image references: the image and its tag or digest.

use crate::text::find_char;
use vstd::prelude::*;
use vstd::string::StrSliceExecFns;
use vstd::string::StringExecFns;

verus! {

/// How an image reference names a version of the image.
#[derive(Debug)]
pub enum ImageTagFormat {
    Bare,
    Digest(String),
    Tag(String),
}

/// The tag or digest as plain text.
pub enum TagText {
    Bare,
    Digest(Seq<char>),
    Tag(Seq<char>),
}

impl View for ImageTagFormat {
    type V = TagText;

    open spec fn view(&self) -> TagText {
        match self {
            ImageTagFormat::Bare => TagText::Bare,
            ImageTagFormat::Digest(d) => TagText::Digest(d@),
            ImageTagFormat::Tag(t) => TagText::Tag(t@),
        }
    }
}

/// What follows the image in a reference: nothing, `@` and the digest, or
/// `:` and the tag.
pub open spec fn suffix_of(t: TagText) -> Seq<char> {
    match t {
        TagText::Bare => Seq::empty(),
        TagText::Digest(d) => seq!['@'] + d,
        TagText::Tag(t) => seq![':'] + t,
    }
}

/// The two parts of an image reference: it is cut at its first `@`, else at
/// its first `:`, else not at all.
pub open spec fn split_image(s: Seq<char>) -> (Seq<char>, TagText) {
    match s.index_of_first('@') {
        Some(i) => (s.take(i), TagText::Digest(s.skip(i + 1))),
        None => match s.index_of_first(':') {
            Some(i) => (s.take(i), TagText::Tag(s.skip(i + 1))),
            None => (s, TagText::Bare),
        },
    }
}

impl ImageTagFormat {
    pub fn to_suffix(&self) -> (r: String)
        ensures
            r@ == suffix_of(self@),
    {
        proof {
            reveal_strlit("@");
            reveal_strlit(":");
            assert("@"@ =~= seq!['@']);
            assert(":"@ =~= seq![':']);
        }
        match self {
            ImageTagFormat::Bare => String::new(),
            ImageTagFormat::Digest(digest) => {
                let mut r = String::from_str("@");
                r.append(digest.as_str());
                r
            },
            ImageTagFormat::Tag(tag) => {
                let mut r = String::from_str(":");
                r.append(tag.as_str());
                r
            },
        }
    }
}

/// The text of a string before and behind one of its positions.
fn cut_at(s: &str, i: usize) -> (r: (String, String))
    requires
        i < s@.len(),
    ensures
        r.0@ == s@.take(i as int),
        r.1@ == s@.skip(i + 1),
{
    let n: usize = s.unicode_len();
    let head = s.substring_char(0, i);
    let tail = s.substring_char(i + 1, n);
    assert(s@.subrange(0, i as int) =~= s@.take(i as int));
    assert(s@.subrange(i + 1, n as int) =~= s@.skip(i + 1));
    (String::from_str(head), String::from_str(tail))
}

/// Splits a container image string into its base image and tag or digest.
pub fn split_container_image(image: &str) -> (r: (String, ImageTagFormat))
    ensures
        (r.0@, r.1@) == split_image(image@),
{
    proof {
        image@.index_of_first_ensures('@');
        image@.index_of_first_ensures(':');
    }
    match find_char(image, '@').0 {
        Some(i) => {
            let (head, tail) = cut_at(image, i);
            (head, ImageTagFormat::Digest(tail))
        },
        None => match find_char(image, ':').0 {
            Some(i) => {
                let (head, tail) = cut_at(image, i);
                (head, ImageTagFormat::Tag(tail))
            },
            None => (String::from_str(image), ImageTagFormat::Bare),
        },
    }
}

} // verus!
