//! A fast, non-cryptographic 64-bit hash of a text, written in hexadecimal.

use crate::slug::push_char;
use std::collections::hash_map::DefaultHasher;
use std::hash::Hasher;
use vstd::prelude::*;
use vstd::std_specs::hash::DefaultHasherAdditionalSpecFns;
use vstd::string::StringSliceAdditionalSpecFns;

verus! {

/// The hash of a text: that of its bytes, then the byte `0xff` that ends a
/// string, from a fresh `DefaultHasher`.
pub open spec fn text_hash(s: Seq<char>) -> u64 {
    DefaultHasher::spec_finish(seq![vstd::utf8::encode_utf8(s), seq![0xffu8]])
}

/// One hexadecimal digit, in lower case.
pub open spec fn hex_digit(d: int) -> char {
    if d < 10 {
        (48 + d) as char
    } else {
        (87 + d) as char
    }
}

/// A number in lowercase hexadecimal, filled up with zeros in front to at
/// least `width` digits, and with at least one digit.
pub open spec fn hex_text(n: nat, width: nat) -> Seq<char>
    decreases n, width,
{
    if n < 16 && width <= 1 {
        seq![hex_digit(n as int)]
    } else {
        hex_text(n / 16, if width > 0 {
            (width - 1) as nat
        } else {
            0
        }).push(hex_digit((n % 16) as int))
    }
}

/// What `hex_text` yields has exactly `width` digits where the number fits
/// into that many.
pub proof fn lemma_hex_width(n: nat, width: nat, bound: nat)
    requires
        width >= 1,
        bound >= 1,
        n < bound,
        bound == pow16(width),
    ensures
        hex_text(n, width).len() == width,
    decreases width,
{
    if width > 1 {
        assert(pow16(width) == 16 * pow16((width - 1) as nat));
        lemma_hex_width(n / 16, (width - 1) as nat, pow16((width - 1) as nat));
    } else {
        assert(pow16(1) == 16 * pow16(0));
    }
}

pub open spec fn pow16(e: nat) -> nat
    decreases e,
{
    if e == 0 {
        1
    } else {
        16 * pow16((e - 1) as nat)
    }
}

fn digit_char(d: u8) -> (c: char)
    requires
        d < 16,
    ensures
        c == hex_digit(d as int),
{
    if d < 10 {
        (48 + d) as char
    } else {
        (87 + d) as char
    }
}

/// Appends a number in hexadecimal to a string.
pub fn push_hex(out: &mut String, h: u64, width: usize)
    ensures
        final(out)@ == old(out)@ + hex_text(h as nat, width as nat),
    decreases h, width,
{
    let ghost start = out@;
    if h >= 16 || width > 1 {
        let rest: usize = if width > 0 {
            width - 1
        } else {
            0
        };
        push_hex(out, h / 16, rest);
    }
    let d: u8 = (h % 16) as u8;
    push_char(out, digit_char(d));
    proof {
        assert((h / 16) as nat == (h as nat) / 16);
        assert((h % 16) as nat == (h as nat) % 16);
        assert(out@ =~= start + hex_text(h as nat, width as nat));
    }
}

/// The hash of a text as a number.
pub fn hash_text(s: &str) -> (h: u64)
    ensures
        h == text_hash(s@),
{
    let end: [u8; 1] = [0xffu8];
    let mut hasher = DefaultHasher::new();
    hasher.write(s.as_bytes());
    hasher.write(end.as_slice());
    proof {
        assert(end@ =~= seq![0xffu8]);
        assert(hasher@ =~= seq![vstd::utf8::encode_utf8(s@), seq![0xffu8]]);
    }
    hasher.finish()
}

/// The hash of a text, in hexadecimal without leading zeros.
pub fn hash_string(obj: &str) -> (r: String)
    ensures
        r@ == hex_text(text_hash(obj@) as nat, 1),
{
    let h: u64 = hash_text(obj);
    let mut r = String::new();
    push_hex(&mut r, h, 1);
    assert(r@ =~= hex_text(h as nat, 1));
    r
}

} // verus!
