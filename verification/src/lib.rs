//! A linter for Lua source code.
pub mod ast;
pub mod cfg;
pub mod config;
pub mod errors;
pub mod lexer;
pub mod lints;
pub mod parser;
pub mod report;
pub mod scopes;
pub mod sema;

use vstd::prelude::*;

verus! {

/// The UTF-8 encoding of the ISO 8859-1 character `b`.
pub open spec fn latin1_char_utf8(b: u8) -> Seq<u8> {
    if b < 0x80u8 {
        seq![b]
    } else {
        seq![(0xC0u8 | (b >> 6u8)) as u8, (0x80u8 | (b & 0x3Fu8)) as u8]
    }
}

/// The UTF-8 encoding of the ISO 8859-1 text `bytes`.
pub open spec fn latin1_to_utf8(bytes: Seq<u8>) -> Seq<u8>
    decreases bytes.len(),
{
    if bytes.len() == 0 {
        Seq::empty()
    } else {
        latin1_to_utf8(bytes.drop_last()) + latin1_char_utf8(bytes.last())
    }
}

/// The UTF-8 encoding of an ISO 8859-1 character is valid UTF-8.
proof fn lemma_latin1_char_utf8_valid(b: u8)
    ensures
        vstd::utf8::valid_utf8(latin1_char_utf8(b)),
{
    let e = latin1_char_utf8(b);
    assert(vstd::utf8::valid_utf8(Seq::<u8>::empty()));
    if b < 0x80u8 {
        assert((b & 0x7Fu8) as u32 == b as u32) by (bit_vector)
            requires
                b < 0x80u8,
        ;
        assert(e =~= seq![b]);
        assert(vstd::utf8::valid_first_scalar(e));
        assert(vstd::utf8::pop_first_scalar(e) =~= Seq::<u8>::empty());
    } else {
        let b0 = (0xC0u8 | (b >> 6u8)) as u8;
        let b1 = (0x80u8 | (b & 0x3Fu8)) as u8;
        assert(0xc2u8 <= b0 <= 0xc3u8 && 0x80u8 <= b1 <= 0xbfu8) by (bit_vector)
            requires
                b >= 0x80u8,
                b0 == (0xC0u8 | (b >> 6u8)) as u8,
                b1 == (0x80u8 | (b & 0x3Fu8)) as u8,
        ;
        assert((((b0 & 0x1Fu8) as u32) << 6u32) | ((b1 & 0x3fu8) as u32) == b as u32) by (bit_vector)
            requires
                b0 == (0xC0u8 | (b >> 6u8)) as u8,
                b1 == (0x80u8 | (b & 0x3Fu8)) as u8,
        ;
        assert(e =~= seq![b0, b1]);
        assert(vstd::utf8::valid_first_scalar(e));
        assert(vstd::utf8::pop_first_scalar(e) =~= Seq::<u8>::empty());
    }
}

/// The UTF-8 encoding of any ISO 8859-1 text is valid UTF-8.
pub proof fn lemma_latin1_to_utf8_valid(bytes: Seq<u8>)
    ensures
        vstd::utf8::valid_utf8(latin1_to_utf8(bytes)),
    decreases bytes.len(),
{
    if bytes.len() > 0 {
        lemma_latin1_to_utf8_valid(bytes.drop_last());
        lemma_latin1_char_utf8_valid(bytes.last());
        vstd::utf8::valid_utf8_concat(latin1_to_utf8(bytes.drop_last()), latin1_char_utf8(bytes.last()));
    }
}

/// Whether `bytes` is valid UTF-8.
pub fn is_utf8(bytes: &[u8]) -> (r: bool)
    ensures
        r == vstd::utf8::valid_utf8(bytes@),
{
    let mut i: usize = 0;
    assert(bytes@.skip(0) =~= bytes@);
    while i < bytes.len()
        invariant
            i <= bytes@.len(),
            vstd::utf8::valid_utf8(bytes@) == vstd::utf8::valid_utf8(bytes@.skip(i as int)),
        decreases bytes@.len() - i,
    {
        match crate::lexer::decode_at(bytes, i) {
            Some((_, l)) => {
                assert(vstd::utf8::pop_first_scalar(bytes@.skip(i as int)) =~= bytes@.skip(i + l));
                i = i + l;
            },
            None => {
                return false;
            },
        }
    }
    assert(bytes@.skip(i as int).len() == 0);
    true
}

/// The text of a source file as UTF-8: the bytes themselves when they are valid UTF-8, else
/// the bytes read as ISO 8859-1.
pub fn decode_source(bytes: Vec<u8>) -> (r: Vec<u8>)
    ensures
        r@ == if vstd::utf8::valid_utf8(bytes@) {
            bytes@
        } else {
            latin1_to_utf8(bytes@)
        },
        vstd::utf8::valid_utf8(r@),
{
    proof {
        lemma_latin1_to_utf8_valid(bytes@);
    }
    if is_utf8(bytes.as_slice()) {
        return bytes;
    }
    let mut r: Vec<u8> = Vec::new();
    let mut i: usize = 0;
    while i < bytes.len()
        invariant
            i <= bytes@.len(),
            r@ == latin1_to_utf8(bytes@.take(i as int)),
        decreases bytes@.len() - i,
    {
        let b = bytes[i];
        if b < 0x80u8 {
            r.push(b);
        } else {
            r.push(0xC0u8 | (b >> 6u8));
            r.push(0x80u8 | (b & 0x3Fu8));
        }
        assert(bytes@.take(i + 1).drop_last() =~= bytes@.take(i as int));
        assert(r@ =~= latin1_to_utf8(bytes@.take(i + 1)));
        i = i + 1;
    }
    assert(bytes@.take(bytes@.len() as int) =~= bytes@);
    r
}

} // verus!
