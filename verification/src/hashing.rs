//! Feeding values to the hasher, and the chunks of bytes that each leaves there.

use std::collections::hash_map::DefaultHasher;
use std::hash::Hasher;

use vstd::bytes::{spec_u32_to_le_bytes, spec_u64_to_le_bytes, u32_to_le_bytes, u64_to_le_bytes};
use vstd::prelude::*;
use vstd::utf8::encode_utf8;

verus! {

/// The byte that ends a string: it occurs in no UTF-8 text, so that no string is
/// the beginning of another.
pub const STRING_END: u8 = 0xff;

/// The chunks of a string.
pub open spec fn string_chunks(s: Seq<char>) -> Seq<Seq<u8>> {
    seq![encode_utf8(s), seq![STRING_END]]
}

/// The chunks of an optional value: a marker, then the value.
pub open spec fn option_chunks(payload: Option<Seq<u8>>) -> Seq<Seq<u8>> {
    match payload {
        None => seq![spec_u64_to_le_bytes(0)],
        Some(bytes) => seq![spec_u64_to_le_bytes(1), bytes],
    }
}

pub fn feed_u8(hasher: &mut DefaultHasher, value: u8)
    ensures
        final(hasher)@ == old(hasher)@.push(seq![value]),
{
    let bytes: Vec<u8> = vec![value];
    assert(bytes@ =~= seq![value]);
    hasher.write(bytes.as_slice());
}

pub fn feed_u32(hasher: &mut DefaultHasher, value: u32)
    ensures
        final(hasher)@ == old(hasher)@.push(spec_u32_to_le_bytes(value)),
{
    let bytes: Vec<u8> = u32_to_le_bytes(value);
    hasher.write(bytes.as_slice());
}

pub fn feed_u64(hasher: &mut DefaultHasher, value: u64)
    ensures
        final(hasher)@ == old(hasher)@.push(spec_u64_to_le_bytes(value)),
{
    let bytes: Vec<u8> = u64_to_le_bytes(value);
    hasher.write(bytes.as_slice());
}

pub fn feed_str(hasher: &mut DefaultHasher, value: &str)
    ensures
        final(hasher)@ == old(hasher)@ + string_chunks(value@),
{
    hasher.write(value.as_bytes());
    feed_u8(hasher, STRING_END);
    assert(hasher@ =~= old(hasher)@ + string_chunks(value@));
}

} // verus!
