//! The rolling hash behind the change-detection digest.
//!
//! The digest walks a fixed selection of snapshot fields in a fixed order
//! and folds every UTF-8 byte into a 64-bit accumulator with
//! `hash = hash * 33 XOR byte` (wrapping multiplication), seeded at 5381.
//! The hash is for change detection only; nothing here claims collision
//! resistance.

use vstd::prelude::*;
use vstd::string::StringSliceAdditionalSpecFns;

verus! {

/// The accumulator value before any byte has been fed.
pub const HASH_SEED: u64 = 5381;

/// One step of the rolling hash: multiply (wrapping) by 33, then fold in
/// one byte with XOR.
pub open spec fn hash_step(h: u64, b: u8) -> u64 {
    vstd::wrapping::u64_specs::wrapping_mul(h, 33) ^ (b as u64)
}

/// Folding a whole byte sequence into the accumulator, left to right.
pub open spec fn hash_bytes(h: u64, s: Seq<u8>) -> u64
    decreases s.len(),
{
    if s.len() == 0 {
        h
    } else {
        hash_bytes(hash_step(h, s[0]), s.drop_first())
    }
}

/// Folding a concatenation equals folding the parts in order.
pub proof fn lemma_hash_bytes_append(h: u64, a: Seq<u8>, b: Seq<u8>)
    ensures
        hash_bytes(h, a + b) == hash_bytes(hash_bytes(h, a), b),
    decreases a.len(),
{
    if a.len() == 0 {
        assert(a + b =~= b);
    } else {
        assert((a + b).drop_first() =~= a.drop_first() + b);
        lemma_hash_bytes_append(hash_step(h, a[0]), a.drop_first(), b);
    }
}

/// Folding one more byte at the end is one more step.
pub proof fn lemma_hash_bytes_push(h: u64, s: Seq<u8>, b: u8)
    ensures
        hash_bytes(h, s.push(b)) == hash_step(hash_bytes(h, s), b),
{
    assert(s.push(b) =~= s + seq![b]);
    lemma_hash_bytes_append(h, s, seq![b]);
    let hb = hash_bytes(h, s);
    assert(seq![b].len() == 1 && seq![b][0] == b);
    assert(seq![b].drop_first() =~= Seq::<u8>::empty());
    assert(hash_bytes(hb, seq![b]) == hash_bytes(hash_step(hb, b), Seq::<u8>::empty()));
}

/// Feed one string's UTF-8 bytes into the rolling digest hash.
pub fn hash_str(hash: &mut u64, value: &str)
    ensures
        *final(hash) == hash_bytes(*old(hash), value.spec_bytes()),
{
    let bytes = value.as_bytes();
    let n = bytes.len();
    let mut i: usize = 0;
    while i < n
        invariant
            n == bytes@.len(),
            bytes@ == value.spec_bytes(),
            i <= n,
            *hash == hash_bytes(*old(hash), bytes@.take(i as int)),
        decreases n - i,
    {
        proof {
            lemma_hash_bytes_push(*old(hash), bytes@.take(i as int), bytes@[i as int]);
            assert(bytes@.take(i as int).push(bytes@[i as int]) =~= bytes@.take(i + 1));
        }
        *hash = hash.wrapping_mul(33) ^ (bytes[i] as u64);
        i = i + 1;
    }
    proof {
        assert(bytes@.take(n as int) =~= bytes@);
    }
}

} // verus!
