//! Derivation of per-feature seeds from a base seed.
use std::collections::hash_map::DefaultHasher;
use std::hash::Hasher;
use vstd::bytes::{spec_u64_to_le_bytes, u64_to_le_bytes};
use vstd::prelude::*;
use vstd::std_specs::hash::DefaultHasherAdditionalSpecFns;

verus! {

/// The writes that hashing `words` in order makes: each word as its eight
/// little-endian bytes, as `u64::hash` writes them on a little-endian machine.
pub open spec fn seed_writes(words: Seq<u64>) -> Seq<Seq<u8>> {
    words.map_values(|w: u64| spec_u64_to_le_bytes(w))
}

/// The seed derived from `base` and `extra`: the standard hasher's digest of
/// `base` followed by every word of `extra`, in order.
pub open spec fn derived_seed(base: u64, extra: Seq<u64>) -> u64 {
    DefaultHasher::spec_finish(seed_writes(seq![base] + extra))
}

/// Combines `base_seed` with `additional_data` into one seed. Equal inputs
/// give equal seeds; the order of `additional_data` matters.
pub fn generate_seed(base_seed: u64, additional_data: Vec<u64>) -> (r: u64)
    ensures
        r == derived_seed(base_seed, additional_data@),
{
    let mut s = DefaultHasher::new();
    let first = u64_to_le_bytes(base_seed);
    s.write(first.as_slice());
    let ghost words = seq![base_seed] + additional_data@;
    let mut i: usize = 0;
    while i < additional_data.len()
        invariant
            i <= additional_data@.len(),
            words == seq![base_seed] + additional_data@,
            s@ == seed_writes(words.take(i + 1)),
        decreases additional_data@.len() - i,
    {
        let bytes = u64_to_le_bytes(additional_data[i]);
        s.write(bytes.as_slice());
        assert(words.take(i + 2) == words.take(i + 1).push(words[i + 1]));
        i = i + 1;
    }
    assert(words.take(i + 1) == words);
    s.finish()
}

} // verus!
