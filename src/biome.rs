//! Biomes, their block kinds, and where one biome gives way to the next.
use crate::block::BlockType;
use crate::random::{generate_random_values, random_values};
use crate::seed::{derived_seed, generate_seed};
use vstd::prelude::*;

verus! {

/// A named rock style that decides the primary and ore block kinds of a
/// depth range.
#[derive(Clone, Copy, Debug, PartialEq, Eq, Structural)]
pub enum BiomeType {
    Sand,
    Sedimentary,
    Basalt,
    Felsic,
    Mafic,
    Ultramafic,
}

/// The number of biomes.
pub const BIOME_COUNT: usize = 6;

/// A chunk changes biome when its draw from `0..BIOME_CHANGE_ODDS` names a
/// biome, that is when it is below `BIOME_COUNT`.
pub const BIOME_CHANGE_ODDS: usize = 24;

/// The word that, after the chunk number, derives the seed of a chunk's biome
/// decision.
pub const BIOME_CHANGE_TAG: u64 = 777;

pub open spec fn spec_primary_block(b: BiomeType) -> BlockType {
    match b {
        BiomeType::Sand => BlockType::Sand,
        BiomeType::Sedimentary => BlockType::Limestone,
        BiomeType::Basalt => BlockType::Basalt,
        BiomeType::Felsic => BlockType::Granite,
        BiomeType::Mafic => BlockType::Diabase,
        BiomeType::Ultramafic => BlockType::Gabbro,
    }
}

pub open spec fn spec_ore_block(b: BiomeType) -> BlockType {
    match b {
        BiomeType::Sand => BlockType::Clay,
        BiomeType::Sedimentary => BlockType::Coal,
        BiomeType::Basalt => BlockType::Iron,
        BiomeType::Felsic => BlockType::Quartz,
        BiomeType::Mafic => BlockType::Labradorite,
        BiomeType::Ultramafic => BlockType::Peridot,
    }
}

/// The biome at position `i` of the declaration order.
pub open spec fn spec_biome_at(i: int) -> BiomeType {
    if i == 0 {
        BiomeType::Sand
    } else if i == 1 {
        BiomeType::Sedimentary
    } else if i == 2 {
        BiomeType::Basalt
    } else if i == 3 {
        BiomeType::Felsic
    } else if i == 4 {
        BiomeType::Mafic
    } else {
        BiomeType::Ultramafic
    }
}

impl BiomeType {
    /// The block kind that makes up most of this biome.
    pub fn primary_block(&self) -> (r: BlockType)
        ensures
            r == spec_primary_block(*self),
    {
        match self {
            Self::Sand => BlockType::Sand,
            Self::Sedimentary => BlockType::Limestone,
            Self::Basalt => BlockType::Basalt,
            Self::Felsic => BlockType::Granite,
            Self::Mafic => BlockType::Diabase,
            Self::Ultramafic => BlockType::Gabbro,
        }
    }

    /// The block kind of this biome's ore veins.
    pub fn ore_block(&self) -> (r: BlockType)
        ensures
            r == spec_ore_block(*self),
    {
        match self {
            Self::Sand => BlockType::Clay,
            Self::Sedimentary => BlockType::Coal,
            Self::Basalt => BlockType::Iron,
            Self::Felsic => BlockType::Quartz,
            Self::Mafic => BlockType::Labradorite,
            Self::Ultramafic => BlockType::Peridot,
        }
    }

    /// The biome at position `i` of the declaration order.
    pub fn from_index(i: usize) -> (r: BiomeType)
        requires
            i < BIOME_COUNT,
        ensures
            r == spec_biome_at(i as int),
    {
        match i {
            0 => BiomeType::Sand,
            1 => BiomeType::Sedimentary,
            2 => BiomeType::Basalt,
            3 => BiomeType::Felsic,
            4 => BiomeType::Mafic,
            _ => BiomeType::Ultramafic,
        }
    }
}

/// No two biomes share a primary block kind, no two share an ore block kind,
/// and no biome's primary kind is another biome's ore kind.
pub proof fn lemma_biome_blocks_distinct(a: BiomeType, b: BiomeType)
    ensures
        spec_primary_block(a) == spec_primary_block(b) ==> a == b,
        spec_ore_block(a) == spec_ore_block(b) ==> a == b,
        spec_primary_block(a) != spec_ore_block(b),
{
}

/// The biome that chunk `depth` changes to, or `None` where it keeps the
/// biome above it.
pub open spec fn spec_biome_change(seed: u64, depth: u64) -> Option<BiomeType> {
    let draw = random_values(
        derived_seed(seed, seq![depth, BIOME_CHANGE_TAG]),
        1,
        0,
        BIOME_CHANGE_ODDS as int,
    )[0];
    if 0 <= draw < BIOME_COUNT {
        Some(spec_biome_at(draw as int))
    } else {
        None
    }
}

/// The biome in force at the bottom of chunk `depth`: that of the deepest
/// change at or above it, and sand where there is none.
pub open spec fn spec_biome_through(seed: u64, depth: nat) -> BiomeType
    decreases depth,
{
    match spec_biome_change(seed, depth as u64) {
        Some(b) => b,
        None => if depth == 0 {
            BiomeType::Sand
        } else {
            spec_biome_through(seed, (depth - 1) as nat)
        },
    }
}

/// The biome in force at the top of chunk `depth`.
pub open spec fn spec_previous_biome(seed: u64, depth: u64) -> BiomeType {
    if depth == 0 {
        BiomeType::Sand
    } else {
        spec_biome_through(seed, (depth - 1) as nat)
    }
}

/// Decides whether chunk `depth` changes biome, and to which.
pub fn generate_chunk_biome_change(seed: u64, depth: u64) -> (r: Option<BiomeType>)
    ensures
        r == spec_biome_change(seed, depth),
{
    let chunk_seed = generate_seed(seed, vec![depth, BIOME_CHANGE_TAG]);
    let draws = generate_random_values(chunk_seed, 1, 0, BIOME_CHANGE_ODDS);
    let draw = draws[0];
    if draw < BIOME_COUNT as i32 {
        Some(BiomeType::from_index(draw as usize))
    } else {
        None
    }
}

/// The biome in force at the top of chunk `depth`: walks up from the chunk
/// above until some chunk changes biome, and falls back to sand at the surface.
pub fn previous_biome(seed: u64, depth: u64) -> (r: BiomeType)
    ensures
        r == spec_previous_biome(seed, depth),
{
    if depth == 0 {
        return BiomeType::Sand;
    }
    let mut curr: u64 = depth - 1;
    loop
        invariant
            curr < depth,
            spec_biome_through(seed, (depth - 1) as nat) == spec_biome_through(seed, curr as nat),
        decreases curr,
    {
        match generate_chunk_biome_change(seed, curr) {
            Some(b) => {
                return b;
            },
            None => {
                if curr == 0 {
                    return BiomeType::Sand;
                }
                curr = curr - 1;
            },
        }
    }
}

} // verus!
