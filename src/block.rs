//! Block kinds and the blocks that fill a chunk's grid.
use vstd::prelude::*;

verus! {

/// A distinct kind of block, each with its own texture.
#[derive(Clone, Copy, Debug, PartialEq, Eq, Structural, Hash)]
pub enum BlockType {
    Sand,
    Limestone,
    Basalt,
    Granite,
    Diabase,
    Gabbro,
    Clay,
    Coal,
    Iron,
    Quartz,
    Labradorite,
    Peridot,
    CaveVoid,
    PalmTreeBlock,
    Leaves,
    Trunk,
}

/// The number of block kinds; their tags are `0 .. BLOCK_TYPE_COUNT`.
pub const BLOCK_TYPE_COUNT: u8 = 16;

/// The single-byte tag of a block kind.
pub open spec fn spec_tag(t: BlockType) -> u8 {
    match t {
        BlockType::Sand => 0,
        BlockType::Limestone => 1,
        BlockType::Basalt => 2,
        BlockType::Granite => 3,
        BlockType::Diabase => 4,
        BlockType::Gabbro => 5,
        BlockType::Clay => 6,
        BlockType::Coal => 7,
        BlockType::Iron => 8,
        BlockType::Quartz => 9,
        BlockType::Labradorite => 10,
        BlockType::Peridot => 11,
        BlockType::CaveVoid => 12,
        BlockType::PalmTreeBlock => 13,
        BlockType::Leaves => 14,
        BlockType::Trunk => 15,
    }
}

/// The block kind written as `tag`, if there is one.
pub open spec fn spec_from_tag(tag: u8) -> Option<BlockType> {
    if tag == 0 {
        Some(BlockType::Sand)
    } else if tag == 1 {
        Some(BlockType::Limestone)
    } else if tag == 2 {
        Some(BlockType::Basalt)
    } else if tag == 3 {
        Some(BlockType::Granite)
    } else if tag == 4 {
        Some(BlockType::Diabase)
    } else if tag == 5 {
        Some(BlockType::Gabbro)
    } else if tag == 6 {
        Some(BlockType::Clay)
    } else if tag == 7 {
        Some(BlockType::Coal)
    } else if tag == 8 {
        Some(BlockType::Iron)
    } else if tag == 9 {
        Some(BlockType::Quartz)
    } else if tag == 10 {
        Some(BlockType::Labradorite)
    } else if tag == 11 {
        Some(BlockType::Peridot)
    } else if tag == 12 {
        Some(BlockType::CaveVoid)
    } else if tag == 13 {
        Some(BlockType::PalmTreeBlock)
    } else if tag == 14 {
        Some(BlockType::Leaves)
    } else if tag == 15 {
        Some(BlockType::Trunk)
    } else {
        None
    }
}

/// The name of the image file that shows a block kind; empty for cave void.
pub open spec fn spec_image_file_path(t: BlockType) -> Seq<char> {
    match t {
        BlockType::Sand => "Sand.png"@,
        BlockType::Limestone => "Limestone.png"@,
        BlockType::Basalt => "Basalt.png"@,
        BlockType::Granite => "Granite.png"@,
        BlockType::Diabase => "Diabase.png"@,
        BlockType::Gabbro => "Gabbro.png"@,
        BlockType::Clay => "Clay.png"@,
        BlockType::Coal => "Coal.png"@,
        BlockType::Iron => "Iron.png"@,
        BlockType::Quartz => "Quartz.png"@,
        BlockType::Labradorite => "Labradorite.png"@,
        BlockType::Peridot => "Peridot.png"@,
        BlockType::CaveVoid => ""@,
        BlockType::PalmTreeBlock => "PalmTreeBlock.png"@,
        BlockType::Leaves => "Leaves.png"@,
        BlockType::Trunk => "Trunk.png"@,
    }
}

impl BlockType {
    /// The file name of the image that should be displayed for this block.
    pub fn image_file_path(&self) -> (r: &'static str)
        ensures
            r@ == spec_image_file_path(*self),
    {
        match self {
            BlockType::Sand => "Sand.png",
            BlockType::Limestone => "Limestone.png",
            BlockType::Basalt => "Basalt.png",
            BlockType::Granite => "Granite.png",
            BlockType::Diabase => "Diabase.png",
            BlockType::Gabbro => "Gabbro.png",
            BlockType::Clay => "Clay.png",
            BlockType::Coal => "Coal.png",
            BlockType::Iron => "Iron.png",
            BlockType::Quartz => "Quartz.png",
            BlockType::Labradorite => "Labradorite.png",
            BlockType::Peridot => "Peridot.png",
            BlockType::CaveVoid => "",
            BlockType::PalmTreeBlock => "PalmTreeBlock.png",
            BlockType::Leaves => "Leaves.png",
            BlockType::Trunk => "Trunk.png",
        }
    }

    /// Whether this kind is a physical block; cave void and palm decorations
    /// are not.
    pub fn is_real_block(&self) -> (r: bool)
        ensures
            r == !(*self == BlockType::CaveVoid || *self == BlockType::PalmTreeBlock),
    {
        match self {
            BlockType::CaveVoid | BlockType::PalmTreeBlock => false,
            _ => true,
        }
    }

    /// The single-byte tag that this kind is written as.
    pub fn tag(&self) -> (r: u8)
        ensures
            r == spec_tag(*self),
            r < BLOCK_TYPE_COUNT,
    {
        match self {
            BlockType::Sand => 0,
            BlockType::Limestone => 1,
            BlockType::Basalt => 2,
            BlockType::Granite => 3,
            BlockType::Diabase => 4,
            BlockType::Gabbro => 5,
            BlockType::Clay => 6,
            BlockType::Coal => 7,
            BlockType::Iron => 8,
            BlockType::Quartz => 9,
            BlockType::Labradorite => 10,
            BlockType::Peridot => 11,
            BlockType::CaveVoid => 12,
            BlockType::PalmTreeBlock => 13,
            BlockType::Leaves => 14,
            BlockType::Trunk => 15,
        }
    }

    /// The kind written as `tag`, or `None` for a byte that is no tag.
    pub fn from_tag(tag: u8) -> (r: Option<BlockType>)
        ensures
            r == spec_from_tag(tag),
            r is Some <==> tag < BLOCK_TYPE_COUNT,
    {
        match tag {
            0 => Some(BlockType::Sand),
            1 => Some(BlockType::Limestone),
            2 => Some(BlockType::Basalt),
            3 => Some(BlockType::Granite),
            4 => Some(BlockType::Diabase),
            5 => Some(BlockType::Gabbro),
            6 => Some(BlockType::Clay),
            7 => Some(BlockType::Coal),
            8 => Some(BlockType::Iron),
            9 => Some(BlockType::Quartz),
            10 => Some(BlockType::Labradorite),
            11 => Some(BlockType::Peridot),
            12 => Some(BlockType::CaveVoid),
            13 => Some(BlockType::PalmTreeBlock),
            14 => Some(BlockType::Leaves),
            15 => Some(BlockType::Trunk),
            _ => None,
        }
    }
}

/// Reading back the tag of a kind gives that kind.
pub proof fn lemma_tag_round_trip(t: BlockType)
    ensures
        spec_from_tag(spec_tag(t)) == Some(t),
        spec_tag(t) < BLOCK_TYPE_COUNT,
{
}

/// One cell's block. `entity` is the presentation layer's opaque handle for
/// the block's sprite; generation and the wire format never read it.
#[derive(Clone, Copy, Debug)]
pub struct Block {
    pub block_type: BlockType,
    pub entity: Option<u64>,
}

impl Block {
    /// A block of kind `block_type` without a presentation handle.
    pub fn new(block_type: BlockType) -> (r: Block)
        ensures
            r.block_type == block_type,
            r.entity is None,
    {
        Block { block_type, entity: None }
    }
}

/// Blocks compare by kind alone; the presentation handle is ignored.
impl PartialEq for Block {
    fn eq(&self, other: &Block) -> (r: bool) {
        self.block_type == other.block_type
    }
}

impl vstd::std_specs::cmp::PartialEqSpecImpl for Block {
    open spec fn obeys_eq_spec() -> bool {
        true
    }

    open spec fn eq_spec(&self, other: &Block) -> bool {
        self.block_type == other.block_type
    }
}

} // verus!
