//! Fixed-size chunks of the world and how they are built.
use crate::biome::{
    generate_chunk_biome_change, previous_biome, spec_biome_through, spec_ore_block,
    spec_previous_biome, spec_primary_block, BiomeType,
};
use crate::block::{Block, BlockType};
use crate::random::{generate_random_values, random_values};
use vstd::prelude::*;

verus! {

/// Rows of blocks in one chunk.
pub const CHUNK_HEIGHT: usize = 64;

/// Columns of blocks in one chunk.
pub const CHUNK_WIDTH: usize = 128;

/// The seed that the whole world is generated from.
pub const BASE_SEED: u64 = 82981925813;

/// A horizontal slab of the world. `blocks[y][x]` is the cell at row `y`
/// (row 0 shallowest) and column `x`; the chunk covers the world rows
/// `chunk_number * CHUNK_HEIGHT .. (chunk_number + 1) * CHUNK_HEIGHT`.
#[derive(Clone, Debug)]
pub struct Chunk {
    pub blocks: Vec<Vec<Option<Block>>>,
    pub chunk_number: u64,
}

/// A per-cell layer of flags with the shape of a chunk's grid.
pub open spec fn layer_wf(layer: Seq<Vec<bool>>) -> bool {
    &&& layer.len() == CHUNK_HEIGHT
    &&& forall|y: int| 0 <= y < CHUNK_HEIGHT ==> (#[trigger] layer[y])@.len() == CHUNK_WIDTH
}

/// Whether a cell holds nothing or a part of a tree.
pub open spec fn empty_or_tree(cell: Option<Block>) -> bool {
    match cell {
        None => true,
        Some(b) => (b.block_type == BlockType::Trunk || b.block_type == BlockType::Leaves)
            && b.entity is None,
    }
}

/// A cell holding a fresh block of kind `kind`.
pub open spec fn fresh(kind: BlockType) -> Option<Block> {
    Some(Block { block_type: kind, entity: None })
}

/// The cells of a chunk, row by row.
pub open spec fn grid_of(c: Chunk) -> Seq<Seq<Option<Block>>> {
    c.blocks@.map_values(|row: Vec<Option<Block>>| row@)
}

/// Whether `g` has the shape of a chunk's grid.
pub open spec fn grid_wf(g: Seq<Seq<Option<Block>>>) -> bool {
    &&& g.len() == CHUNK_HEIGHT
    &&& forall|y: int| 0 <= y < CHUNK_HEIGHT ==> (#[trigger] g[y]).len() == CHUNK_WIDTH
}

/// `g` with cell (`y`, `x`) set to `v`.
pub open spec fn set_grid(g: Seq<Seq<Option<Block>>>, y: int, x: int, v: Option<Block>) -> Seq<
    Seq<Option<Block>>,
> {
    g.update(y, g[y].update(x, v))
}

/// A grid with every cell empty.
pub open spec fn empty_grid() -> Seq<Seq<Option<Block>>> {
    Seq::new(CHUNK_HEIGHT as nat, |y: int| Seq::new(CHUNK_WIDTH as nat, |x: int| None))
}

/// The row of the nearest block of column `col` at or above row `h`, and 0
/// where that part of the column is empty.
pub open spec fn nearest_block(g: Seq<Seq<Option<Block>>>, col: int, h: int) -> int
    decreases h + 1,
{
    if h < 0 {
        0
    } else if g[h][col] is Some {
        h
    } else {
        nearest_block(g, col, h - 1)
    }
}

/// The row right above the top of a tree that would root in column `x - 2`
/// under row `y`: the nearest block above, or, where that leaves more than
/// two rows, a row drawn between it and `y` with a seed made from the column.
pub open spec fn tree_top(g: Seq<Seq<Option<Block>>>, x: int, y: int) -> int {
    let m = nearest_block(g, x - 2, y);
    if y - m > 2 {
        random_values((BASE_SEED + x) as u64, 2, m, y)[0] as int
    } else {
        m
    }
}

/// Whether the leaves of a tree in column `x - 2` topping out at row `m + 1`
/// have room: columns `x - 3` and `x - 1` are empty in rows `m ..= m + 2`.
pub open spec fn leaf_room(g: Seq<Seq<Option<Block>>>, x: int, m: int) -> bool {
    &&& g[m][x - 3] is None
    &&& g[m][x - 1] is None
    &&& g[m + 1][x - 1] is None
    &&& g[m + 1][x - 3] is None
    &&& g[m + 2][x - 1] is None
    &&& g[m + 2][x - 3] is None
}

/// Whether a tree grows in column `x - 2` up from row `y`: the cell below
/// holds `primary`, the tree is more than two rows tall, and its leaves have
/// room.
pub open spec fn tree_grows(g: Seq<Seq<Option<Block>>>, x: int, y: int, primary: BlockType) -> bool {
    &&& 4 < y < CHUNK_HEIGHT - 1
    &&& 4 < x < CHUNK_WIDTH
    &&& g[y + 1][x - 2] is Some
    &&& g[y + 1][x - 2]->0.block_type == primary
    &&& y - tree_top(g, x, y) > 2
    &&& leaf_room(g, x, tree_top(g, x, y))
}

/// `g` with a tree in column `x - 2`: trunk from row `y` up to row `m + 2`,
/// and leaves across columns `x - 3 ..= x - 1` in row `m + 1` and in columns
/// `x - 3` and `x - 1` of row `m + 2`.
pub open spec fn with_tree(g: Seq<Seq<Option<Block>>>, x: int, m: int, y: int) -> Seq<
    Seq<Option<Block>>,
> {
    Seq::new(
        CHUNK_HEIGHT as nat,
        |r: int|
            Seq::new(
                CHUNK_WIDTH as nat,
                |c: int|
                    if (r == m + 1 && x - 3 <= c <= x - 1) || (r == m + 2 && (c == x - 1 || c
                        == x - 3)) {
                        fresh(BlockType::Leaves)
                    } else if c == x - 2 && m + 1 < r <= y {
                        fresh(BlockType::Trunk)
                    } else {
                        g[r][c]
                    },
            ),
    )
}

/// `g` after trying to grow a tree up from the carved cell (`y`, `x`).
pub open spec fn spec_grow_tree(g: Seq<Seq<Option<Block>>>, x: int, y: int, primary: BlockType) -> Seq<
    Seq<Option<Block>>,
> {
    if tree_grows(g, x, y, primary) {
        with_tree(g, x, tree_top(g, x, y), y)
    } else {
        g
    }
}

/// A well-formed chunk whose cells are those of `g` has grid `g`.
proof fn lemma_grid_eq(c: Chunk, g: Seq<Seq<Option<Block>>>)
    requires
        c.wf(),
        grid_wf(g),
        forall|y: int, x: int|
            0 <= y < CHUNK_HEIGHT && 0 <= x < CHUNK_WIDTH ==> #[trigger] c.cell(y, x) == g[y][x],
    ensures
        grid_of(c) == g,
{
    assert forall|y: int| 0 <= y < CHUNK_HEIGHT implies #[trigger] grid_of(c)[y] == g[y] by {
        assert(grid_of(c)[y] == c.blocks@[y]@);
        assert(c.blocks@[y]@.len() == CHUNK_WIDTH);
        assert forall|x: int| 0 <= x < CHUNK_WIDTH implies grid_of(c)[y][x] == g[y][x] by {
            assert(c.cell(y, x) == g[y][x]);
        }
        assert(grid_of(c)[y] =~= g[y]);
    }
    assert(grid_of(c) =~= g);
}

/// The biome of row `y` in chunk `depth`, whose biome boundary in that column
/// lies at row `boundary`: the new biome from the boundary down, the previous
/// one above it.
pub open spec fn spec_row_biome(depth: u64, boundary: int, y: int) -> BiomeType {
    if y >= boundary {
        spec_biome_through(BASE_SEED, depth as nat)
    } else {
        spec_previous_biome(BASE_SEED, depth)
    }
}

/// The kind of a solid cell of a deep chunk: its biome's ore inside a vein,
/// its biome's primary kind elsewhere.
pub open spec fn spec_deep_kind(depth: u64, boundary: int, in_vein: bool, y: int) -> BlockType {
    if in_vein {
        spec_ore_block(spec_row_biome(depth, boundary, y))
    } else {
        spec_primary_block(spec_row_biome(depth, boundary, y))
    }
}

/// What cell (`y`, `x`) of deep chunk `depth` holds: a cell outside the caves
/// holds its biome's block; a carved cell holds nothing or part of a tree.
pub open spec fn deep_cell_ok(
    c: Chunk,
    depth: u64,
    boundary_rows: Seq<usize>,
    vein_cells: Seq<Vec<bool>>,
    cave_cells: Seq<Vec<bool>>,
    y: int,
    x: int,
) -> bool {
    if cave_cells[y]@[x] {
        empty_or_tree(c.cell(y, x))
    } else {
        c.cell(y, x) == fresh(spec_deep_kind(depth, boundary_rows[x] as int, vein_cells[y]@[x], y))
    }
}

/// The grid after the deep build of chunk `depth` has handled cell
/// (`y`, `x`) of `g`: a carved cell is emptied and may root a tree, any
/// other cell takes its biome's block.
pub open spec fn deep_step(
    g: Seq<Seq<Option<Block>>>,
    depth: u64,
    boundary_rows: Seq<usize>,
    vein_cells: Seq<Vec<bool>>,
    cave_cells: Seq<Vec<bool>>,
    x: int,
    y: int,
) -> Seq<Seq<Option<Block>>> {
    if cave_cells[y]@[x] {
        spec_grow_tree(
            set_grid(g, y, x, None),
            x,
            y,
            spec_primary_block(spec_row_biome(depth, boundary_rows[x] as int, y)),
        )
    } else {
        set_grid(g, y, x, fresh(spec_deep_kind(depth, boundary_rows[x] as int, vein_cells[y]@[x], y)))
    }
}

/// The grid once the deep build has handled its first `k` cells, taken
/// column by column and from the top of each column.
pub open spec fn deep_grid(
    depth: u64,
    boundary_rows: Seq<usize>,
    vein_cells: Seq<Vec<bool>>,
    cave_cells: Seq<Vec<bool>>,
    k: nat,
) -> Seq<Seq<Option<Block>>>
    decreases k,
{
    if k == 0 {
        empty_grid()
    } else {
        let i = k - 1;
        deep_step(
            deep_grid(depth, boundary_rows, vein_cells, cave_cells, (k - 1) as nat),
            depth,
            boundary_rows,
            vein_cells,
            cave_cells,
            i / CHUNK_HEIGHT as int,
            i % CHUNK_HEIGHT as int,
        )
    }
}

/// Cell (`y`, `x`) is handled as number `x * CHUNK_HEIGHT + y`.
proof fn lemma_step_index(x: int, y: int)
    requires
        0 <= x < CHUNK_WIDTH,
        0 <= y < CHUNK_HEIGHT,
    ensures
        (x * CHUNK_HEIGHT + y) / CHUNK_HEIGHT as int == x,
        (x * CHUNK_HEIGHT + y) % CHUNK_HEIGHT as int == y,
        x * CHUNK_HEIGHT + y + 1 <= CHUNK_WIDTH * CHUNK_HEIGHT,
{
    vstd::arithmetic::div_mod::lemma_fundamental_div_mod_converse(x * 64 + y, 64, x, y);
    assert(x * 64 + y + 1 <= 128 * 64) by (nonlinear_arith)
        requires
            0 <= x < 128,
            0 <= y < 64,
    ;
}

/// Whether `c` is a chunk that the deep build makes for chunk `depth` from
/// these layers.
pub open spec fn is_deep_build(
    c: Chunk,
    depth: u64,
    boundary_rows: Seq<usize>,
    vein_cells: Seq<Vec<bool>>,
    cave_cells: Seq<Vec<bool>>,
) -> bool {
    &&& c.wf()
    &&& c.chunk_number == depth
    &&& grid_of(c) == deep_grid(
        depth,
        boundary_rows,
        vein_cells,
        cave_cells,
        (CHUNK_WIDTH * CHUNK_HEIGHT) as nat,
    )
    &&& forall|y: int, x: int|
        0 <= y < CHUNK_HEIGHT && 0 <= x < CHUNK_WIDTH ==> #[trigger] deep_cell_ok(
            c,
            depth,
            boundary_rows,
            vein_cells,
            cave_cells,
            y,
            x,
        )
}

/// Palm trees stand on the surface where a column's draw from
/// `0..CHUNK_WIDTH / 8` is this value.
pub const PALM_DRAW: i32 = 1;

/// The draws that decide which surface columns grow a palm tree.
pub open spec fn spec_palm_draws() -> Seq<i32> {
    random_values(BASE_SEED, CHUNK_WIDTH as nat, 0, (CHUNK_WIDTH / 8) as int)
}

/// The biome of row `y` of a surface column whose sand reaches down to row
/// `sand_depth`.
pub open spec fn spec_surface_biome(sand_depth: int, y: int) -> BiomeType {
    if y <= sand_depth {
        BiomeType::Sand
    } else {
        BiomeType::Sedimentary
    }
}

/// What cell (`y`, `x`) of the surface chunk holds, in a column whose hill
/// top is row `hill_top`: solid ground from the hill top down, sand above
/// `sand_depth` and sedimentary rock below it, ore where a vein runs, a palm
/// tree right above the ground where `palm` says so, and nothing else.
pub open spec fn spec_surface_cell(
    hill_top: int,
    sand_depth: int,
    palm: bool,
    in_vein: bool,
    y: int,
) -> Option<Block> {
    if y >= hill_top {
        if in_vein {
            fresh(spec_ore_block(spec_surface_biome(sand_depth, y)))
        } else {
            fresh(spec_primary_block(spec_surface_biome(sand_depth, y)))
        }
    } else if palm && y + 1 == hill_top {
        fresh(BlockType::PalmTreeBlock)
    } else {
        None
    }
}

/// Whether `c` is the surface chunk built from these layers.
pub open spec fn is_surface_build(
    c: Chunk,
    hill_tops: Seq<usize>,
    sand_depths: Seq<usize>,
    vein_cells: Seq<Vec<bool>>,
) -> bool {
    &&& c.wf()
    &&& c.chunk_number == 0
    &&& forall|y: int, x: int|
        0 <= y < CHUNK_HEIGHT && 0 <= x < CHUNK_WIDTH ==> #[trigger] c.cell(y, x)
            == spec_surface_cell(
            hill_tops[x] as int,
            sand_depths[x] as int,
            spec_palm_draws()[x] == PALM_DRAW,
            vein_cells[y]@[x],
            y,
        )
}

/// Building the surface chunk twice from the same layers gives the same grid,
/// cell for cell.
pub proof fn lemma_surface_build_deterministic(
    a: Chunk,
    b: Chunk,
    hill_tops: Seq<usize>,
    sand_depths: Seq<usize>,
    vein_cells: Seq<Vec<bool>>,
)
    requires
        is_surface_build(a, hill_tops, sand_depths, vein_cells),
        is_surface_build(b, hill_tops, sand_depths, vein_cells),
    ensures
        a.chunk_number == b.chunk_number,
        forall|y: int, x: int|
            0 <= y < CHUNK_HEIGHT && 0 <= x < CHUNK_WIDTH ==> #[trigger] a.cell(y, x) == b.cell(y, x),
{
}

/// Building a deep chunk twice from the same depth and layers gives the
/// same grid, cell for cell, trees included.
pub proof fn lemma_deep_build_deterministic(
    a: Chunk,
    b: Chunk,
    depth: u64,
    boundary_rows: Seq<usize>,
    vein_cells: Seq<Vec<bool>>,
    cave_cells: Seq<Vec<bool>>,
)
    requires
        is_deep_build(a, depth, boundary_rows, vein_cells, cave_cells),
        is_deep_build(b, depth, boundary_rows, vein_cells, cave_cells),
    ensures
        a.chunk_number == b.chunk_number,
        grid_of(a) == grid_of(b),
        forall|y: int, x: int|
            0 <= y < CHUNK_HEIGHT && 0 <= x < CHUNK_WIDTH ==> #[trigger] a.cell(y, x) == b.cell(y, x),
{
    assert forall|y: int, x: int| 0 <= y < CHUNK_HEIGHT && 0 <= x < CHUNK_WIDTH implies #[trigger] a.cell(
        y,
        x,
    ) == b.cell(y, x) by {
        assert(grid_of(a)[y] == a.blocks@[y]@);
        assert(grid_of(b)[y] == b.blocks@[y]@);
    }
}

/// The surface chunk holds only sand and sedimentary ground, their ores and
/// palm trees: never cave void, whatever its layers.
pub proof fn lemma_surface_layers_only(
    c: Chunk,
    hill_tops: Seq<usize>,
    sand_depths: Seq<usize>,
    vein_cells: Seq<Vec<bool>>,
)
    requires
        is_surface_build(c, hill_tops, sand_depths, vein_cells),
    ensures
        forall|y: int, x: int|
            0 <= y < CHUNK_HEIGHT && 0 <= x < CHUNK_WIDTH && (#[trigger] c.cell(y, x)) is Some ==> {
                let t = c.cell(y, x)->0.block_type;
                t == BlockType::Sand || t == BlockType::Limestone || t == BlockType::Clay || t
                    == BlockType::Coal || t == BlockType::PalmTreeBlock
            },
{
}

impl Chunk {
    /// The grid has `CHUNK_HEIGHT` rows of `CHUNK_WIDTH` cells.
    pub open spec fn wf(&self) -> bool {
        &&& self.blocks@.len() == CHUNK_HEIGHT
        &&& forall|y: int|
            0 <= y < CHUNK_HEIGHT ==> (#[trigger] self.blocks@[y])@.len() == CHUNK_WIDTH
    }

    /// The cell at row `y`, column `x`.
    pub open spec fn cell(&self, y: int, x: int) -> Option<Block> {
        self.blocks@[y]@[x]
    }

    /// `next` is `self` with only cell (`y`, `x`) set to `v`.
    pub open spec fn with_cell(&self, next: Chunk, y: int, x: int, v: Option<Block>) -> bool {
        &&& next.wf()
        &&& next.chunk_number == self.chunk_number
        &&& forall|i: int, j: int|
            0 <= i < CHUNK_HEIGHT && 0 <= j < CHUNK_WIDTH ==> #[trigger] next.cell(i, j) == if i
                == y && j == x {
                v
            } else {
                self.cell(i, j)
            }
    }

    /// A chunk numbered `chunk_number` with every cell empty.
    pub fn empty(chunk_number: u64) -> (r: Chunk)
        ensures
            r.wf(),
            r.chunk_number == chunk_number,
            forall|y: int, x: int|
                0 <= y < CHUNK_HEIGHT && 0 <= x < CHUNK_WIDTH ==> #[trigger] r.cell(y, x) is None,
            grid_of(r) == empty_grid(),
    {
        let mut blocks: Vec<Vec<Option<Block>>> = Vec::new();
        let mut y: usize = 0;
        while y < CHUNK_HEIGHT
            invariant
                y <= CHUNK_HEIGHT,
                blocks@.len() == y,
                forall|i: int| 0 <= i < y ==> (#[trigger] blocks@[i])@.len() == CHUNK_WIDTH,
                forall|i: int, j: int|
                    0 <= i < y && 0 <= j < CHUNK_WIDTH ==> #[trigger] blocks@[i]@[j] is None,
            decreases CHUNK_HEIGHT - y,
        {
            let mut row: Vec<Option<Block>> = Vec::new();
            let mut x: usize = 0;
            while x < CHUNK_WIDTH
                invariant
                    x <= CHUNK_WIDTH,
                    row@.len() == x,
                    forall|j: int| 0 <= j < x ==> #[trigger] row@[j] is None,
                decreases CHUNK_WIDTH - x,
            {
                row.push(None);
                x = x + 1;
            }
            blocks.push(row);
            y = y + 1;
        }
        let c = Chunk { blocks, chunk_number };
        proof {
            lemma_grid_eq(c, empty_grid());
        }
        c
    }

    /// `next` differs from `self` only by tree parts grown into empty cells
    /// of the columns `lo .. hi`.
    pub open spec fn grows_tree(&self, next: Chunk, lo: int, hi: int) -> bool {
        &&& next.wf()
        &&& next.chunk_number == self.chunk_number
        &&& forall|i: int, j: int|
            0 <= i < CHUNK_HEIGHT && 0 <= j < CHUNK_WIDTH && #[trigger] next.cell(i, j)
                != self.cell(i, j) ==> {
                &&& lo <= j < hi
                &&& self.cell(i, j) is None
                &&& empty_or_tree(next.cell(i, j))
            }
    }

    /// Whether the leaf footprint of a tree whose trunk stands in column
    /// `x - 2` and tops out below row `y` is clear: columns `x - 3` and
    /// `x - 1` must be empty in rows `y ..= y + 2`.
    pub fn structure_fit(&self, x: usize, y: usize) -> (r: bool)
        requires
            self.wf(),
            y + 2 < CHUNK_HEIGHT,
        ensures
            r == (4 < x < CHUNK_WIDTH && self.cell(y as int, x - 3) is None && self.cell(
                y as int,
                x - 1,
            ) is None && self.cell(y + 1, x - 1) is None && self.cell(y + 1, x - 3) is None
                && self.cell(y + 2, x - 1) is None && self.cell(y + 2, x - 3) is None),
    {
        if x > 4 && x < CHUNK_WIDTH {
            if self.blocks[y][x - 3].is_none() && self.blocks[y][x - 1].is_none()
                && self.blocks[y + 1][x - 1].is_none() && self.blocks[y + 1][x - 3].is_none()
                && self.blocks[y + 2][x - 1].is_none() && self.blocks[y + 2][x - 3].is_none() {
                return true;
            }
        }
        false
    }

    /// Puts a tree part of kind `kind` into the empty cell (`y`, `x`).
    fn put_tree_part(&mut self, y: usize, x: usize, kind: BlockType, lo: Ghost<int>, hi: Ghost<int>)
        requires
            old(self).wf(),
            y < CHUNK_HEIGHT,
            lo@ <= x < hi@,
            x < CHUNK_WIDTH,
            old(self).cell(y as int, x as int) is None,
            kind == BlockType::Trunk || kind == BlockType::Leaves,
        ensures
            old(self).grows_tree(*final(self), lo@, hi@),
            old(self).with_cell(*final(self), y as int, x as int, fresh(kind)),
    {
        self.set_cell(y, x, Some(Block::new(kind)));
    }

    /// Tries to root a tree in column `x - 2` under the empty cell (`y`, `x`):
    /// the cell below must hold `primary`, and the tree needs more than two
    /// empty rows above the nearest block of its column and a clear leaf
    /// footprint. Its height is drawn with a seed made from the column.
    fn grow_tree(&mut self, x: usize, y: usize, primary: BlockType)
        requires
            old(self).wf(),
            x < CHUNK_WIDTH,
            y < CHUNK_HEIGHT,
        ensures
            old(self).grows_tree(*final(self), x - 3, x as int),
            grid_of(*final(self)) == spec_grow_tree(grid_of(*old(self)), x as int, y as int, primary),
    {
        let ghost start = *self;
        let ghost g = grid_of(start);
        assert forall|r: int, c: int| 0 <= r < CHUNK_HEIGHT && 0 <= c < CHUNK_WIDTH implies #[trigger] g[r][c]
            == start.cell(r, c) by {
            assert(g[r] == start.blocks@[r]@);
        }
        let ghost lo = x - 3;
        let ghost hi = x as int;
        if !(y > 4 && y < CHUNK_HEIGHT - 1 && x > 4) {
            return;
        }
        assert(g[y + 1][x - 2] == start.cell(y + 1, x - 2));
        let below_is_primary = match self.blocks[y + 1][x - 2] {
            Some(b) => b.block_type == primary,
            None => false,
        };
        if !below_is_primary {
            return;
        }
        // the nearest block at or above row `y` in the trunk's column
        let mut max: usize = 0;
        let mut height: usize = y + 1;
        let mut found = false;
        while height > 0 && !found
            invariant
                *self == start,
                self.wf(),
                0 < x - 2 < CHUNK_WIDTH,
                y < CHUNK_HEIGHT,
                height <= y + 1,
                found ==> max <= y && forall|h: int|
                    max < h <= y ==> (#[trigger] self.cell(h, x - 2)) is None,
                !found ==> max == 0 && forall|h: int|
                    height <= h <= y ==> (#[trigger] self.cell(h, x - 2)) is None,
                g == grid_of(start),
                forall|r: int, c: int|
                    0 <= r < CHUNK_HEIGHT && 0 <= c < CHUNK_WIDTH ==> #[trigger] g[r][c]
                        == start.cell(r, c),
                found ==> max == nearest_block(g, x - 2, y as int),
                !found ==> nearest_block(g, x - 2, y as int) == nearest_block(
                    g,
                    x - 2,
                    height - 1,
                ),
            decreases height,
        {
            height = height - 1;
            if self.blocks[height][x - 2].is_some() {
                max = height;
                found = true;
            }
        }
        assert(forall|h: int| max < h <= y ==> (#[trigger] self.cell(h, x - 2)) is None);
        assert(max == nearest_block(g, x - 2, y as int));
        if y - max > 2 {
            // the column joins the seed, so that equal positions grow differently
            let heights = generate_random_values(BASE_SEED + x as u64, 2, max, y);
            max = heights[0] as usize;
        }
        assert(max == tree_top(g, x as int, y as int));
        if y - max > 2 && self.structure_fit(x, max) {
            let mut height: usize = y;
            while height > max
                invariant
                    self.wf(),
                    start.grows_tree(*self, lo, hi),
                    start.wf(),
                    lo == x - 3,
                    hi == x,
                    4 < x < CHUNK_WIDTH,
                    max <= height <= y < CHUNK_HEIGHT,
                    max + 2 < y,
                    forall|h: int| max < h <= height ==> (#[trigger] self.cell(h, x - 2)) is None,
                    self.cell(max as int, x - 3) is None,
                    self.cell(max as int, x - 1) is None,
                    self.cell(max + 1, x - 1) is None,
                    self.cell(max + 1, x - 3) is None,
                    self.cell(max + 2, x - 1) is None,
                    self.cell(max + 2, x - 3) is None,
                    forall|r: int, c: int|
                        0 <= r < CHUNK_HEIGHT && 0 <= c < CHUNK_WIDTH ==> #[trigger] self.cell(r, c)
                            == if c == x - 2 && height < r <= y {
                            fresh(BlockType::Trunk)
                        } else {
                            start.cell(r, c)
                        },
                decreases height,
            {
                self.put_tree_part(height, x - 2, BlockType::Trunk, Ghost(lo), Ghost(hi));
                assert(start.grows_tree(*self, lo, hi));
                height = height - 1;
            }
            self.put_tree_part(max + 1, x - 1, BlockType::Leaves, Ghost(lo), Ghost(hi));
            self.put_tree_part(max + 1, x - 3, BlockType::Leaves, Ghost(lo), Ghost(hi));
            self.put_tree_part(max + 2, x - 1, BlockType::Leaves, Ghost(lo), Ghost(hi));
            self.put_tree_part(max + 2, x - 3, BlockType::Leaves, Ghost(lo), Ghost(hi));
            self.set_cell(max + 1, x - 2, Some(Block::new(BlockType::Leaves)));
            assert(tree_grows(g, x as int, y as int, primary));
            proof {
                lemma_grid_eq(*self, with_tree(g, x as int, max as int, y as int));
            }
        } else {
            assert(!tree_grows(g, x as int, y as int, primary));
        }
    }

    /// Builds deep chunk `depth`. Per column `x`, `boundary_rows[x]` is the
    /// first row of the chunk's new biome; `vein_cells[y][x]` says that an ore
    /// vein covers a cell and `cave_cells[y][x]` that the cave field carves it.
    /// Each cell takes its biome's primary block kind, or its ore kind inside a
    /// vein; a carved cell stays empty, unless a tree grows through it.
    pub fn new(
        depth: u64,
        boundary_rows: &Vec<usize>,
        vein_cells: &Vec<Vec<bool>>,
        cave_cells: &Vec<Vec<bool>>,
    ) -> (r: Chunk)
        requires
            boundary_rows@.len() == CHUNK_WIDTH,
            layer_wf(vein_cells@),
            layer_wf(cave_cells@),
        ensures
            is_deep_build(r, depth, boundary_rows@, vein_cells@, cave_cells@),
    {
        let prev = previous_biome(BASE_SEED, depth);
        let next = match generate_chunk_biome_change(BASE_SEED, depth) {
            Some(b) => b,
            None => prev,
        };
        assert(next == spec_biome_through(BASE_SEED, depth as nat));
        let mut c = Chunk::empty(depth);
        let mut x: usize = 0;
        while x < CHUNK_WIDTH
            invariant
                x <= CHUNK_WIDTH,
                c.wf(),
                c.chunk_number == depth,
                boundary_rows@.len() == CHUNK_WIDTH,
                layer_wf(vein_cells@),
                layer_wf(cave_cells@),
                prev == spec_previous_biome(BASE_SEED, depth),
                next == spec_biome_through(BASE_SEED, depth as nat),
                grid_of(c) == deep_grid(
                    depth,
                    boundary_rows@,
                    vein_cells@,
                    cave_cells@,
                    (x * CHUNK_HEIGHT) as nat,
                ),
                forall|yy: int, xx: int|
                    0 <= yy < CHUNK_HEIGHT && 0 <= xx < x ==> #[trigger] deep_cell_ok(
                        c,
                        depth,
                        boundary_rows@,
                        vein_cells@,
                        cave_cells@,
                        yy,
                        xx,
                    ),
            decreases CHUNK_WIDTH - x,
        {
            let boundary = boundary_rows[x];
            let mut y: usize = 0;
            while y < CHUNK_HEIGHT
                invariant
                    x < CHUNK_WIDTH,
                    y <= CHUNK_HEIGHT,
                    c.wf(),
                    c.chunk_number == depth,
                    boundary == boundary_rows@[x as int],
                    boundary_rows@.len() == CHUNK_WIDTH,
                    layer_wf(vein_cells@),
                    layer_wf(cave_cells@),
                    prev == spec_previous_biome(BASE_SEED, depth),
                    next == spec_biome_through(BASE_SEED, depth as nat),
                    grid_of(c) == deep_grid(
                        depth,
                        boundary_rows@,
                        vein_cells@,
                        cave_cells@,
                        (x * CHUNK_HEIGHT + y) as nat,
                    ),
                    forall|yy: int, xx: int|
                        0 <= yy < CHUNK_HEIGHT && 0 <= xx < CHUNK_WIDTH && (xx < x || (xx == x
                            && yy < y)) ==> #[trigger] deep_cell_ok(
                            c,
                            depth,
                            boundary_rows@,
                            vein_cells@,
                            cave_cells@,
                            yy,
                            xx,
                        ),
                decreases CHUNK_HEIGHT - y,
            {
                let biome = if y >= boundary {
                    next
                } else {
                    prev
                };
                assert(biome == spec_row_biome(depth, boundary as int, y as int));
                let kind = if vein_cells[y][x] {
                    biome.ore_block()
                } else {
                    biome.primary_block()
                };
                let ghost before = c;
                proof {
                    lemma_step_index(x as int, y as int);
                }
                if cave_cells[y][x] {
                    c.set_cell(y, x, None);
                    let ghost cleared = c;
                    c.grow_tree(x, y, biome.primary_block());
                    assert forall|yy: int, xx: int|
                        0 <= yy < CHUNK_HEIGHT && 0 <= xx < CHUNK_WIDTH && (xx < x || (xx == x
                            && yy <= y)) implies #[trigger] deep_cell_ok(
                        c,
                        depth,
                        boundary_rows@,
                        vein_cells@,
                        cave_cells@,
                        yy,
                        xx,
                    ) by {
                        assert(cleared.cell(yy, xx) == c.cell(yy, xx) || cleared.cell(yy, xx) is None);
                        if !(xx == x && yy == y) {
                            assert(deep_cell_ok(before, depth, boundary_rows@, vein_cells@, cave_cells@, yy, xx));
                            assert(cleared.cell(yy, xx) == before.cell(yy, xx));
                        }
                    }
                } else {
                    c.set_cell(y, x, Some(Block::new(kind)));
                    assert forall|yy: int, xx: int|
                        0 <= yy < CHUNK_HEIGHT && 0 <= xx < CHUNK_WIDTH && (xx < x || (xx == x
                            && yy <= y)) implies #[trigger] deep_cell_ok(
                        c,
                        depth,
                        boundary_rows@,
                        vein_cells@,
                        cave_cells@,
                        yy,
                        xx,
                    ) by {
                        if !(xx == x && yy == y) {
                            assert(deep_cell_ok(before, depth, boundary_rows@, vein_cells@, cave_cells@, yy, xx));
                            assert(c.cell(yy, xx) == before.cell(yy, xx));
                        }
                    }
                }
                assert(grid_of(c) == deep_grid(
                    depth,
                    boundary_rows@,
                    vein_cells@,
                    cave_cells@,
                    (x * CHUNK_HEIGHT + y + 1) as nat,
                ));
                y = y + 1;
            }
            x = x + 1;
        }
        c
    }

    /// Builds the surface chunk (number 0). Per column `x`, `hill_tops[x]` is
    /// the first solid row and `sand_depths[x]` the last row of sand; below it
    /// lies sedimentary rock. `vein_cells[y][x]` says that an ore vein covers a
    /// cell. A palm tree stands right above the ground of the columns whose
    /// palm draw says so.
    pub fn new_surface(
        hill_tops: &Vec<usize>,
        sand_depths: &Vec<usize>,
        vein_cells: &Vec<Vec<bool>>,
    ) -> (r: Chunk)
        requires
            hill_tops@.len() == CHUNK_WIDTH,
            sand_depths@.len() == CHUNK_WIDTH,
            forall|x: int| 0 <= x < CHUNK_WIDTH ==> 1 <= #[trigger] hill_tops@[x] <= CHUNK_HEIGHT,
            layer_wf(vein_cells@),
        ensures
            is_surface_build(r, hill_tops@, sand_depths@, vein_cells@),
    {
        let palms = generate_random_values(BASE_SEED, CHUNK_WIDTH, 0, CHUNK_WIDTH / 8);
        let mut c = Chunk::empty(0);
        let mut x: usize = 0;
        while x < CHUNK_WIDTH
            invariant
                x <= CHUNK_WIDTH,
                c.wf(),
                c.chunk_number == 0,
                palms@ == spec_palm_draws(),
                palms@.len() == CHUNK_WIDTH,
                hill_tops@.len() == CHUNK_WIDTH,
                sand_depths@.len() == CHUNK_WIDTH,
                layer_wf(vein_cells@),
                forall|yy: int, xx: int|
                    0 <= yy < CHUNK_HEIGHT && 0 <= xx < x ==> #[trigger] c.cell(yy, xx)
                        == spec_surface_cell(
                        hill_tops@[xx] as int,
                        sand_depths@[xx] as int,
                        spec_palm_draws()[xx] == PALM_DRAW,
                        vein_cells@[yy]@[xx],
                        yy,
                    ),
            decreases CHUNK_WIDTH - x,
        {
            let hill_top = hill_tops[x];
            let sand_depth = sand_depths[x];
            let palm = palms[x] == PALM_DRAW;
            let mut y: usize = 0;
            while y < CHUNK_HEIGHT
                invariant
                    x < CHUNK_WIDTH,
                    y <= CHUNK_HEIGHT,
                    c.wf(),
                    c.chunk_number == 0,
                    palms@ == spec_palm_draws(),
                    hill_top == hill_tops@[x as int],
                    sand_depth == sand_depths@[x as int],
                    palm == (spec_palm_draws()[x as int] == PALM_DRAW),
                    hill_tops@.len() == CHUNK_WIDTH,
                    sand_depths@.len() == CHUNK_WIDTH,
                    layer_wf(vein_cells@),
                    forall|yy: int, xx: int|
                        0 <= yy < CHUNK_HEIGHT && 0 <= xx < CHUNK_WIDTH && (xx < x || (xx == x
                            && yy < y)) ==> #[trigger] c.cell(yy, xx) == spec_surface_cell(
                            hill_tops@[xx] as int,
                            sand_depths@[xx] as int,
                            spec_palm_draws()[xx] == PALM_DRAW,
                            vein_cells@[yy]@[xx],
                            yy,
                        ),
                decreases CHUNK_HEIGHT - y,
            {
                let v = if y >= hill_top {
                    let biome = if y <= sand_depth {
                        BiomeType::Sand
                    } else {
                        BiomeType::Sedimentary
                    };
                    if vein_cells[y][x] {
                        Some(Block::new(biome.ore_block()))
                    } else {
                        Some(Block::new(biome.primary_block()))
                    }
                } else if palm && y + 1 == hill_top {
                    Some(Block::new(BlockType::PalmTreeBlock))
                } else {
                    None
                };
                c.set_cell(y, x, v);
                y = y + 1;
            }
            x = x + 1;
        }
        c
    }

    /// Sets cell (`y`, `x`) to `v`.
    pub fn set_cell(&mut self, y: usize, x: usize, v: Option<Block>)
        requires
            old(self).wf(),
            y < CHUNK_HEIGHT,
            x < CHUNK_WIDTH,
        ensures
            old(self).with_cell(*final(self), y as int, x as int, v),
            grid_of(*final(self)) == set_grid(grid_of(*old(self)), y as int, x as int, v),
    {
        self.blocks[y][x] = v;
        assert forall|i: int| 0 <= i < CHUNK_HEIGHT implies (#[trigger] self.blocks@[i])@.len()
            == CHUNK_WIDTH by {
            if i != y {
                assert(self.blocks@[i] == old(self).blocks@[i]);
            }
        }
        proof {
            let g = grid_of(*old(self));
            assert forall|i: int, j: int|
                0 <= i < CHUNK_HEIGHT && 0 <= j < CHUNK_WIDTH implies #[trigger] g[i][j]
                == old(self).cell(i, j) by {
                assert(g[i] == old(self).blocks@[i]@);
            }
            lemma_grid_eq(*self, set_grid(g, y as int, x as int, v));
        }
    }
}

} // verus!
