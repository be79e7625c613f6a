//! The store of generated chunks, its growth ahead of the players, and block
//! destruction.
use crate::block::Block;
use crate::chunk::{
    is_surface_build, layer_wf, Chunk, CHUNK_HEIGHT, CHUNK_WIDTH,
};
use vstd::prelude::*;

verus! {

/// How many chunks, counting a player's own, always exist from the chunk that
/// a player is in downwards.
pub const GEN_CHUNKS_AHEAD: u64 = 3;

/// The chunks that one side knows. On the server this is the whole world,
/// numbered `0 .. chunks.len()` in order; a client may hold any subset.
#[derive(Clone, Debug)]
pub struct Terrain {
    pub chunks: Vec<Chunk>,
}

/// Why a block could not be destroyed.
#[derive(Clone, Copy, Debug, PartialEq, Eq, Structural)]
pub enum DestroyBlockError {
    /// The column lies outside the chunk width.
    InvalidX,
    /// No chunk holds the row.
    ChunkNotLoaded,
    /// The cell is already empty.
    BlockDoesntExist,
}

/// A change of world state sent from the server: a full baseline of chunks,
/// or the removal of one block.
#[derive(Clone, Debug)]
pub enum WorldDelta {
    NewChunks(Terrain),
    BlockDelete(BlockDelete),
}

/// The removal of the block at column `x`, row `y` of chunk `chunk_number`.
#[derive(Clone, Copy, Debug, PartialEq, Eq, Structural)]
pub struct BlockDelete {
    pub chunk_number: u64,
    pub x: usize,
    pub y: usize,
}

/// Every chunk has the fixed grid shape.
pub open spec fn chunks_wf(chunks: Seq<Chunk>) -> bool {
    forall|i: int| 0 <= i < chunks.len() ==> (#[trigger] chunks[i]).wf()
}

/// The chunks are numbered by their position: `0 .. chunks.len()`, no gaps.
pub open spec fn numbered(chunks: Seq<Chunk>) -> bool {
    forall|i: int| 0 <= i < chunks.len() ==> (#[trigger] chunks[i]).chunk_number == i
}

/// Some chunk is numbered `n`.
pub open spec fn has_chunk(chunks: Seq<Chunk>, n: u64) -> bool {
    exists|i: int| 0 <= i < chunks.len() && (#[trigger] chunks[i]).chunk_number == n
}

/// `i` is the position of the first chunk numbered `n`.
pub open spec fn is_first_chunk(chunks: Seq<Chunk>, n: u64, i: int) -> bool {
    &&& 0 <= i < chunks.len()
    &&& chunks[i].chunk_number == n
    &&& forall|j: int| 0 <= j < i ==> (#[trigger] chunks[j]).chunk_number != n
}

/// The position of the first chunk numbered `n`, where there is one.
pub open spec fn first_chunk(chunks: Seq<Chunk>, n: u64) -> int {
    choose|i: int| is_first_chunk(chunks, n, i)
}

/// The cell of world column `x`, world row `y` (row 0 at the surface), where
/// `x` is inside the chunk width and its chunk is held.
pub open spec fn world_cell(chunks: Seq<Chunk>, x: int, y: int) -> Option<Block> {
    chunks[first_chunk(chunks, (y / CHUNK_HEIGHT as int) as u64)].cell(y % CHUNK_HEIGHT as int, x)
}

/// The length a numbered store has once every player depth of `depths` has
/// `GEN_CHUNKS_AHEAD` chunks from its own downwards, starting from
/// `len` chunks.
pub open spec fn needed_len(len: int, depths: Seq<u64>) -> int
    decreases depths.len(),
{
    if depths.len() == 0 {
        len
    } else {
        let before = needed_len(len, depths.drop_last());
        let want = depths.last() + GEN_CHUNKS_AHEAD;
        if want > before {
            want
        } else {
            before
        }
    }
}

impl Terrain {
    /// A terrain that holds no chunk.
    pub fn empty() -> (r: Terrain)
        ensures
            r.chunks@.len() == 0,
    {
        Terrain { chunks: Vec::new() }
    }

    /// A terrain of the chunks `0 .. num_chunks`, each made by `build`.
    pub fn new<F: Fn(u64) -> Chunk>(num_chunks: u64, build: F) -> (r: Terrain)
        requires
            forall|n: u64| build.requires((n,)),
        ensures
            r.chunks@.len() == num_chunks,
            forall|i: int| 0 <= i < num_chunks ==> build.ensures((i as u64,), #[trigger] r.chunks@[i]),
    {
        let mut chunks: Vec<Chunk> = Vec::new();
        let mut d: u64 = 0;
        while d < num_chunks
            invariant
                d <= num_chunks,
                chunks@.len() == d,
                forall|n: u64| build.requires((n,)),
                forall|i: int| 0 <= i < d ==> build.ensures((i as u64,), #[trigger] chunks@[i]),
            decreases num_chunks - d,
        {
            let c = build(d);
            chunks.push(c);
            d = d + 1;
        }
        Terrain { chunks }
    }
}

/// Appends the surface chunk built from these layers.
pub fn create_surface_chunk(
    terrain: &mut Terrain,
    hill_tops: &Vec<usize>,
    sand_depths: &Vec<usize>,
    vein_cells: &Vec<Vec<bool>>,
)
    requires
        hill_tops@.len() == CHUNK_WIDTH,
        sand_depths@.len() == CHUNK_WIDTH,
        forall|x: int| 0 <= x < CHUNK_WIDTH ==> 1 <= #[trigger] hill_tops@[x] <= CHUNK_HEIGHT,
        layer_wf(vein_cells@),
    ensures
        final(terrain).chunks@.len() == old(terrain).chunks@.len() + 1,
        final(terrain).chunks@.drop_last() == old(terrain).chunks@,
        is_surface_build(final(terrain).chunks@.last(), hill_tops@, sand_depths@, vein_cells@),
{
    let chunk = Chunk::new_surface(hill_tops, sand_depths, vein_cells);
    terrain.chunks.push(chunk);
    assert(terrain.chunks@.drop_last() == old(terrain).chunks@);
}

/// The position of the first chunk numbered `n`, or `None` where no chunk is.
fn find_chunk(chunks: &Vec<Chunk>, n: u64) -> (r: Option<usize>)
    ensures
        r is Some <==> has_chunk(chunks@, n),
        r is Some ==> r->0 == first_chunk(chunks@, n) && is_first_chunk(chunks@, n, r->0 as int),
{
    let mut i: usize = 0;
    while i < chunks.len()
        invariant
            i <= chunks@.len(),
            forall|j: int| 0 <= j < i ==> (#[trigger] chunks@[j]).chunk_number != n,
        decreases chunks@.len() - i,
    {
        if chunks[i].chunk_number == n {
            assert(is_first_chunk(chunks@, n, i as int));
            let ghost f = first_chunk(chunks@, n);
            assert(is_first_chunk(chunks@, n, f));
            assert(f == i) by {
                if f < i {
                    assert(chunks@[f].chunk_number != n);
                } else if f > i {
                    assert(chunks@[i as int].chunk_number != n);
                }
            }
            return Some(i);
        }
        i = i + 1;
    }
    None
}

/// What destroying the block at world column `x`, world row `y` does to
/// terrain `before`, giving `after` and outcome `r`.
pub open spec fn destroyed(
    before: Terrain,
    after: Terrain,
    x: usize,
    y: usize,
    r: Result<Block, DestroyBlockError>,
) -> bool {
    let n = (y / CHUNK_HEIGHT) as u64;
    &&& chunks_wf(after.chunks@)
    &&& x >= CHUNK_WIDTH ==> r == Err::<Block, DestroyBlockError>(DestroyBlockError::InvalidX)
    &&& x < CHUNK_WIDTH && !has_chunk(before.chunks@, n) ==> r == Err::<Block, DestroyBlockError>(
        DestroyBlockError::ChunkNotLoaded,
    )
    &&& x < CHUNK_WIDTH && has_chunk(before.chunks@, n) ==> match world_cell(
        before.chunks@,
        x as int,
        y as int,
    ) {
        None => r == Err::<Block, DestroyBlockError>(DestroyBlockError::BlockDoesntExist),
        Some(b) => r == Ok::<Block, DestroyBlockError>(b),
    }
    &&& r is Err ==> after == before
    &&& r is Ok ==> {
        let i = first_chunk(before.chunks@, n);
        &&& after.chunks@.len() == before.chunks@.len()
        &&& before.chunks@[i].with_cell(after.chunks@[i], (y % CHUNK_HEIGHT) as int, x as int, None)
        &&& forall|j: int|
            0 <= j < before.chunks@.len() && j != i ==> #[trigger] after.chunks@[j]
                == before.chunks@[j]
    }
}

/// Destroys the block at world column `x`, world row `y` (row 0 at the
/// surface) and returns it. Fails with `InvalidX` outside the chunk width,
/// with `ChunkNotLoaded` where no chunk holds the row, and with
/// `BlockDoesntExist` where the cell is empty; a failure leaves the terrain
/// as it was.
pub fn destroy_block(x: usize, y: usize, terrain: &mut Terrain) -> (r: Result<
    Block,
    DestroyBlockError,
>)
    requires
        chunks_wf(old(terrain).chunks@),
    ensures
        destroyed(*old(terrain), *final(terrain), x, y, r),
{
    let chunk_number = y / CHUNK_HEIGHT;
    let row = y % CHUNK_HEIGHT;
    if x >= CHUNK_WIDTH {
        return Err(DestroyBlockError::InvalidX);
    }
    match find_chunk(&terrain.chunks, chunk_number as u64) {
        None => Err(DestroyBlockError::ChunkNotLoaded),
        Some(i) => {
            assert(terrain.chunks@[i as int].wf());
            match terrain.chunks[i].blocks[row][x] {
                None => Err(DestroyBlockError::BlockDoesntExist),
                Some(block) => {
                    terrain.chunks[i].set_cell(row, x, None);
                    assert forall|j: int| 0 <= j < terrain.chunks@.len() implies (
                    #[trigger] terrain.chunks@[j]).wf() by {
                        if j != i {
                            assert(terrain.chunks@[j] == old(terrain).chunks@[j]);
                        }
                    }
                    Ok(block)
                },
            }
        },
    }
}

/// Destroying a block empties its cell: destroying the same cell again fails
/// with `BlockDoesntExist` and changes nothing.
pub proof fn lemma_destroy_twice(
    t0: Terrain,
    t1: Terrain,
    t2: Terrain,
    x: usize,
    y: usize,
    r1: Result<Block, DestroyBlockError>,
    r2: Result<Block, DestroyBlockError>,
)
    requires
        chunks_wf(t0.chunks@),
        destroyed(t0, t1, x, y, r1),
        destroyed(t1, t2, x, y, r2),
        r1 is Ok,
    ensures
        r2 == Err::<Block, DestroyBlockError>(DestroyBlockError::BlockDoesntExist),
        t2 == t1,
{
    let n = (y / CHUNK_HEIGHT) as u64;
    let i = first_chunk(t0.chunks@, n);
    assert(x < CHUNK_WIDTH);
    assert(has_chunk(t0.chunks@, n));
    let w = choose|w: int| 0 <= w < t0.chunks@.len() && (#[trigger] t0.chunks@[w]).chunk_number == n;
    lemma_first_exists(t0.chunks@, n, w);
    assert(is_first_chunk(t0.chunks@, n, i));
    assert forall|j: int| 0 <= j < t1.chunks@.len() implies (#[trigger] t1.chunks@[j]).chunk_number
        == t0.chunks@[j].chunk_number by {
        if j != i {
            assert(t1.chunks@[j] == t0.chunks@[j]);
        }
    }
    assert(is_first_chunk(t1.chunks@, n, i));
    assert(has_chunk(t1.chunks@, n));
    lemma_first_unique(t1.chunks@, n, i, first_chunk(t1.chunks@, n));
    lemma_row_in_chunk(y);
}

/// Where some chunk is numbered `n`, a first one is.
proof fn lemma_first_exists(chunks: Seq<Chunk>, n: u64, w: int)
    requires
        0 <= w < chunks.len(),
        chunks[w].chunk_number == n,
    ensures
        is_first_chunk(chunks, n, first_chunk(chunks, n)),
    decreases w,
{
    if exists|j: int| 0 <= j < w && (#[trigger] chunks[j]).chunk_number == n {
        let j = choose|j: int| 0 <= j < w && (#[trigger] chunks[j]).chunk_number == n;
        lemma_first_exists(chunks, n, j);
    } else {
        assert(is_first_chunk(chunks, n, w));
    }
}

/// There is one first chunk numbered `n`.
proof fn lemma_first_unique(chunks: Seq<Chunk>, n: u64, i: int, j: int)
    requires
        is_first_chunk(chunks, n, i),
    ensures
        is_first_chunk(chunks, n, j) ==> i == j,
{
    if is_first_chunk(chunks, n, j) {
        if i < j {
            assert(chunks[i].chunk_number != n);
        } else if j < i {
            assert(chunks[j].chunk_number != n);
        }
    }
}

/// The row of world row `y` within its chunk lies inside the chunk.
proof fn lemma_row_in_chunk(y: usize)
    ensures
        0 <= ((y % CHUNK_HEIGHT) as int) < CHUNK_HEIGHT,
{
}

/// Whether a block stands at world column `x`, world row `y`.
pub fn block_exists(x: usize, y: usize, terrain: &Terrain) -> (r: bool)
    requires
        chunks_wf(terrain.chunks@),
    ensures
        r == (x < CHUNK_WIDTH && has_chunk(terrain.chunks@, (y / CHUNK_HEIGHT) as u64)
            && world_cell(terrain.chunks@, x as int, y as int) is Some),
{
    let chunk_number = y / CHUNK_HEIGHT;
    let row = y % CHUNK_HEIGHT;
    if x >= CHUNK_WIDTH {
        return false;
    }
    match find_chunk(&terrain.chunks, chunk_number as u64) {
        None => false,
        Some(i) => {
            assert(terrain.chunks@[i as int].wf());
            terrain.chunks[i].blocks[row][x].is_some()
        },
    }
}

/// Grows a numbered store so that, for every player depth in
/// `player_depths`, the chunks from that depth down to `GEN_CHUNKS_AHEAD - 1`
/// below it exist. Missing chunks are made by `build` and appended in
/// increasing order from the deepest one held; nothing is inserted, removed
/// or reordered.
pub fn check_generate_new_chunks<F: Fn(u64) -> Chunk>(
    player_depths: &Vec<u64>,
    terrain: &mut Terrain,
    build: F,
)
    requires
        numbered(old(terrain).chunks@),
        forall|k: int|
            0 <= k < player_depths@.len() ==> #[trigger] player_depths@[k] <= u64::MAX
                - GEN_CHUNKS_AHEAD,
        forall|n: u64| build.requires((n,)),
        forall|n: u64, c: Chunk| build.ensures((n,), c) ==> c.chunk_number == n,
    ensures
        numbered(final(terrain).chunks@),
        final(terrain).chunks@.len() == needed_len(
            old(terrain).chunks@.len() as int,
            player_depths@,
        ),
        final(terrain).chunks@.subrange(0, old(terrain).chunks@.len() as int)
            == old(terrain).chunks@,
        forall|i: int|
            old(terrain).chunks@.len() <= i < final(terrain).chunks@.len() ==> build.ensures(
                (i as u64,),
                #[trigger] final(terrain).chunks@[i],
            ),
        forall|k: int|
            0 <= k < player_depths@.len() ==> #[trigger] player_depths@[k] + GEN_CHUNKS_AHEAD
                <= final(terrain).chunks@.len(),
        forall|k: int, d: u64|
            #![trigger player_depths@[k], has_chunk(final(terrain).chunks@, d)]
            0 <= k < player_depths@.len() && player_depths@[k] <= d < player_depths@[k]
                + GEN_CHUNKS_AHEAD ==> has_chunk(final(terrain).chunks@, d),
{
    let ghost start = terrain.chunks@;
    let mut p: usize = 0;
    while p < player_depths.len()
        invariant
            p <= player_depths@.len(),
            numbered(terrain.chunks@),
            start.len() <= terrain.chunks@.len(),
            terrain.chunks@.len() == needed_len(start.len() as int, player_depths@.take(p as int)),
            terrain.chunks@.subrange(0, start.len() as int) == start,
            forall|i: int|
                start.len() <= i < terrain.chunks@.len() ==> build.ensures(
                    (i as u64,),
                    #[trigger] terrain.chunks@[i],
                ),
            forall|k: int|
                0 <= k < p ==> #[trigger] player_depths@[k] + GEN_CHUNKS_AHEAD
                    <= terrain.chunks@.len(),
            forall|k: int|
                0 <= k < player_depths@.len() ==> #[trigger] player_depths@[k] <= u64::MAX
                    - GEN_CHUNKS_AHEAD,
            forall|n: u64| build.requires((n,)),
            forall|n: u64, c: Chunk| build.ensures((n,), c) ==> c.chunk_number == n,
        decreases player_depths@.len() - p,
    {
        let target = player_depths[p] + GEN_CHUNKS_AHEAD;
        let ghost len_before = terrain.chunks@.len();
        while (terrain.chunks.len() as u64) < target
            invariant
                numbered(terrain.chunks@),
                len_before <= terrain.chunks@.len(),
                terrain.chunks@.len() <= len_before || terrain.chunks@.len() <= target,
                start.len() <= len_before,
                terrain.chunks@.subrange(0, start.len() as int) == start,
                forall|i: int|
                    start.len() <= i < terrain.chunks@.len() ==> build.ensures(
                        (i as u64,),
                        #[trigger] terrain.chunks@[i],
                    ),
                forall|n: u64| build.requires((n,)),
                forall|n: u64, c: Chunk| build.ensures((n,), c) ==> c.chunk_number == n,
            decreases target - terrain.chunks@.len(),
        {
            let n = terrain.chunks.len() as u64;
            let chunk = build(n);
            terrain.chunks.push(chunk);
            assert(terrain.chunks@.subrange(0, start.len() as int) == start);
        }
        proof {
            let taken = player_depths@.take(p + 1);
            assert(taken.drop_last() == player_depths@.take(p as int));
            assert(taken.last() == player_depths@[p as int]);
        }
        p = p + 1;
    }
    assert(player_depths@.take(p as int) == player_depths@);
    assert forall|k: int, d: u64|
        #![trigger player_depths@[k], has_chunk(terrain.chunks@, d)]
        0 <= k < player_depths@.len() && player_depths@[k] <= d < player_depths@[k]
            + GEN_CHUNKS_AHEAD implies has_chunk(terrain.chunks@, d) by {
        assert(terrain.chunks@[d as int].chunk_number == d);
    }
}

} // verus!
