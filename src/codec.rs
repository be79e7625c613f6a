//! The compact binary form of blocks, chunks, terrains and world deltas.
//!
//! A block is its one-byte kind tag. A cell of a chunk is one byte: 0 for an
//! empty cell, the tag plus one for a block. A chunk is its cells row by row,
//! then its number as eight little-endian bytes. A terrain is its chunk count
//! as eight little-endian bytes, then its chunks. A world delta is a variant
//! byte, 0 for a baseline followed by a terrain, 1 for a block removal
//! followed by the chunk number, column and row as eight little-endian bytes
//! each. The presentation handle of a block is never written, and every
//! decoded block comes without one.
use crate::block::{lemma_tag_round_trip, spec_from_tag, spec_tag, Block, BlockType, BLOCK_TYPE_COUNT};
use crate::chunk::{Chunk, CHUNK_HEIGHT, CHUNK_WIDTH};
use crate::terrain::{chunks_wf, BlockDelete, Terrain, WorldDelta};
use vstd::bytes::{
    lemma_auto_spec_u64_to_from_le_bytes, spec_u64_from_le_bytes, spec_u64_to_le_bytes,
    u64_from_le_bytes, u64_to_le_bytes,
};
use vstd::prelude::*;
use vstd::slice::slice_subrange;

verus! {

/// The cells of one chunk.
pub const CELL_COUNT: usize = CHUNK_HEIGHT * CHUNK_WIDTH;

/// The length of an encoded chunk: one byte per cell and eight for its number.
pub const CHUNK_BYTES: usize = CELL_COUNT + 8;

/// Why bytes could not be decoded.
#[derive(Clone, Copy, Debug, PartialEq, Eq, Structural)]
pub enum DecodeError {
    /// The bytes are too few or too many for what they announce.
    WrongLength,
    /// A block or cell byte names no block kind.
    InvalidTag,
    /// The leading byte of a delta names no variant.
    InvalidVariant,
    /// A position does not fit in `usize`.
    ValueTooLarge,
}

/// The byte that a cell is written as.
pub open spec fn cell_byte(c: Option<Block>) -> u8 {
    match c {
        None => 0,
        Some(b) => (spec_tag(b.block_type) + 1) as u8,
    }
}

/// The cell that a valid cell byte stands for.
pub open spec fn byte_cell(b: u8) -> Option<Block> {
    if b == 0 {
        None
    } else {
        Some(Block { block_type: spec_from_tag((b - 1) as u8)->0, entity: None })
    }
}

/// Two cells hold the same kind of block, or are both empty.
pub open spec fn same_kind(a: Option<Block>, b: Option<Block>) -> bool {
    match (a, b) {
        (None, None) => true,
        (Some(x), Some(y)) => x.block_type == y.block_type,
        _ => false,
    }
}

/// Two chunks have the same number and the same kinds of blocks in every
/// cell; presentation handles do not count.
pub open spec fn same_chunk(a: Chunk, b: Chunk) -> bool {
    &&& a.wf()
    &&& b.wf()
    &&& a.chunk_number == b.chunk_number
    &&& forall|y: int, x: int|
        0 <= y < CHUNK_HEIGHT && 0 <= x < CHUNK_WIDTH ==> same_kind(
            #[trigger] a.cell(y, x),
            b.cell(y, x),
        )
}

/// Two sequences of chunks agree chunk by chunk, as `same_chunk` says.
pub open spec fn same_chunks(a: Seq<Chunk>, b: Seq<Chunk>) -> bool {
    &&& a.len() == b.len()
    &&& forall|i: int| 0 <= i < a.len() ==> same_chunk(#[trigger] a[i], b[i])
}

/// The encoding of a block.
pub open spec fn spec_encode_block(b: Block) -> Seq<u8> {
    seq![spec_tag(b.block_type)]
}

/// The encoding of a chunk.
pub open spec fn spec_encode_chunk(c: Chunk) -> Seq<u8> {
    Seq::new(CELL_COUNT as nat, |k: int| cell_byte(c.cell(k / CHUNK_WIDTH as int, k % CHUNK_WIDTH as int)))
        + spec_u64_to_le_bytes(c.chunk_number)
}

/// The encodings of `chunks`, one after another.
pub open spec fn spec_encode_chunks(chunks: Seq<Chunk>) -> Seq<u8>
    decreases chunks.len(),
{
    if chunks.len() == 0 {
        Seq::empty()
    } else {
        spec_encode_chunks(chunks.drop_last()) + spec_encode_chunk(chunks.last())
    }
}

/// The encoding of a terrain holding `chunks`.
pub open spec fn spec_encode_terrain(chunks: Seq<Chunk>) -> Seq<u8> {
    spec_u64_to_le_bytes(chunks.len() as u64) + spec_encode_chunks(chunks)
}

/// Bytes that decode to a chunk: the right length, and a valid byte for
/// every cell.
pub open spec fn valid_chunk_bytes(s: Seq<u8>) -> bool {
    &&& s.len() == CHUNK_BYTES
    &&& forall|k: int| 0 <= k < CELL_COUNT ==> #[trigger] s[k] <= BLOCK_TYPE_COUNT
}

/// `c` is what the chunk bytes `s` stand for.
pub open spec fn decodes_chunk(s: Seq<u8>, c: Chunk) -> bool {
    &&& c.wf()
    &&& c.chunk_number == spec_u64_from_le_bytes(s.subrange(CELL_COUNT as int, CHUNK_BYTES as int))
    &&& forall|y: int, x: int|
        0 <= y < CHUNK_HEIGHT && 0 <= x < CHUNK_WIDTH ==> #[trigger] c.cell(y, x) == byte_cell(
            s[y * CHUNK_WIDTH + x],
        )
}

/// The bytes of the `i`-th chunk of terrain bytes `s`.
pub open spec fn chunk_slot(s: Seq<u8>, i: int) -> Seq<u8> {
    s.subrange(8 + i * CHUNK_BYTES, 8 + (i + 1) * CHUNK_BYTES)
}

/// The chunk count that terrain bytes `s` announce.
pub open spec fn announced_chunks(s: Seq<u8>) -> int {
    spec_u64_from_le_bytes(s.subrange(0, 8)) as int
}

/// Bytes that decode to a terrain: a count, then exactly that many valid
/// chunks.
pub open spec fn valid_terrain_bytes(s: Seq<u8>) -> bool {
    &&& s.len() >= 8
    &&& s.len() - 8 == announced_chunks(s) * CHUNK_BYTES
    &&& forall|i: int|
        0 <= i < announced_chunks(s) ==> valid_chunk_bytes(#[trigger] chunk_slot(s, i))
}

/// `chunks` are what the terrain bytes `s` stand for.
pub open spec fn decodes_terrain(s: Seq<u8>, chunks: Seq<Chunk>) -> bool {
    &&& chunks.len() == announced_chunks(s)
    &&& forall|i: int| 0 <= i < chunks.len() ==> decodes_chunk(chunk_slot(s, i), #[trigger] chunks[i])
}

/// A cell byte read back gives the cell, without its presentation handle.
proof fn lemma_cell_byte(c: Option<Block>)
    ensures
        cell_byte(c) <= BLOCK_TYPE_COUNT,
        same_kind(byte_cell(cell_byte(c)), c),
        byte_cell(cell_byte(c)) is Some ==> byte_cell(cell_byte(c))->0.entity is None,
{
    if let Some(b) = c {
        lemma_tag_round_trip(b.block_type);
    }
}

/// Where cell (`y`, `x`) lies in the row-by-row order.
proof fn lemma_cell_index(y: int, x: int)
    requires
        0 <= y < CHUNK_HEIGHT,
        0 <= x < CHUNK_WIDTH,
    ensures
        0 <= y * CHUNK_WIDTH + x < CELL_COUNT,
        (y * CHUNK_WIDTH + x) / CHUNK_WIDTH as int == y,
        (y * CHUNK_WIDTH + x) % CHUNK_WIDTH as int == x,
{
    assert(0 <= y * 128 + x < 8192) by (nonlinear_arith)
        requires
            0 <= y < 64,
            0 <= x < 128,
    ;
    vstd::arithmetic::div_mod::lemma_fundamental_div_mod_converse(
        y * 128 + x,
        128,
        y,
        x,
    );
}

/// The encodings of `chunks` have one slot of `CHUNK_BYTES` per chunk, in
/// order.
proof fn lemma_chunks_layout(chunks: Seq<Chunk>)
    ensures
        spec_encode_chunks(chunks).len() == chunks.len() * CHUNK_BYTES,
        forall|i: int|
            0 <= i < chunks.len() ==> #[trigger] spec_encode_chunks(chunks).subrange(
                i * CHUNK_BYTES,
                (i + 1) * CHUNK_BYTES,
            ) == spec_encode_chunk(chunks[i]),
    decreases chunks.len(),
{
    lemma_auto_spec_u64_to_from_le_bytes();
    if chunks.len() > 0 {
        let init = chunks.drop_last();
        lemma_chunks_layout(init);
        let n = chunks.len() - 1;
        let all = spec_encode_chunks(chunks);
        let front = spec_encode_chunks(init);
        assert(spec_encode_chunk(chunks.last()).len() == CHUNK_BYTES);
        assert(n * CHUNK_BYTES + CHUNK_BYTES == chunks.len() * CHUNK_BYTES) by (nonlinear_arith)
            requires
                n == chunks.len() - 1,
        ;
        assert forall|i: int| 0 <= i < chunks.len() implies #[trigger] all.subrange(
            i * CHUNK_BYTES,
            (i + 1) * CHUNK_BYTES,
        ) == spec_encode_chunk(chunks[i]) by {
            assert((i + 1) * CHUNK_BYTES == i * CHUNK_BYTES + CHUNK_BYTES) by (nonlinear_arith);
            assert(front.len() == n * CHUNK_BYTES);
            assert(all.len() == front.len() + CHUNK_BYTES);
            if i < n {
                assert((i + 1) * CHUNK_BYTES <= n * CHUNK_BYTES) by (nonlinear_arith)
                    requires
                        i < n,
                ;
                assert(0 <= i * CHUNK_BYTES) by (nonlinear_arith)
                    requires
                        0 <= i,
                ;
                assert(all.subrange(i * CHUNK_BYTES, (i + 1) * CHUNK_BYTES) =~= front.subrange(
                    i * CHUNK_BYTES,
                    (i + 1) * CHUNK_BYTES,
                ));
                assert(init[i] == chunks[i]);
            } else {
                assert(all.subrange(i * CHUNK_BYTES, (i + 1) * CHUNK_BYTES) =~= spec_encode_chunk(
                    chunks.last(),
                ));
            }
        }
    }
}

/// Decoding an encoded block gives back its kind, without a presentation
/// handle.
pub proof fn lemma_block_round_trip(b: Block)
    ensures
        spec_encode_block(b).len() == 1,
        spec_encode_block(b)[0] < BLOCK_TYPE_COUNT,
        spec_from_tag(spec_encode_block(b)[0]) == Some(b.block_type),
{
    lemma_tag_round_trip(b.block_type);
}

/// An encoded chunk is valid chunk bytes, and what it decodes to has the
/// chunk's number and the kinds of all its cells.
pub proof fn lemma_chunk_round_trip(c: Chunk)
    requires
        c.wf(),
    ensures
        valid_chunk_bytes(spec_encode_chunk(c)),
        forall|d: Chunk| #[trigger] decodes_chunk(spec_encode_chunk(c), d) ==> same_chunk(c, d),
{
    lemma_auto_spec_u64_to_from_le_bytes();
    let s = spec_encode_chunk(c);
    assert forall|k: int| 0 <= k < CELL_COUNT implies #[trigger] s[k] <= BLOCK_TYPE_COUNT by {
        lemma_cell_byte(c.cell(k / CHUNK_WIDTH as int, k % CHUNK_WIDTH as int));
    }
    assert(s.subrange(CELL_COUNT as int, CHUNK_BYTES as int) =~= spec_u64_to_le_bytes(
        c.chunk_number,
    ));
    assert forall|d: Chunk| #[trigger] decodes_chunk(s, d) implies same_chunk(c, d) by {
        assert forall|y: int, x: int| 0 <= y < CHUNK_HEIGHT && 0 <= x < CHUNK_WIDTH implies same_kind(
            #[trigger] c.cell(y, x),
            d.cell(y, x),
        ) by {
            lemma_cell_index(y, x);
            lemma_cell_byte(c.cell(y, x));
        }
    }
}

/// An encoded terrain is valid terrain bytes, and what it decodes to agrees
/// with the terrain's chunks one by one.
pub proof fn lemma_terrain_round_trip(chunks: Seq<Chunk>)
    requires
        chunks.len() <= u64::MAX,
        forall|i: int| 0 <= i < chunks.len() ==> (#[trigger] chunks[i]).wf(),
    ensures
        valid_terrain_bytes(spec_encode_terrain(chunks)),
        forall|d: Seq<Chunk>| #[trigger] decodes_terrain(spec_encode_terrain(chunks), d) ==> same_chunks(chunks, d),
{
    lemma_auto_spec_u64_to_from_le_bytes();
    lemma_chunks_layout(chunks);
    let s = spec_encode_terrain(chunks);
    let body = spec_encode_chunks(chunks);
    assert(s.subrange(0, 8) =~= spec_u64_to_le_bytes(chunks.len() as u64));
    assert forall|i: int| 0 <= i < chunks.len() implies #[trigger] chunk_slot(s, i)
        == spec_encode_chunk(chunks[i]) by {
        assert((i + 1) * CHUNK_BYTES <= chunks.len() * CHUNK_BYTES) by (nonlinear_arith)
            requires
                i < chunks.len(),
        ;
        assert(0 <= i * CHUNK_BYTES) by (nonlinear_arith)
            requires
                0 <= i,
        ;
        assert((i + 1) * CHUNK_BYTES == i * CHUNK_BYTES + CHUNK_BYTES) by (nonlinear_arith);
        assert(s.len() == 8 + chunks.len() * CHUNK_BYTES);
        assert(chunk_slot(s, i) =~= body.subrange(i * CHUNK_BYTES, (i + 1) * CHUNK_BYTES));
    }
    assert forall|i: int| 0 <= i < announced_chunks(s) implies valid_chunk_bytes(
        #[trigger] chunk_slot(s, i),
    ) by {
        lemma_chunk_round_trip(chunks[i]);
    }
    assert forall|d: Seq<Chunk>| #[trigger] decodes_terrain(s, d) implies same_chunks(chunks, d) by {
        assert forall|i: int| 0 <= i < chunks.len() implies same_chunk(#[trigger] chunks[i], d[i]) by {
            lemma_chunk_round_trip(chunks[i]);
            assert(decodes_chunk(chunk_slot(s, i), d[i]));
        }
    }
}

/// Appends `more` to `out`.
fn append_bytes(out: &mut Vec<u8>, more: &Vec<u8>)
    ensures
        final(out)@ == old(out)@ + more@,
{
    let mut i: usize = 0;
    while i < more.len()
        invariant
            i <= more@.len(),
            out@ == old(out)@ + more@.take(i as int),
        decreases more@.len() - i,
    {
        out.push(more[i]);
        assert(more@.take(i + 1) == more@.take(i as int).push(more@[i as int]));
        i = i + 1;
    }
    assert(more@.take(more@.len() as int) == more@);
}

/// The byte that a cell is written as.
fn encode_cell(c: &Option<Block>) -> (r: u8)
    ensures
        r == cell_byte(*c),
{
    match c {
        None => 0,
        Some(b) => b.block_type.tag() + 1,
    }
}

/// The cell that cell byte `b` stands for, or `None` where `b` is no cell
/// byte.
fn decode_cell(b: u8) -> (r: Option<Option<Block>>)
    ensures
        r is Some <==> b <= BLOCK_TYPE_COUNT,
        r is Some ==> r->0 == byte_cell(b),
{
    if b == 0 {
        Some(None)
    } else {
        match BlockType::from_tag(b - 1) {
            Some(t) => Some(Some(Block::new(t))),
            None => None,
        }
    }
}

impl Block {
    /// Writes the block as its kind tag.
    pub fn encode(&self) -> (r: Vec<u8>)
        ensures
            r@ == spec_encode_block(*self),
    {
        let mut out: Vec<u8> = Vec::new();
        out.push(self.block_type.tag());
        out
    }

    /// Reads a block from exactly one tag byte.
    pub fn decode(bytes: &[u8]) -> (r: Result<Block, DecodeError>)
        ensures
            bytes@.len() != 1 ==> r == Err::<Block, DecodeError>(DecodeError::WrongLength),
            bytes@.len() == 1 && bytes@[0] >= BLOCK_TYPE_COUNT ==> r == Err::<Block, DecodeError>(
                DecodeError::InvalidTag,
            ),
            bytes@.len() == 1 && bytes@[0] < BLOCK_TYPE_COUNT ==> r == Ok::<Block, DecodeError>(
                Block { block_type: spec_from_tag(bytes@[0])->0, entity: None },
            ),
    {
        if bytes.len() != 1 {
            return Err(DecodeError::WrongLength);
        }
        match BlockType::from_tag(bytes[0]) {
            Some(t) => Ok(Block::new(t)),
            None => Err(DecodeError::InvalidTag),
        }
    }
}

impl Chunk {
    /// Writes the chunk's cells row by row, then its number.
    pub fn encode(&self) -> (r: Vec<u8>)
        requires
            self.wf(),
        ensures
            r@ == spec_encode_chunk(*self),
    {
        let mut out: Vec<u8> = Vec::new();
        let mut y: usize = 0;
        while y < CHUNK_HEIGHT
            invariant
                self.wf(),
                y <= CHUNK_HEIGHT,
                out@.len() == y * CHUNK_WIDTH,
                forall|k: int|
                    0 <= k < out@.len() ==> #[trigger] out@[k] == cell_byte(
                        self.cell(k / CHUNK_WIDTH as int, k % CHUNK_WIDTH as int),
                    ),
            decreases CHUNK_HEIGHT - y,
        {
            let mut x: usize = 0;
            while x < CHUNK_WIDTH
                invariant
                    self.wf(),
                    y < CHUNK_HEIGHT,
                    x <= CHUNK_WIDTH,
                    out@.len() == y * CHUNK_WIDTH + x,
                    forall|k: int|
                        0 <= k < out@.len() ==> #[trigger] out@[k] == cell_byte(
                            self.cell(k / CHUNK_WIDTH as int, k % CHUNK_WIDTH as int),
                        ),
                decreases CHUNK_WIDTH - x,
            {
                proof {
                    lemma_cell_index(y as int, x as int);
                }
                let b = encode_cell(&self.blocks[y][x]);
                out.push(b);
                x = x + 1;
            }
            y = y + 1;
        }
        assert(out@ =~= Seq::new(
            CELL_COUNT as nat,
            |k: int| cell_byte(self.cell(k / CHUNK_WIDTH as int, k % CHUNK_WIDTH as int)),
        ));
        let number = u64_to_le_bytes(self.chunk_number);
        append_bytes(&mut out, &number);
        out
    }

    /// Reads a chunk from exactly `CHUNK_BYTES` bytes.
    pub fn decode(bytes: &[u8]) -> (r: Result<Chunk, DecodeError>)
        ensures
            bytes@.len() != CHUNK_BYTES ==> r == Err::<Chunk, DecodeError>(
                DecodeError::WrongLength,
            ),
            bytes@.len() == CHUNK_BYTES && !valid_chunk_bytes(bytes@) ==> r == Err::<
                Chunk,
                DecodeError,
            >(DecodeError::InvalidTag),
            r is Ok <==> valid_chunk_bytes(bytes@),
            r is Ok ==> decodes_chunk(bytes@, r->Ok_0),
    {
        if bytes.len() != CHUNK_BYTES {
            return Err(DecodeError::WrongLength);
        }
        let mut blocks: Vec<Vec<Option<Block>>> = Vec::new();
        let mut y: usize = 0;
        while y < CHUNK_HEIGHT
            invariant
                bytes@.len() == CHUNK_BYTES,
                y <= CHUNK_HEIGHT,
                blocks@.len() == y,
                forall|k: int| 0 <= k < y * CHUNK_WIDTH ==> #[trigger] bytes@[k] <= BLOCK_TYPE_COUNT,
                forall|i: int| 0 <= i < y ==> (#[trigger] blocks@[i])@.len() == CHUNK_WIDTH,
                forall|i: int, j: int|
                    0 <= i < y && 0 <= j < CHUNK_WIDTH ==> #[trigger] blocks@[i]@[j] == byte_cell(
                        bytes@[i * CHUNK_WIDTH + j],
                    ),
            decreases CHUNK_HEIGHT - y,
        {
            let mut row: Vec<Option<Block>> = Vec::new();
            let mut x: usize = 0;
            while x < CHUNK_WIDTH
                invariant
                    bytes@.len() == CHUNK_BYTES,
                    y < CHUNK_HEIGHT,
                    x <= CHUNK_WIDTH,
                    row@.len() == x,
                    forall|k: int|
                        0 <= k < y * CHUNK_WIDTH + x ==> #[trigger] bytes@[k] <= BLOCK_TYPE_COUNT,
                    forall|j: int|
                        0 <= j < x ==> #[trigger] row@[j] == byte_cell(
                            bytes@[y * CHUNK_WIDTH + j],
                        ),
                decreases CHUNK_WIDTH - x,
            {
                proof {
                    lemma_cell_index(y as int, x as int);
                }
                let k = y * CHUNK_WIDTH + x;
                match decode_cell(bytes[k]) {
                    Some(cell) => row.push(cell),
                    None => {
                        return Err(DecodeError::InvalidTag);
                    },
                }
                x = x + 1;
            }
            blocks.push(row);
            y = y + 1;
        }
        let number = u64_from_le_bytes(slice_subrange(bytes, CELL_COUNT, CHUNK_BYTES));
        Ok(Chunk { blocks, chunk_number: number })
    }
}

impl Terrain {
    /// Writes the chunk count, then every chunk in order.
    pub fn encode(&self) -> (r: Vec<u8>)
        requires
            chunks_wf(self.chunks@),
        ensures
            r@ == spec_encode_terrain(self.chunks@),
    {
        let mut out = u64_to_le_bytes(self.chunks.len() as u64);
        let mut i: usize = 0;
        while i < self.chunks.len()
            invariant
                chunks_wf(self.chunks@),
                i <= self.chunks@.len(),
                out@ == spec_u64_to_le_bytes(self.chunks@.len() as u64) + spec_encode_chunks(
                    self.chunks@.take(i as int),
                ),
            decreases self.chunks@.len() - i,
        {
            assert(self.chunks@[i as int].wf());
            let bytes = self.chunks[i].encode();
            append_bytes(&mut out, &bytes);
            let ghost taken = self.chunks@.take(i + 1);
            assert(taken.drop_last() == self.chunks@.take(i as int));
            assert(taken.last() == self.chunks@[i as int]);
            i = i + 1;
        }
        assert(self.chunks@.take(i as int) == self.chunks@);
        out
    }

    /// Reads a terrain: a chunk count, then exactly that many chunks.
    pub fn decode(bytes: &[u8]) -> (r: Result<Terrain, DecodeError>)
        ensures
            r is Ok <==> valid_terrain_bytes(bytes@),
            r is Ok ==> chunks_wf(r->Ok_0.chunks@) && decodes_terrain(bytes@, r->Ok_0.chunks@),
            (bytes@.len() < 8 || bytes@.len() - 8 != announced_chunks(bytes@) * CHUNK_BYTES) ==> r
                == Err::<Terrain, DecodeError>(DecodeError::WrongLength),
            r is Err && bytes@.len() >= 8 && bytes@.len() - 8 == announced_chunks(bytes@)
                * CHUNK_BYTES ==> r == Err::<Terrain, DecodeError>(DecodeError::InvalidTag),
    {
        if bytes.len() < 8 {
            return Err(DecodeError::WrongLength);
        }
        let count = u64_from_le_bytes(slice_subrange(bytes, 0, 8));
        assert(count == announced_chunks(bytes@));
        let rest = bytes.len() - 8;
        let slots = rest / CHUNK_BYTES;
        proof {
            vstd::arithmetic::div_mod::lemma_fundamental_div_mod(rest as int, CHUNK_BYTES as int);
        }
        if rest % CHUNK_BYTES != 0 || slots as u64 != count {
            proof {
                if rest == count * CHUNK_BYTES {
                    vstd::arithmetic::div_mod::lemma_fundamental_div_mod_converse(
                        rest as int,
                        CHUNK_BYTES as int,
                        count as int,
                        0,
                    );
                }
            }
            return Err(DecodeError::WrongLength);
        }
        assert(rest == slots * CHUNK_BYTES) by (nonlinear_arith)
            requires
                rest == CHUNK_BYTES * slots + 0,
        ;
        let total = bytes.len();
        let mut chunks: Vec<Chunk> = Vec::new();
        let mut i: usize = 0;
        while i < slots
            invariant
                i <= slots,
                slots == count,
                count == announced_chunks(bytes@),
                bytes@.len() == 8 + slots * CHUNK_BYTES,
                total == bytes@.len(),
                chunks@.len() == i,
                chunks_wf(chunks@),
                forall|j: int|
                    0 <= j < i ==> decodes_chunk(chunk_slot(bytes@, j), #[trigger] chunks@[j]),
                forall|j: int| 0 <= j < i ==> valid_chunk_bytes(#[trigger] chunk_slot(bytes@, j)),
            decreases slots - i,
        {
            assert((i + 1) * CHUNK_BYTES <= slots * CHUNK_BYTES) by (nonlinear_arith)
                requires
                    i < slots,
            ;
            assert((i + 1) * CHUNK_BYTES == i * CHUNK_BYTES + CHUNK_BYTES) by (nonlinear_arith);
            let start = 8 + i * CHUNK_BYTES;
            let slot = slice_subrange(bytes, start, start + CHUNK_BYTES);
            assert(slot@ == chunk_slot(bytes@, i as int));
            match Chunk::decode(slot) {
                Ok(c) => {
                    chunks.push(c);
                },
                Err(_) => {
                    return Err(DecodeError::InvalidTag);
                },
            }
            i = i + 1;
        }
        Ok(Terrain { chunks })
    }
}

/// The encoding of a world delta.
pub open spec fn spec_encode_delta(d: WorldDelta) -> Seq<u8> {
    match d {
        WorldDelta::NewChunks(t) => seq![0u8] + spec_encode_terrain(t.chunks@),
        WorldDelta::BlockDelete(b) => seq![1u8] + spec_u64_to_le_bytes(b.chunk_number)
            + spec_u64_to_le_bytes(b.x as u64) + spec_u64_to_le_bytes(b.y as u64),
    }
}

/// The eight-byte word at `start` of `s`.
pub open spec fn word_at(s: Seq<u8>, start: int) -> u64 {
    spec_u64_from_le_bytes(s.subrange(start, start + 8))
}

/// Bytes that decode to a world delta.
pub open spec fn valid_delta_bytes(s: Seq<u8>) -> bool {
    &&& s.len() >= 1
    &&& {
        ||| s[0] == 0 && valid_terrain_bytes(s.drop_first())
        ||| s[0] == 1 && s.len() == 25 && word_at(s, 9) <= usize::MAX && word_at(s, 17)
            <= usize::MAX
    }
}

/// `d` is what the delta bytes `s` stand for.
pub open spec fn decodes_delta(s: Seq<u8>, d: WorldDelta) -> bool {
    match d {
        WorldDelta::NewChunks(t) => s[0] == 0 && chunks_wf(t.chunks@) && decodes_terrain(
            s.drop_first(),
            t.chunks@,
        ),
        WorldDelta::BlockDelete(b) => s[0] == 1 && b.chunk_number == word_at(s, 1) && b.x
            == word_at(s, 9) && b.y == word_at(s, 17),
    }
}

/// Reads one little-endian word at `start`.
fn read_word(bytes: &[u8], start: usize) -> (r: u64)
    requires
        start + 8 <= bytes@.len(),
    ensures
        r == word_at(bytes@, start as int),
{
    let _n = bytes.len();
    u64_from_le_bytes(slice_subrange(bytes, start, start + 8))
}

impl WorldDelta {
    /// Writes the variant byte, then the baseline terrain or the removal's
    /// chunk number, column and row.
    pub fn encode(&self) -> (r: Vec<u8>)
        requires
            self is NewChunks ==> chunks_wf(self->NewChunks_0.chunks@),
        ensures
            r@ == spec_encode_delta(*self),
    {
        let mut out: Vec<u8> = Vec::new();
        match self {
            WorldDelta::NewChunks(t) => {
                out.push(0);
                let bytes = t.encode();
                append_bytes(&mut out, &bytes);
            },
            WorldDelta::BlockDelete(b) => {
                out.push(1);
                let n = u64_to_le_bytes(b.chunk_number);
                append_bytes(&mut out, &n);
                let x = u64_to_le_bytes(b.x as u64);
                append_bytes(&mut out, &x);
                let y = u64_to_le_bytes(b.y as u64);
                append_bytes(&mut out, &y);
            },
        }
        out
    }

    /// Reads a world delta. Fails with `InvalidVariant` on a leading byte
    /// other than 0 and 1, with `ValueTooLarge` where a removal's position
    /// does not fit in `usize`, and as the terrain decoder does on a bad
    /// baseline.
    pub fn decode(bytes: &[u8]) -> (r: Result<WorldDelta, DecodeError>)
        ensures
            r is Ok <==> valid_delta_bytes(bytes@),
            r is Ok ==> decodes_delta(bytes@, r->Ok_0),
            bytes@.len() == 0 ==> r == Err::<WorldDelta, DecodeError>(DecodeError::WrongLength),
            bytes@.len() >= 1 && bytes@[0] > 1 ==> r == Err::<WorldDelta, DecodeError>(
                DecodeError::InvalidVariant,
            ),
            bytes@.len() >= 1 && bytes@[0] == 1 && bytes@.len() != 25 ==> r == Err::<
                WorldDelta,
                DecodeError,
            >(DecodeError::WrongLength),
            bytes@.len() == 25 && bytes@[0] == 1 && !valid_delta_bytes(bytes@) ==> r == Err::<
                WorldDelta,
                DecodeError,
            >(DecodeError::ValueTooLarge),
    {
        if bytes.len() == 0 {
            return Err(DecodeError::WrongLength);
        }
        if bytes[0] == 0 {
            let rest = slice_subrange(bytes, 1, bytes.len());
            assert(rest@ == bytes@.drop_first());
            match Terrain::decode(rest) {
                Ok(t) => Ok(WorldDelta::NewChunks(t)),
                Err(e) => Err(e),
            }
        } else if bytes[0] == 1 {
            if bytes.len() != 25 {
                return Err(DecodeError::WrongLength);
            }
            let chunk_number = read_word(bytes, 1);
            let x = read_word(bytes, 9);
            let y = read_word(bytes, 17);
            if x > usize::MAX as u64 || y > usize::MAX as u64 {
                return Err(DecodeError::ValueTooLarge);
            }
            Ok(WorldDelta::BlockDelete(BlockDelete { chunk_number, x: x as usize, y: y as usize }))
        } else {
            Err(DecodeError::InvalidVariant)
        }
    }
}

/// Encoded sizes are strictly ordered: a terrain of one chunk is longer than
/// a chunk, and a chunk is longer than a block.
pub proof fn lemma_encoded_sizes(c: Chunk, b: Block)
    ensures
        spec_encode_terrain(seq![c]).len() > spec_encode_chunk(c).len(),
        spec_encode_chunk(c).len() > spec_encode_block(b).len(),
{
    lemma_auto_spec_u64_to_from_le_bytes();
    lemma_chunks_layout(seq![c]);
}

} // verus!
