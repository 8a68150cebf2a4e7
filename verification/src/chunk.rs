//! Voxel data model: blocks, light levels, biomes, chunks and chunk columns.
//!
//! A chunk is a 16 x 16 x 16 cube of block states with parallel light
//! levels, stored flat in Y-outer, then Z, then X order. A chunk column is
//! the stack of chunks at one (x, z) location together with one optional
//! mesh-handle slot per chunk and a 16 x 16 biome grid shared by the stack.

use vstd::prelude::*;

verus! {

/// A 16-bit opaque block state id; value 0 is "no block" (air).
#[derive(Clone, Copy, PartialEq, Eq, Structural, Debug)]
pub struct BlockState {
    pub value: u16,
}

/// A biome id for one horizontal block column.
#[derive(Clone, Copy, PartialEq, Eq, Structural, Debug)]
pub struct BiomeId {
    pub value: u8,
}

/// Packed light byte: low nibble block-light, high nibble sky-light.
#[derive(Clone, Copy, PartialEq, Eq, Structural, Debug)]
pub struct LightLevel {
    pub value: u8,
}

impl LightLevel {
    /// The block-light component, 0..=15.
    pub fn block_light(self) -> (r: u8)
        ensures
            r == (self.value & 0xf),
            r <= 15,
    {
        proof {
            let v = self.value;
            assert((v & 0xf) <= 15) by (bit_vector);
        }
        self.value & 0xf
    }

    /// The sky-light component, 0..=15.
    pub fn sky_light(self) -> (r: u8)
        ensures
            r == (self.value >> 4),
            r <= 15,
    {
        proof {
            let v = self.value;
            assert((v >> 4) <= 15) by (bit_vector);
        }
        self.value >> 4
    }
}

/// Chunks are cubes of `SIZE` blocks on a side.
pub const SIZE: usize = 16;

/// Number of blocks in one chunk.
pub const CHUNK_VOLUME: usize = 4096;

/// Number of cells in one column's biome grid.
pub const BIOME_AREA: usize = 256;

/// Opaque handle to a GPU vertex buffer produced by the mesh uploader.
#[derive(Clone, Copy, PartialEq, Eq, Structural, Debug)]
pub struct MeshHandle {
    pub id: u64,
}

/// A chunk-grid coordinate: column x/z and vertical slice index y.
#[derive(Clone, Copy, PartialEq, Eq, Structural, Debug)]
pub struct Coords {
    pub x: i32,
    pub y: i32,
    pub z: i32,
}

/// A vector holding `n` copies of `v`.
pub fn fill_vec<T: Copy>(v: T, n: usize) -> (r: Vec<T>)
    ensures
        r@.len() == n,
        forall|i: int| 0 <= i < n ==> r@[i] == v,
{
    let mut out: Vec<T> = Vec::new();
    let mut k: usize = 0;
    while k < n
        invariant
            k <= n,
            out@.len() == k,
            forall|i: int| 0 <= i < k ==> out@[i] == v,
        decreases n - k,
    {
        out.push(v);
        k = k + 1;
    }
    out
}

/// An element-for-element copy of a vector of plain values.
pub fn copy_vec<T: Copy>(v: &Vec<T>) -> (r: Vec<T>)
    ensures
        r@ == v@,
{
    let mut out: Vec<T> = Vec::new();
    let mut k: usize = 0;
    while k < v.len()
        invariant
            k <= v@.len(),
            out@.len() == k,
            forall|i: int| 0 <= i < k ==> out@[i] == v@[i],
        decreases v@.len() - k,
    {
        out.push(v[k]);
        k = k + 1;
    }
    proof {
        assert(out@ =~= v@);
    }
    out
}

/// A 16 x 16 x 16 cube of blocks with parallel light levels, flat in
/// Y-outer, then Z, then X order.
pub struct Chunk {
    pub blocks: Vec<BlockState>,
    pub light_levels: Vec<LightLevel>,
}

/// Mathematical model of a [`Chunk`].
#[verifier::ext_equal]
pub struct ChunkView {
    pub blocks: Seq<BlockState>,
    pub light_levels: Seq<LightLevel>,
}

impl View for Chunk {
    type V = ChunkView;

    open spec fn view(&self) -> ChunkView {
        ChunkView { blocks: self.blocks@, light_levels: self.light_levels@ }
    }
}

impl ChunkView {
    /// Both flat stores hold exactly one cell per block of the cube.
    pub open spec fn wf(self) -> bool {
        &&& self.blocks.len() == CHUNK_VOLUME
        &&& self.light_levels.len() == CHUNK_VOLUME
    }
}

/// The flat cell index of block (x, y, z): Y-outer, then Z, then X.
pub open spec fn block_index(x: int, y: int, z: int) -> int {
    y * 256 + z * 16 + x
}

/// The well-known empty chunk: every block empty, full sky-light and no
/// block-light everywhere.
pub open spec fn empty_chunk() -> ChunkView {
    ChunkView {
        blocks: Seq::new(CHUNK_VOLUME as nat, |i: int| BlockState { value: 0 }),
        light_levels: Seq::new(CHUNK_VOLUME as nat, |i: int| LightLevel { value: 0xf0 }),
    }
}

impl Chunk {
    /// A chunk whose every cell holds the given block and light value.
    pub fn filled(b: BlockState, l: LightLevel) -> (r: Chunk)
        ensures
            r@.wf(),
            forall|i: int| 0 <= i < CHUNK_VOLUME ==> r@.blocks[i] == b,
            forall|i: int| 0 <= i < CHUNK_VOLUME ==> r@.light_levels[i] == l,
    {
        Chunk { blocks: fill_vec(b, CHUNK_VOLUME), light_levels: fill_vec(l, CHUNK_VOLUME) }
    }

    /// The empty-chunk sentinel substituted for unavailable neighbors.
    pub fn empty() -> (r: Chunk)
        ensures
            r@ == empty_chunk(),
    {
        let r = Chunk::filled(BlockState { value: 0 }, LightLevel { value: 0xf0 });
        proof {
            assert(r@.blocks =~= empty_chunk().blocks);
            assert(r@.light_levels =~= empty_chunk().light_levels);
        }
        r
    }

    /// A deep copy whose model equals this chunk's model.
    pub fn duplicate(&self) -> (r: Chunk)
        ensures
            r@ == self@,
    {
        Chunk { blocks: copy_vec(&self.blocks), light_levels: copy_vec(&self.light_levels) }
    }

    /// The block at cube position (x, y, z).
    pub fn block_at(&self, x: usize, y: usize, z: usize) -> (b: BlockState)
        requires
            self@.wf(),
            x < 16,
            y < 16,
            z < 16,
        ensures
            b == self@.blocks[block_index(x as int, y as int, z as int)],
    {
        self.blocks[y * 256 + z * 16 + x]
    }

    /// The light levels at cube position (x, y, z).
    pub fn light_at(&self, x: usize, y: usize, z: usize) -> (l: LightLevel)
        requires
            self@.wf(),
            x < 16,
            y < 16,
            z < 16,
        ensures
            l == self@.light_levels[block_index(x as int, y as int, z as int)],
    {
        self.light_levels[y * 256 + z * 16 + x]
    }

    /// Store a block at cube position (x, y, z); light is unchanged.
    pub fn set_block(&mut self, x: usize, y: usize, z: usize, b: BlockState)
        requires
            old(self)@.wf(),
            x < 16,
            y < 16,
            z < 16,
        ensures
            final(self)@.wf(),
            final(self)@.blocks == old(self)@.blocks.update(
                block_index(x as int, y as int, z as int),
                b,
            ),
            final(self)@.light_levels == old(self)@.light_levels,
    {
        self.blocks.set(y * 256 + z * 16 + x, b);
    }

    /// Whether this chunk's model equals another's, cell for cell.
    pub fn eq_chunk(&self, other: &Chunk) -> (r: bool)
        requires
            self@.wf(),
            other@.wf(),
        ensures
            r == (self@ == other@),
    {
        let mut k: usize = 0;
        while k < CHUNK_VOLUME
            invariant
                self@.wf(),
                other@.wf(),
                k <= CHUNK_VOLUME,
                forall|i: int| 0 <= i < k ==> self@.blocks[i] == other@.blocks[i],
            decreases CHUNK_VOLUME - k,
        {
            if self.blocks[k].value != other.blocks[k].value {
                return false;
            }
            k = k + 1;
        }
        let mut k: usize = 0;
        while k < CHUNK_VOLUME
            invariant
                self@.wf(),
                other@.wf(),
                k <= CHUNK_VOLUME,
                forall|i: int| 0 <= i < CHUNK_VOLUME ==> self@.blocks[i] == other@.blocks[i],
                forall|i: int| 0 <= i < k ==> self@.light_levels[i] == other@.light_levels[i],
            decreases CHUNK_VOLUME - k,
        {
            if self.light_levels[k].value != other.light_levels[k].value {
                return false;
            }
            k = k + 1;
        }
        proof {
            assert(self@.blocks =~= other@.blocks);
            assert(self@.light_levels =~= other@.light_levels);
        }
        true
    }
}

/// The stack of chunks at one (x, z) location, a parallel stack of
/// optional mesh-handle slots, and the column's shared biome grid.
pub struct ChunkColumn {
    pub chunks: Vec<Chunk>,
    pub buffers: Vec<Option<MeshHandle>>,
    pub biomes: Vec<BiomeId>,
}

/// Mathematical model of a [`ChunkColumn`].
#[verifier::ext_equal]
pub struct ChunkColumnView {
    pub chunks: Seq<ChunkView>,
    pub buffers: Seq<Option<MeshHandle>>,
    pub biomes: Seq<BiomeId>,
}

impl View for ChunkColumn {
    type V = ChunkColumnView;

    open spec fn view(&self) -> ChunkColumnView {
        ChunkColumnView {
            chunks: Seq::new(self.chunks@.len(), |i: int| self.chunks@[i]@),
            buffers: self.buffers@,
            biomes: self.biomes@,
        }
    }
}

impl ChunkColumnView {
    /// A column has one mesh slot per chunk slice, at most `SIZE` slices,
    /// a full biome grid, and well-formed chunks.
    pub open spec fn wf(self) -> bool {
        &&& self.buffers.len() == self.chunks.len()
        &&& self.chunks.len() <= SIZE
        &&& self.biomes.len() == BIOME_AREA
        &&& forall|i: int| 0 <= i < self.chunks.len() ==> self.chunks[i].wf()
    }
}

impl ChunkColumn {
    /// A freshly loaded column: every mesh slot starts empty.
    pub fn new(chunks: Vec<Chunk>, biomes: Vec<BiomeId>) -> (r: ChunkColumn)
        requires
            chunks@.len() <= SIZE,
            biomes@.len() == BIOME_AREA,
            forall|i: int| 0 <= i < chunks@.len() ==> chunks@[i]@.wf(),
        ensures
            r@.wf(),
            r@.chunks.len() == chunks@.len(),
            forall|i: int| 0 <= i < chunks@.len() ==> r@.chunks[i] == chunks@[i]@,
            forall|i: int| 0 <= i < chunks@.len() ==> r@.buffers[i] is None,
            r@.biomes == biomes@,
    {
        let n = chunks.len();
        ChunkColumn { chunks, buffers: fill_vec(None, n), biomes }
    }

    /// A deep copy whose model equals this column's model.
    pub fn duplicate(&self) -> (r: ChunkColumn)
        ensures
            r@ == self@,
    {
        let mut chunks: Vec<Chunk> = Vec::new();
        let mut k: usize = 0;
        while k < self.chunks.len()
            invariant
                k <= self.chunks@.len(),
                chunks@.len() == k,
                forall|i: int| 0 <= i < k ==> (#[trigger] chunks@[i])@ == self.chunks@[i]@,
            decreases self.chunks@.len() - k,
        {
            chunks.push(self.chunks[k].duplicate());
            k = k + 1;
        }
        let r = ChunkColumn {
            chunks,
            buffers: copy_vec(&self.buffers),
            biomes: copy_vec(&self.biomes),
        };
        proof {
            assert(r@.chunks =~= self@.chunks);
            assert(r@ =~= self@);
        }
        r
    }

    /// The biome at grid position (x, z).
    pub fn biome_at(&self, x: usize, z: usize) -> (b: BiomeId)
        requires
            self@.wf(),
            x < 16,
            z < 16,
        ensures
            b == self@.biomes[z * 16 + x],
    {
        self.biomes[z * 16 + x]
    }
}

} // verus!
