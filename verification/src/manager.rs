//! The chunk manager: spatial index of loaded columns, the pending
//! mesh-request queue, the neighborhood stitcher and the load scheduler.
//!
//! Columns are keyed uniquely by their integer (x, z) coordinates. Pending
//! mesh work is queued as slice coordinates and popped nearest-first; the
//! 3 x 3 x 3 neighborhood a mesh build needs is re-resolved from the index
//! when a request is popped, so no request holds references into the index.

use vstd::prelude::*;

use crate::chunk::{
    BiomeId, Chunk, ChunkColumn, ChunkColumnView, ChunkView, Coords, MeshHandle, empty_chunk,
    copy_vec,
};

verus! {

/// One loaded column and its key in the spatial index.
pub struct ColumnEntry {
    pub x: i32,
    pub z: i32,
    pub column: ChunkColumn,
}

/// Mathematical model of a [`ColumnEntry`].
#[verifier::ext_equal]
pub struct ColumnEntryView {
    pub x: i32,
    pub z: i32,
    pub column: ChunkColumnView,
}

impl View for ColumnEntry {
    type V = ColumnEntryView;

    open spec fn view(&self) -> ColumnEntryView {
        ColumnEntryView { x: self.x, z: self.z, column: self.column@ }
    }
}

/// Whether an entry is keyed (x, z).
pub open spec fn key_is(e: ColumnEntryView, x: int, z: int) -> bool {
    e.x as int == x && e.z as int == z
}

/// Whether two entries share their key.
pub open spec fn same_key(a: ColumnEntryView, b: ColumnEntryView) -> bool {
    a.x == b.x && a.z == b.z
}

/// Owns the loaded chunk columns and the queue of pending mesh requests.
pub struct ChunkManager {
    chunk_columns: Vec<ColumnEntry>,
    pending_chunks: Vec<Coords>,
}

/// Mathematical model of a [`ChunkManager`]: the column entries in index
/// order and the pending slice coordinates in queue order.
#[verifier::ext_equal]
pub struct ChunkManagerView {
    pub columns: Seq<ColumnEntryView>,
    pub pending: Seq<Coords>,
}

impl View for ChunkManager {
    type V = ChunkManagerView;

    closed spec fn view(&self) -> ChunkManagerView {
        ChunkManagerView {
            columns: Seq::new(self.chunk_columns@.len(), |i: int| self.chunk_columns@[i]@),
            pending: self.pending_chunks@,
        }
    }
}

impl ChunkManagerView {
    /// Keys are unique and every loaded column is well formed.
    pub open spec fn wf(self) -> bool {
        &&& forall|i: int, j: int|
            0 <= i < j < self.columns.len() ==> !(#[trigger] same_key(
                self.columns[i],
                self.columns[j],
            ))
        &&& forall|i: int| 0 <= i < self.columns.len() ==> (#[trigger] self.columns[i]).column.wf()
    }
}

/// Index of the entry keyed (x, z): the first match, or -1 if none.
pub open spec fn col_index(columns: Seq<ColumnEntryView>, x: int, z: int) -> int
    decreases columns.len(),
{
    if columns.len() == 0 {
        -1
    } else if key_is(columns[0], x, z) {
        0
    } else {
        let r = col_index(columns.drop_first(), x, z);
        if r == -1 {
            -1
        } else {
            r + 1
        }
    }
}

/// Whether a column keyed (x, z) is loaded.
pub open spec fn has_col(columns: Seq<ColumnEntryView>, x: int, z: int) -> bool {
    col_index(columns, x, z) >= 0
}

/// The loaded column keyed (x, z), if any.
pub open spec fn lookup(columns: Seq<ColumnEntryView>, x: int, z: int) -> Option<ChunkColumnView> {
    if has_col(columns, x, z) {
        Some(columns[col_index(columns, x, z)].column)
    } else {
        None
    }
}

/// `col_index` returns -1 exactly when no entry matches, and otherwise the
/// least matching index.
pub proof fn lemma_col_index(columns: Seq<ColumnEntryView>, x: int, z: int)
    ensures
        col_index(columns, x, z) == -1 || 0 <= col_index(columns, x, z) < columns.len(),
        col_index(columns, x, z) == -1 ==> forall|i: int|
            0 <= i < columns.len() ==> !(#[trigger] key_is(columns[i], x, z)),
        col_index(columns, x, z) >= 0 ==> key_is(columns[col_index(columns, x, z)], x, z),
        col_index(columns, x, z) >= 0 ==> forall|i: int|
            0 <= i < col_index(columns, x, z) ==> !(#[trigger] key_is(columns[i], x, z)),
    decreases columns.len(),
{
    if columns.len() == 0 {
    } else if key_is(columns[0], x, z) {
    } else {
        lemma_col_index(columns.drop_first(), x, z);
        assert(forall|i: int|
            1 <= i < columns.len() ==> #[trigger] columns[i] == columns.drop_first()[i - 1]);
    }
}

/// If the first match in `columns` stands at `k`, `col_index` returns `k`.
pub proof fn lemma_col_index_first(columns: Seq<ColumnEntryView>, x: int, z: int, k: int)
    requires
        0 <= k < columns.len(),
        key_is(columns[k], x, z),
        forall|i: int| 0 <= i < k ==> !(#[trigger] key_is(columns[i], x, z)),
    ensures
        col_index(columns, x, z) == k,
    decreases columns.len(),
{
    if k == 0 {
    } else {
        assert(forall|i: int|
            1 <= i < columns.len() ==> #[trigger] columns[i] == columns.drop_first()[i - 1]);
        lemma_col_index_first(columns.drop_first(), x, z, k - 1);
    }
}

/// If no entry matches, `col_index` returns -1.
pub proof fn lemma_col_index_none(columns: Seq<ColumnEntryView>, x: int, z: int)
    requires
        forall|i: int| 0 <= i < columns.len() ==> !(#[trigger] key_is(columns[i], x, z)),
    ensures
        col_index(columns, x, z) == -1,
    decreases columns.len(),
{
    if columns.len() == 0 {
    } else {
        assert(forall|i: int|
            1 <= i < columns.len() ==> #[trigger] columns[i] == columns.drop_first()[i - 1]);
        lemma_col_index_none(columns.drop_first(), x, z);
    }
}

/// A stitched mesh request for one slice: its coordinate, the current
/// content of its mesh slot, the 3 x 3 x 3 chunk neighborhood (flat index
/// (dy+1)*9 + (dz+1)*3 + (dx+1)) and the 3 x 3 biome neighborhood (flat
/// index (dz+1)*3 + (dx+1)).
pub struct ChunkBuffer {
    pub coords: Coords,
    pub buffer: Option<MeshHandle>,
    pub chunks: Vec<Chunk>,
    pub biomes: Vec<Option<Vec<BiomeId>>>,
}

/// The model of one optional biome-grid snapshot.
pub open spec fn biome_opt_view(o: Option<Vec<BiomeId>>) -> Option<Seq<BiomeId>> {
    match o {
        Some(v) => Some(v@),
        None => None,
    }
}

/// Mathematical model of a [`ChunkBuffer`].
#[verifier::ext_equal]
pub struct ChunkBufferView {
    pub coords: Coords,
    pub buffer: Option<MeshHandle>,
    pub chunks: Seq<ChunkView>,
    pub biomes: Seq<Option<Seq<BiomeId>>>,
}

impl View for ChunkBuffer {
    type V = ChunkBufferView;

    open spec fn view(&self) -> ChunkBufferView {
        ChunkBufferView {
            coords: self.coords,
            buffer: self.buffer,
            chunks: Seq::new(self.chunks@.len(), |i: int| self.chunks@[i]@),
            biomes: Seq::new(self.biomes@.len(), |i: int| biome_opt_view(self.biomes@[i])),
        }
    }
}

/// The neighbor chunk in flat slot i of the 3 x 3 x 3 neighborhood around
/// slice (x, y, z): a missing column or an out-of-range slice index
/// stitches to the empty chunk.
pub open spec fn neighbor_chunk(
    columns: Seq<ColumnEntryView>,
    x: int,
    y: int,
    z: int,
    i: int,
) -> ChunkView {
    let dy = i / 9 - 1;
    let dz = (i % 9) / 3 - 1;
    let dx = i % 3 - 1;
    match lookup(columns, x + dx, z + dz) {
        Some(c) => if 0 <= y + dy < c.chunks.len() {
            c.chunks[y + dy]
        } else {
            empty_chunk()
        },
        None => empty_chunk(),
    }
}

/// The neighbor biome grid in flat slot i of the 3 x 3 neighborhood around
/// column (x, z): present exactly when the neighbor column is loaded.
pub open spec fn neighbor_biomes(columns: Seq<ColumnEntryView>, x: int, z: int, i: int) -> Option<
    Seq<BiomeId>,
> {
    let dz = i / 3 - 1;
    let dx = i % 3 - 1;
    match lookup(columns, x + dx, z + dz) {
        Some(c) => Some(c.biomes),
        None => None,
    }
}

/// The mesh slot of slice (x, y, z), or nothing when the column is missing
/// or the slice index is out of range.
pub open spec fn slot_of(columns: Seq<ColumnEntryView>, x: int, y: int, z: int) -> Option<
    MeshHandle,
> {
    match lookup(columns, x, z) {
        Some(c) => if 0 <= y < c.buffers.len() {
            c.buffers[y]
        } else {
            None
        },
        None => None,
    }
}

/// The stitched request for slice c against the given index contents.
pub open spec fn stitch_spec(columns: Seq<ColumnEntryView>, c: Coords) -> ChunkBufferView {
    ChunkBufferView {
        coords: c,
        buffer: slot_of(columns, c.x as int, c.y as int, c.z as int),
        chunks: Seq::new(
            27,
            |i: int| neighbor_chunk(columns, c.x as int, c.y as int, c.z as int, i),
        ),
        biomes: Seq::new(9, |i: int| neighbor_biomes(columns, c.x as int, c.z as int, i)),
    }
}

/// The index after inserting or replacing the column keyed (e.x, e.z).
pub open spec fn insert_column(columns: Seq<ColumnEntryView>, e: ColumnEntryView) -> Seq<
    ColumnEntryView,
> {
    let k = col_index(columns, e.x as int, e.z as int);
    if k >= 0 {
        columns.update(k, e)
    } else {
        columns.push(e)
    }
}

/// One column the region store yielded, at its local window coordinate
/// (0..=31 within the region).
pub struct LoadedColumn {
    pub local_x: u8,
    pub local_z: u8,
    pub column: ChunkColumn,
}

/// Mathematical model of a [`LoadedColumn`].
#[verifier::ext_equal]
pub struct LoadedColumnView {
    pub local_x: u8,
    pub local_z: u8,
    pub column: ChunkColumnView,
}

impl View for LoadedColumn {
    type V = LoadedColumnView;

    open spec fn view(&self) -> LoadedColumnView {
        LoadedColumnView { local_x: self.local_x, local_z: self.local_z, column: self.column@ }
    }
}

/// The models of a batch of loaded columns, in batch order.
pub open spec fn loaded_views(s: Seq<LoadedColumn>) -> Seq<LoadedColumnView> {
    Seq::new(s.len(), |i: int| s[i]@)
}

/// The index entry of a loaded column translated to absolute column
/// coordinates within region (rx, rz).
pub open spec fn absolute_entry(lc: LoadedColumnView, rx: int, rz: int) -> ColumnEntryView {
    ColumnEntryView {
        x: (rx * 32 + lc.local_x as int) as i32,
        z: (rz * 32 + lc.local_z as int) as i32,
        column: lc.column,
    }
}

/// The index contents after inserting every loaded column, in batch order.
pub open spec fn insert_all(
    columns: Seq<ColumnEntryView>,
    loaded: Seq<LoadedColumnView>,
    rx: int,
    rz: int,
) -> Seq<ColumnEntryView>
    decreases loaded.len(),
{
    if loaded.len() == 0 {
        columns
    } else {
        insert_all(
            insert_column(columns, absolute_entry(loaded[0], rx, rz)),
            loaded.drop_first(),
            rx,
            rz,
        )
    }
}

/// The mesh requests one column contributes: one per vertical slice,
/// bottom to top.
pub open spec fn column_requests(e: ColumnEntryView) -> Seq<Coords> {
    Seq::new(e.column.chunks.len(), |y: int| Coords { x: e.x, y: y as i32, z: e.z })
}

/// The mesh requests of every loaded slice, in index-walk order.
pub open spec fn all_requests(columns: Seq<ColumnEntryView>) -> Seq<Coords>
    decreases columns.len(),
{
    if columns.len() == 0 {
        Seq::empty()
    } else {
        all_requests(columns.drop_last()) + column_requests(columns.last())
    }
}

/// The load window for one axis of the player's chunk coordinate: the
/// region the player stands in (arithmetic shift right by 5; a region is
/// 32 x 32 columns) and the first local column of the fixed 16-column
/// window, pulled 8 columns back from the player and clamped at the
/// region's low edge.
pub fn window_origin(player_chunk: i32) -> (r: (i32, u8))
    ensures
        r.0 == player_chunk >> 5,
        r.1 as int == ({
            let lo = (player_chunk & 0x1f) - 8;
            if lo > 0 {
                lo as int
            } else {
                0
            }
        }),
        r.1 <= 23,
{
    let region = player_chunk >> 5;
    let local = player_chunk & 0x1f;
    proof {
        let p = player_chunk;
        assert(0 <= (p & 0x1f) <= 31) by (bit_vector);
    }
    let base: u8 = if local - 8 > 0 {
        (local - 8) as u8
    } else {
        0u8
    };
    (region, base)
}

/// The window arithmetic reconstructs the column coordinate: 32 times the
/// region of a column plus its local coordinate within the region is the
/// column itself, and the local coordinate is 0..=31.
pub proof fn lemma_region_of_column(c: i32)
    ensures
        32 * ((c >> 5) as int) + ((c & 0x1f) as int) == c as int,
        0 <= (c & 0x1f) < 32,
{
    assert(32 * (c >> 5) + (c & 0x1f) == c) by (bit_vector);
    assert(0 <= (c & 0x1f) < 32) by (bit_vector);
}

/// In a well-formed manager every loaded column's mesh-slot count equals
/// its chunk-slice count.
pub proof fn lemma_slots_match_slices(m: ChunkManagerView)
    requires
        m.wf(),
    ensures
        forall|i: int|
            0 <= i < m.columns.len() ==> (#[trigger] m.columns[i]).column.buffers.len()
                == m.columns[i].column.chunks.len(),
{
}

/// A column missed by a lookup stitches the empty chunk into every one of
/// its slots of the neighborhood: slot i reads column (x + dx, z + dz),
/// and when that column is absent the slot holds the empty-chunk sentinel.
pub proof fn lemma_missing_neighbor_is_empty(
    columns: Seq<ColumnEntryView>,
    c: Coords,
    i: int,
)
    requires
        0 <= i < 27,
        lookup(columns, c.x as int + (i % 3 - 1), c.z as int + ((i % 9) / 3 - 1)) is None,
    ensures
        stitch_spec(columns, c).chunks[i] == empty_chunk(),
{
}

/// A loaded neighbor is used, never the sentinel: slot i of the stitched
/// neighborhood holds that neighbor's slice at y + dy whenever the column
/// at (x + dx, z + dz) is loaded and the slice index is in range.
pub proof fn lemma_loaded_neighbor_is_used(
    columns: Seq<ColumnEntryView>,
    c: Coords,
    i: int,
    col: ChunkColumnView,
)
    requires
        0 <= i < 27,
        lookup(columns, c.x as int + (i % 3 - 1), c.z as int + ((i % 9) / 3 - 1)) == Some(col),
        0 <= c.y as int + (i / 9 - 1) < col.chunks.len(),
    ensures
        stitch_spec(columns, c).chunks[i] == col.chunks[c.y as int + (i / 9 - 1)],
{
}

/// Round trip: after a column is inserted, looking its key up finds
/// exactly that column.
pub proof fn lemma_insert_then_lookup(columns: Seq<ColumnEntryView>, e: ColumnEntryView)
    ensures
        lookup(insert_column(columns, e), e.x as int, e.z as int) == Some(e.column),
{
    let x = e.x as int;
    let z = e.z as int;
    let k = col_index(columns, x, z);
    lemma_col_index(columns, x, z);
    let after = insert_column(columns, e);
    if k >= 0 {
        lemma_col_index_first(after, x, z, k);
    } else {
        lemma_col_index_first(after, x, z, columns.len() as int);
    }
}

/// Squared Euclidean distance between a request's coordinate and the
/// player's chunk coordinate.
pub open spec fn dist_sq(c: Coords, px: int, py: int, pz: int) -> int {
    (c.x as int - px) * (c.x as int - px) + (c.y as int - py) * (c.y as int - py) + (c.z as int
        - pz) * (c.z as int - pz)
}

/// Position of the pending request nearest the player; of several equally
/// near requests the earliest queued wins.
pub open spec fn nearest_index(s: Seq<Coords>, px: int, py: int, pz: int) -> int
    decreases s.len(),
{
    if s.len() <= 1 {
        0
    } else {
        let r = nearest_index(s.drop_last(), px, py, pz);
        if dist_sq(s.last(), px, py, pz) < dist_sq(s[r], px, py, pz) {
            s.len() - 1
        } else {
            r
        }
    }
}

/// The nearest index is in range, no request is nearer, and every earlier
/// request is strictly farther.
pub proof fn lemma_nearest_index(s: Seq<Coords>, px: int, py: int, pz: int)
    requires
        s.len() > 0,
    ensures
        0 <= nearest_index(s, px, py, pz) < s.len(),
        forall|j: int|
            0 <= j < s.len() ==> dist_sq(s[nearest_index(s, px, py, pz)], px, py, pz) <= dist_sq(
                #[trigger] s[j],
                px,
                py,
                pz,
            ),
        forall|j: int|
            0 <= j < nearest_index(s, px, py, pz) ==> dist_sq(#[trigger] s[j], px, py, pz)
                > dist_sq(s[nearest_index(s, px, py, pz)], px, py, pz),
    decreases s.len(),
{
    if s.len() == 1 {
    } else {
        lemma_nearest_index(s.drop_last(), px, py, pz);
        assert(forall|j: int| 0 <= j < s.len() - 1 ==> #[trigger] s[j] == s.drop_last()[j]);
    }
}

/// Removing the request at i by swapping the last request into its place
/// keeps every other request: the remainder is the original multiset with
/// exactly that one occurrence taken out.
pub proof fn lemma_pop_preserves_requests(s: Seq<Coords>, i: int)
    requires
        0 <= i < s.len(),
    ensures
        s.update(i, s.last()).drop_last().len() == s.len() - 1,
        s.update(i, s.last()).drop_last().to_multiset() == s.to_multiset().remove(s[i]),
{
    broadcast use vstd::seq_lib::group_to_multiset_ensures;
    broadcast use vstd::multiset::group_multiset_axioms;
    broadcast use vstd::multiset::group_multiset_properties;

    let t = s.update(i, s.last());
    vstd::seq_lib::to_multiset_update(s, i, s.last());
    assert(t.drop_last() =~= t.remove(t.len() - 1));
    vstd::seq_lib::to_multiset_remove(t, t.len() - 1);
    assert(t[t.len() - 1] == s.last());
    assert(s.to_multiset().contains(s[i]));
    assert(t.drop_last().to_multiset() =~= s.to_multiset().remove(s[i]));
}

/// One loaded slice as the per-frame pass sees it: its coordinate and the
/// current content of its mesh slot.
#[derive(Clone, Copy, Debug)]
pub struct SliceEntry {
    pub x: i32,
    pub y: i32,
    pub z: i32,
    pub buffer: Option<MeshHandle>,
}

/// The slices one column contributes to a full walk, bottom to top.
pub open spec fn column_slices(e: ColumnEntryView) -> Seq<SliceEntry> {
    Seq::new(
        e.column.chunks.len(),
        |y: int| SliceEntry { x: e.x, y: y as i32, z: e.z, buffer: e.column.buffers[y] },
    )
}

/// Every loaded slice, in index-walk order.
pub open spec fn all_slices(columns: Seq<ColumnEntryView>) -> Seq<SliceEntry>
    decreases columns.len(),
{
    if columns.len() == 0 {
        Seq::empty()
    } else {
        all_slices(columns.drop_last()) + column_slices(columns.last())
    }
}

/// Whether slice (x, y, z) is loaded with a mesh slot of its own.
pub open spec fn slice_loaded(columns: Seq<ColumnEntryView>, x: int, y: int, z: int) -> bool {
    match lookup(columns, x, z) {
        Some(c) => 0 <= y < c.buffers.len(),
        None => false,
    }
}

/// Squared distance computed exactly in wide integers; the squares of
/// 33-bit differences and their sum stay far inside the i128 range.
fn dist_to(c: Coords, px: i32, py: i32, pz: i32) -> (d: i128)
    ensures
        d == dist_sq(c, px as int, py as int, pz as int),
{
    let dx = c.x as i128 - px as i128;
    let dy = c.y as i128 - py as i128;
    let dz = c.z as i128 - pz as i128;
    proof {
        assert(0 <= dx * dx <= 0x10000000000000000) by (nonlinear_arith)
            requires
                -0x100000000 <= dx <= 0x100000000,
        ;
        assert(0 <= dy * dy <= 0x10000000000000000) by (nonlinear_arith)
            requires
                -0x100000000 <= dy <= 0x100000000,
        ;
        assert(0 <= dz * dz <= 0x10000000000000000) by (nonlinear_arith)
            requires
                -0x100000000 <= dz <= 0x100000000,
        ;
    }
    dx * dx + dy * dy + dz * dz
}

impl ChunkManager {
    /// Keys are unique and every loaded column is well formed.
    pub open spec fn wf(self) -> bool {
        self@.wf()
    }

    /// An empty manager: nothing loaded, nothing pending.
    pub fn new() -> (r: ChunkManager)
        ensures
            r.wf(),
            r@.columns.len() == 0,
            r@.pending.len() == 0,
    {
        ChunkManager { chunk_columns: Vec::new(), pending_chunks: Vec::new() }
    }

    /// How many columns are loaded.
    pub fn column_count(&self) -> (r: usize)
        ensures
            r == self@.columns.len(),
    {
        self.chunk_columns.len()
    }

    /// How many mesh requests are pending.
    pub fn pending_count(&self) -> (r: usize)
        ensures
            r == self@.pending.len(),
    {
        self.pending_chunks.len()
    }

    /// The position of the entry keyed (x, z), if one is loaded. Keys are
    /// taken wide so neighbor coordinates beyond the i32 range simply miss.
    fn find_index(&self, x: i64, z: i64) -> (r: Option<usize>)
        ensures
            match r {
                Some(k) => k < self@.columns.len() && k == col_index(
                    self@.columns,
                    x as int,
                    z as int,
                ),
                None => col_index(self@.columns, x as int, z as int) == -1,
            },
    {
        let mut k: usize = 0;
        while k < self.chunk_columns.len()
            invariant
                k <= self@.columns.len(),
                self@.columns.len() == self.chunk_columns@.len(),
                forall|i: int| 0 <= i < k ==> !(#[trigger] key_is(self@.columns[i], x as int, z as int)),
            decreases self.chunk_columns@.len() - k,
        {
            let e = &self.chunk_columns[k];
            if e.x as i64 == x && e.z as i64 == z {
                proof {
                    lemma_col_index_first(self@.columns, x as int, z as int, k as int);
                }
                return Some(k);
            }
            k = k + 1;
        }
        proof {
            lemma_col_index_none(self@.columns, x as int, z as int);
        }
        None
    }

    /// Read-only lookup of the column keyed (x, z).
    pub fn get_column(&self, x: i32, z: i32) -> (r: Option<&ChunkColumn>)
        ensures
            match r {
                Some(c) => lookup(self@.columns, x as int, z as int) == Some(c@),
                None => lookup(self@.columns, x as int, z as int) is None,
            },
    {
        match self.find_index(x as i64, z as i64) {
            Some(k) => {
                proof {
                    lemma_col_index(self@.columns, x as int, z as int);
                }
                Some(&self.chunk_columns[k].column)
            },
            None => None,
        }
    }

    /// Assemble the mesh request for slice `coords` from the current index
    /// contents. The request snapshots the neighborhood, so the index may
    /// be mutated freely once it is returned.
    pub fn stitch(&self, coords: Coords) -> (r: ChunkBuffer)
        requires
            self.wf(),
        ensures
            r@ == stitch_spec(self@.columns, coords),
    {
        let mut chunks: Vec<Chunk> = Vec::new();
        let mut i: usize = 0;
        while i < 27
            invariant
                self.wf(),
                i <= 27,
                chunks@.len() == i,
                forall|j: int|
                    0 <= j < i ==> (#[trigger] chunks@[j])@ == neighbor_chunk(
                        self@.columns,
                        coords.x as int,
                        coords.y as int,
                        coords.z as int,
                        j,
                    ),
            decreases 27 - i,
        {
            let dy = (i / 9) as i64 - 1;
            let dz = ((i % 9) / 3) as i64 - 1;
            let dx = (i % 3) as i64 - 1;
            let c: Chunk = match self.find_index(coords.x as i64 + dx, coords.z as i64 + dz) {
                Some(k) => {
                    proof {
                        lemma_col_index(
                            self@.columns,
                            coords.x as int + dx as int,
                            coords.z as int + dz as int,
                        );
                    }
                    let col = &self.chunk_columns[k].column;
                    let yy = coords.y as i64 + dy;
                    if 0 <= yy && yy < col.chunks.len() as i64 {
                        col.chunks[yy as usize].duplicate()
                    } else {
                        Chunk::empty()
                    }
                },
                None => Chunk::empty(),
            };
            chunks.push(c);
            i = i + 1;
        }
        let mut biomes: Vec<Option<Vec<BiomeId>>> = Vec::new();
        let mut i: usize = 0;
        while i < 9
            invariant
                self.wf(),
                i <= 9,
                biomes@.len() == i,
                forall|j: int|
                    0 <= j < i ==> biome_opt_view(#[trigger] biomes@[j]) == neighbor_biomes(
                        self@.columns,
                        coords.x as int,
                        coords.z as int,
                        j,
                    ),
            decreases 9 - i,
        {
            let dz = (i / 3) as i64 - 1;
            let dx = (i % 3) as i64 - 1;
            let b: Option<Vec<BiomeId>> = match self.find_index(
                coords.x as i64 + dx,
                coords.z as i64 + dz,
            ) {
                Some(k) => Some(copy_vec(&self.chunk_columns[k].column.biomes)),
                None => None,
            };
            biomes.push(b);
            i = i + 1;
        }
        let buffer: Option<MeshHandle> = match self.find_index(coords.x as i64, coords.z as i64) {
            Some(k) => {
                let col = &self.chunk_columns[k].column;
                if 0 <= coords.y && (coords.y as i64) < col.buffers.len() as i64 {
                    col.buffers[coords.y as usize]
                } else {
                    None
                }
            },
            None => None,
        };
        let r = ChunkBuffer { coords, buffer, chunks, biomes };
        proof {
            let want = stitch_spec(self@.columns, coords);
            assert(r@.chunks =~= want.chunks);
            assert(r@.biomes =~= want.biomes);
            assert(r@ =~= want);
        }
        r
    }

    /// Load a batch of columns the region store yielded for the window in
    /// region (region_x, region_z): each is inserted at its absolute
    /// column coordinate, overwriting any column already there, and one
    /// mesh request is then enqueued for every loaded slice of the index.
    pub fn load_chunks(&mut self, region_x: i32, region_z: i32, loaded: &Vec<LoadedColumn>)
        requires
            old(self).wf(),
            forall|i: int| 0 <= i < loaded@.len() ==> (#[trigger] loaded@[i])@.column.wf(),
            -0x8000_0000 <= region_x * 32,
            region_x * 32 + 255 < 0x8000_0000,
            -0x8000_0000 <= region_z * 32,
            region_z * 32 + 255 < 0x8000_0000,
        ensures
            final(self).wf(),
            final(self)@.columns == insert_all(
                old(self)@.columns,
                loaded_views(loaded@),
                region_x as int,
                region_z as int,
            ),
            final(self)@.pending == old(self)@.pending + all_requests(final(self)@.columns),
    {
        let ghost rx = region_x as int;
        let ghost rz = region_z as int;
        let ghost lviews = loaded_views(loaded@);
        proof {
            assert(lviews.skip(0) =~= lviews);
        }
        let mut k: usize = 0;
        while k < loaded.len()
            invariant
                self.wf(),
                k <= loaded@.len(),
                lviews == loaded_views(loaded@),
                forall|i: int| 0 <= i < loaded@.len() ==> (#[trigger] loaded@[i])@.column.wf(),
                -0x8000_0000 <= rx * 32,
                rx * 32 + 255 < 0x8000_0000,
                -0x8000_0000 <= rz * 32,
                rz * 32 + 255 < 0x8000_0000,
                rx == region_x as int,
                rz == region_z as int,
                insert_all(old(self)@.columns, lviews, rx, rz) == insert_all(
                    self@.columns,
                    lviews.skip(k as int),
                    rx,
                    rz,
                ),
                self@.pending == old(self)@.pending,
            decreases loaded@.len() - k,
        {
            let lc = &loaded[k];
            let ax = region_x * 32 + lc.local_x as i32;
            let az = region_z * 32 + lc.local_z as i32;
            let col = lc.column.duplicate();
            proof {
                let rest = lviews.skip(k as int);
                assert(rest[0] == lviews[k as int]);
                assert(rest.drop_first() =~= lviews.skip(k as int + 1));
                assert(absolute_entry(lviews[k as int], rx, rz) == ColumnEntryView {
                    x: ax,
                    z: az,
                    column: col@,
                });
            }
            self.add_chunk_column(ax, az, col);
            k = k + 1;
        }
        proof {
            assert(lviews.skip(loaded@.len() as int) =~= Seq::<LoadedColumnView>::empty());
        }
        let ghost cols = self@.columns;
        let ghost pend0 = self@.pending;
        let n = self.chunk_columns.len();
        let mut ci: usize = 0;
        proof {
            assert(cols.take(0) =~= Seq::<ColumnEntryView>::empty());
            assert(self@.pending =~= pend0 + all_requests(cols.take(0)));
        }
        while ci < n
            invariant
                self.wf(),
                n == self@.columns.len(),
                self@.columns == cols,
                ci <= n,
                self@.pending == pend0 + all_requests(cols.take(ci as int)),
            decreases n - ci,
        {
            let cx = self.chunk_columns[ci].x;
            let cz = self.chunk_columns[ci].z;
            let m = self.chunk_columns[ci].column.chunks.len();
            proof {
                assert(cols[ci as int].column.wf());
                assert(column_requests(cols[ci as int]).take(0) =~= Seq::<Coords>::empty());
                assert(self@.pending =~= pend0 + all_requests(cols.take(ci as int))
                    + column_requests(cols[ci as int]).take(0));
            }
            let mut y: usize = 0;
            while y < m
                invariant
                    self.wf(),
                    self@.columns == cols,
                    ci < n,
                    n == self@.columns.len(),
                    m == cols[ci as int].column.chunks.len(),
                    m <= 16,
                    cx == cols[ci as int].x,
                    cz == cols[ci as int].z,
                    y <= m,
                    self@.pending == pend0 + all_requests(cols.take(ci as int)) + column_requests(
                        cols[ci as int],
                    ).take(y as int),
                decreases m - y,
            {
                self.pending_chunks.push(Coords { x: cx, y: y as i32, z: cz });
                proof {
                    let creq = column_requests(cols[ci as int]);
                    assert(creq[y as int] == Coords { x: cx, y: y as i32, z: cz });
                    assert(creq.take(y as int + 1) =~= creq.take(y as int).push(creq[y as int]));
                    assert(self@.pending =~= pend0 + all_requests(cols.take(ci as int))
                        + creq.take(y as int + 1));
                }
                y = y + 1;
            }
            proof {
                let creq = column_requests(cols[ci as int]);
                assert(creq.take(m as int) =~= creq);
                assert(cols.take(ci as int + 1).drop_last() =~= cols.take(ci as int));
                assert(cols.take(ci as int + 1).last() == cols[ci as int]);
                assert(all_requests(cols.take(ci as int + 1)) == all_requests(
                    cols.take(ci as int),
                ) + creq);
                assert(self@.pending =~= pend0 + all_requests(cols.take(ci as int + 1)));
            }
            ci = ci + 1;
        }
        proof {
            assert(cols.take(n as int) =~= cols);
        }
    }

    /// Remove the pending request whose coordinate is nearest the player's
    /// chunk coordinate and return it stitched against the current index
    /// contents. The last request is swapped into the vacated position.
    /// Yields nothing, and changes nothing, when no work is pending.
    pub fn get_pending(&mut self, px: i32, py: i32, pz: i32) -> (r: Option<ChunkBuffer>)
        requires
            old(self).wf(),
        ensures
            final(self).wf(),
            final(self)@.columns == old(self)@.columns,
            match r {
                None => {
                    &&& old(self)@.pending.len() == 0
                    &&& final(self)@.pending == old(self)@.pending
                },
                Some(b) => {
                    let p = old(self)@.pending;
                    let i = nearest_index(p, px as int, py as int, pz as int);
                    &&& p.len() > 0
                    &&& b@ == stitch_spec(old(self)@.columns, p[i])
                    &&& final(self)@.pending == p.update(i, p.last()).drop_last()
                },
            },
    {
        if self.pending_chunks.len() == 0 {
            return None;
        }
        let ghost p = self@.pending;
        let mut best: usize = 0;
        let mut best_dist: i128 = dist_to(self.pending_chunks[0], px, py, pz);
        proof {
            assert(p.take(1) =~= seq![p[0]]);
        }
        let mut k: usize = 1;
        while k < self.pending_chunks.len()
            invariant
                self@.pending == p,
                0 < k <= p.len(),
                best < k,
                best as int == nearest_index(p.take(k as int), px as int, py as int, pz as int),
                best_dist == dist_sq(p[best as int], px as int, py as int, pz as int),
            decreases p.len() - k,
        {
            let d = dist_to(self.pending_chunks[k], px, py, pz);
            proof {
                let pre = p.take(k as int);
                let cur = p.take(k as int + 1);
                assert(cur.drop_last() =~= pre);
                assert(cur.last() == p[k as int]);
                assert(cur.len() > 1);
            }
            if d < best_dist {
                best = k;
                best_dist = d;
            }
            k = k + 1;
        }
        proof {
            assert(p.take(p.len() as int) =~= p);
        }
        let removed = self.pending_chunks.swap_remove(best);
        let buf = self.stitch(removed);
        Some(buf)
    }

    /// Walk every loaded slice, yielding its coordinate and the current
    /// content of its mesh slot, in index-walk order.
    pub fn each_chunk(&self) -> (r: Vec<SliceEntry>)
        requires
            self.wf(),
        ensures
            r@ == all_slices(self@.columns),
    {
        let ghost cols = self@.columns;
        let mut out: Vec<SliceEntry> = Vec::new();
        proof {
            assert(cols.take(0) =~= Seq::<ColumnEntryView>::empty());
        }
        let n = self.chunk_columns.len();
        let mut ci: usize = 0;
        while ci < n
            invariant
                self.wf(),
                n == self@.columns.len(),
                self@.columns == cols,
                ci <= n,
                out@ == all_slices(cols.take(ci as int)),
            decreases n - ci,
        {
            let cx = self.chunk_columns[ci].x;
            let cz = self.chunk_columns[ci].z;
            let m = self.chunk_columns[ci].column.chunks.len();
            proof {
                assert(cols[ci as int].column.wf());
                assert(column_slices(cols[ci as int]).take(0) =~= Seq::<SliceEntry>::empty());
                assert(out@ =~= all_slices(cols.take(ci as int)) + column_slices(
                    cols[ci as int],
                ).take(0));
            }
            let mut y: usize = 0;
            while y < m
                invariant
                    self.wf(),
                    self@.columns == cols,
                    ci < n,
                    n == self@.columns.len(),
                    m == cols[ci as int].column.chunks.len(),
                    m == cols[ci as int].column.buffers.len(),
                    m <= 16,
                    cx == cols[ci as int].x,
                    cz == cols[ci as int].z,
                    y <= m,
                    out@ == all_slices(cols.take(ci as int)) + column_slices(
                        cols[ci as int],
                    ).take(y as int),
                decreases m - y,
            {
                let e = SliceEntry {
                    x: cx,
                    y: y as i32,
                    z: cz,
                    buffer: self.chunk_columns[ci].column.buffers[y],
                };
                out.push(e);
                proof {
                    let cs = column_slices(cols[ci as int]);
                    assert(cs[y as int] == e);
                    assert(cs.take(y as int + 1) =~= cs.take(y as int).push(cs[y as int]));
                    assert(out@ =~= all_slices(cols.take(ci as int)) + cs.take(y as int + 1));
                }
                y = y + 1;
            }
            proof {
                let cs = column_slices(cols[ci as int]);
                assert(cs.take(m as int) =~= cs);
                assert(cols.take(ci as int + 1).drop_last() =~= cols.take(ci as int));
                assert(cols.take(ci as int + 1).last() == cols[ci as int]);
                assert(out@ =~= all_slices(cols.take(ci as int + 1)));
            }
            ci = ci + 1;
        }
        proof {
            assert(cols.take(n as int) =~= cols);
        }
        out
    }

    /// Stitch a mesh request for every loaded slice, in index-walk order:
    /// one request per entry of `all_requests`.
    pub fn each_chunk_and_neighbors(&self) -> (r: Vec<ChunkBuffer>)
        requires
            self.wf(),
        ensures
            r@.len() == all_requests(self@.columns).len(),
            forall|k: int|
                0 <= k < r@.len() ==> (#[trigger] r@[k])@ == stitch_spec(
                    self@.columns,
                    all_requests(self@.columns)[k],
                ),
    {
        let ghost cols = self@.columns;
        let mut out: Vec<ChunkBuffer> = Vec::new();
        proof {
            assert(cols.take(0) =~= Seq::<ColumnEntryView>::empty());
        }
        let n = self.chunk_columns.len();
        let mut ci: usize = 0;
        while ci < n
            invariant
                self.wf(),
                n == self@.columns.len(),
                self@.columns == cols,
                ci <= n,
                out@.len() == all_requests(cols.take(ci as int)).len(),
                forall|k: int|
                    0 <= k < out@.len() ==> (#[trigger] out@[k])@ == stitch_spec(
                        cols,
                        all_requests(cols.take(ci as int))[k],
                    ),
            decreases n - ci,
        {
            let cx = self.chunk_columns[ci].x;
            let cz = self.chunk_columns[ci].z;
            let m = self.chunk_columns[ci].column.chunks.len();
            proof {
                assert(cols[ci as int].column.wf());
                assert(column_requests(cols[ci as int]).take(0) =~= Seq::<Coords>::empty());
                assert(all_requests(cols.take(ci as int)) + column_requests(
                    cols[ci as int],
                ).take(0) =~= all_requests(cols.take(ci as int)));
            }
            let mut y: usize = 0;
            while y < m
                invariant
                    self.wf(),
                    self@.columns == cols,
                    ci < n,
                    n == self@.columns.len(),
                    m == cols[ci as int].column.chunks.len(),
                    m <= 16,
                    cx == cols[ci as int].x,
                    cz == cols[ci as int].z,
                    y <= m,
                    out@.len() == (all_requests(cols.take(ci as int)) + column_requests(
                        cols[ci as int],
                    ).take(y as int)).len(),
                    forall|k: int|
                        0 <= k < out@.len() ==> (#[trigger] out@[k])@ == stitch_spec(
                            cols,
                            (all_requests(cols.take(ci as int)) + column_requests(
                                cols[ci as int],
                            ).take(y as int))[k],
                        ),
                decreases m - y,
            {
                let c = Coords { x: cx, y: y as i32, z: cz };
                let b = self.stitch(c);
                out.push(b);
                proof {
                    let pre = all_requests(cols.take(ci as int));
                    let creq = column_requests(cols[ci as int]);
                    assert(creq[y as int] == c);
                    assert(creq.take(y as int + 1) =~= creq.take(y as int).push(c));
                    assert(pre + creq.take(y as int + 1) =~= (pre + creq.take(y as int)).push(c));
                }
                y = y + 1;
            }
            proof {
                let creq = column_requests(cols[ci as int]);
                assert(creq.take(m as int) =~= creq);
                assert(cols.take(ci as int + 1).drop_last() =~= cols.take(ci as int));
                assert(cols.take(ci as int + 1).last() == cols[ci as int]);
                assert(all_requests(cols.take(ci as int + 1)) == all_requests(
                    cols.take(ci as int),
                ) + creq);
            }
            ci = ci + 1;
        }
        proof {
            assert(cols.take(n as int) =~= cols);
        }
        out
    }

    /// Store the handle a completed mesh build produced into its slice's
    /// slot. Returns false, changing nothing, when the slice's column is
    /// not loaded or its slice index is out of range.
    pub fn set_buffer(&mut self, coords: Coords, handle: MeshHandle) -> (r: bool)
        requires
            old(self).wf(),
        ensures
            final(self).wf(),
            final(self)@.pending == old(self)@.pending,
            r == slice_loaded(
                old(self)@.columns,
                coords.x as int,
                coords.y as int,
                coords.z as int,
            ),
            r ==> ({
                let k = col_index(old(self)@.columns, coords.x as int, coords.z as int);
                let e = old(self)@.columns[k];
                final(self)@.columns == old(self)@.columns.update(
                    k,
                    ColumnEntryView {
                        x: e.x,
                        z: e.z,
                        column: ChunkColumnView {
                            chunks: e.column.chunks,
                            buffers: e.column.buffers.update(coords.y as int, Some(handle)),
                            biomes: e.column.biomes,
                        },
                    },
                )
            }),
            !r ==> final(self)@.columns == old(self)@.columns,
    {
        match self.find_index(coords.x as i64, coords.z as i64) {
            Some(k) => {
                proof {
                    lemma_col_index(self@.columns, coords.x as int, coords.z as int);
                }
                let mut e = self.chunk_columns.remove(k);
                if coords.y >= 0 && (coords.y as usize) < e.column.buffers.len() {
                    e.column.buffers.set(coords.y as usize, Some(handle));
                    self.chunk_columns.insert(k, e);
                    proof {
                        let oldc = old(self)@.columns;
                        let newc = self@.columns;
                        let ghost e2 = ColumnEntryView {
                            x: oldc[k as int].x,
                            z: oldc[k as int].z,
                            column: ChunkColumnView {
                                chunks: oldc[k as int].column.chunks,
                                buffers: oldc[k as int].column.buffers.update(
                                    coords.y as int,
                                    Some(handle),
                                ),
                                biomes: oldc[k as int].column.biomes,
                            },
                        };
                        assert(newc =~~= oldc.update(k as int, e2));
                        assert forall|i: int, j: int|
                            0 <= i < j < newc.len() implies !(#[trigger] same_key(
                            newc[i],
                            newc[j],
                        )) by {
                            assert(!same_key(oldc[i], oldc[j]));
                        }
                        assert(e2.column.wf());
                    }
                    true
                } else {
                    self.chunk_columns.insert(k, e);
                    proof {
                        assert(self@.columns =~= old(self)@.columns);
                    }
                    false
                }
            },
            None => false,
        }
    }

    /// Insert the column keyed (x, z), replacing any column already there.
    pub fn add_chunk_column(&mut self, x: i32, z: i32, c: ChunkColumn)
        requires
            old(self).wf(),
            c@.wf(),
        ensures
            final(self).wf(),
            final(self)@.columns == insert_column(
                old(self)@.columns,
                ColumnEntryView { x, z, column: c@ },
            ),
            final(self)@.pending == old(self)@.pending,
    {
        let ghost ev = ColumnEntryView { x, z, column: c@ };
        let e = ColumnEntry { x, z, column: c };
        proof {
            lemma_col_index(self@.columns, x as int, z as int);
        }
        match self.find_index(x as i64, z as i64) {
            Some(k) => {
                self.chunk_columns.set(k, e);
                proof {
                    let oldc = old(self)@.columns;
                    let newc = self@.columns;
                    assert(newc =~= oldc.update(k as int, ev));
                    assert(newc == insert_column(oldc, ev));
                    assert(key_is(oldc[k as int], x as int, z as int));
                    assert forall|i: int, j: int|
                        0 <= i < j < newc.len() implies !(#[trigger] same_key(
                        newc[i],
                        newc[j],
                    )) by {
                        if i == k {
                            assert(!same_key(oldc[i], oldc[j]));
                        } else if j == k {
                            assert(!same_key(oldc[i], oldc[j]));
                        } else {
                            assert(!same_key(oldc[i], oldc[j]));
                        }
                    }
                }
            },
            None => {
                self.chunk_columns.push(e);
                proof {
                    let oldc = old(self)@.columns;
                    let newc = self@.columns;
                    assert(newc =~= oldc.push(ev));
                    assert(newc == insert_column(oldc, ev));
                    assert forall|i: int, j: int|
                        0 <= i < j < newc.len() implies !(#[trigger] same_key(
                        newc[i],
                        newc[j],
                    )) by {
                        if j == newc.len() - 1 {
                            assert(!key_is(oldc[i], x as int, z as int));
                        } else {
                            assert(!same_key(oldc[i], oldc[j]));
                        }
                    }
                }
            },
        }
    }
}

} // verus!
