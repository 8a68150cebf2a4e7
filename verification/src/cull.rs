//! The per-frame culling pass: axis-aligned clip-space rejection and
//! draw selection over the loaded slices.
//!
//! Clip-space extents arrive in fixed point: [`CLIP_ONE`] counts stand for
//! clip-space 1.0. The caller projects the eight corners of each slice's
//! world bounding box through its view-projection matrix, divides each by
//! its w, and hands the per-axis minima and maxima here; everything after
//! that division is decided in this module.

use vstd::prelude::*;

use crate::chunk::{Coords, MeshHandle};
use crate::manager::SliceEntry;

verus! {

/// Fixed-point unit: this many counts stand for clip-space 1.0.
pub const CLIP_ONE: i64 = 65536;

/// A point in fixed-point clip space.
#[derive(Clone, Copy, PartialEq, Eq, Structural, Debug)]
pub struct ClipPoint {
    pub x: i64,
    pub y: i64,
    pub z: i64,
}

/// Sign of a fixed-point coordinate.
pub open spec fn sign_of(v: i64) -> int {
    if v > 0 {
        1
    } else if v < 0 {
        -1
    } else {
        0
    }
}

/// Magnitude of a fixed-point coordinate.
pub open spec fn abs_of(v: i64) -> int {
    if v >= 0 {
        v as int
    } else {
        -(v as int)
    }
}

/// One axis rejects the box when its projected extent lies entirely
/// outside the [-1, 1] range on one side: the minimum and the maximum
/// share their sign and both magnitudes reach 1.0.
pub open spec fn axis_culled(lo: i64, hi: i64) -> bool {
    sign_of(lo) == sign_of(hi) && abs_of(lo) >= CLIP_ONE && abs_of(hi) >= CLIP_ONE
}

/// The box is culled when any clip axis rejects it.
pub open spec fn culled(lo: ClipPoint, hi: ClipPoint) -> bool {
    ||| axis_culled(lo.x, hi.x)
    ||| axis_culled(lo.y, hi.y)
    ||| axis_culled(lo.z, hi.z)
}

/// A drawn box is counted as needing depth-aware rendering when its
/// projected X or Y extent straddles the viewer's center.
pub open spec fn straddles_center(lo: ClipPoint, hi: ClipPoint) -> bool {
    (lo.x < 0 && hi.x > 0) || (lo.y < 0 && hi.y > 0)
}

/// Whether one axis rejects the box.
pub fn axis_cull(lo: i64, hi: i64) -> (r: bool)
    ensures
        r == axis_culled(lo, hi),
{
    (lo >= CLIP_ONE && hi >= CLIP_ONE) || (lo <= -CLIP_ONE && hi <= -CLIP_ONE)
}

/// Whether the box with the given projected extent is culled.
pub fn should_cull(lo: ClipPoint, hi: ClipPoint) -> (r: bool)
    ensures
        r == culled(lo, hi),
{
    axis_cull(lo.x, hi.x) || axis_cull(lo.y, hi.y) || axis_cull(lo.z, hi.z)
}

/// Whether a drawn box counts toward the needs-sort tally.
pub fn needs_sort(lo: ClipPoint, hi: ClipPoint) -> (r: bool)
    ensures
        r == straddles_center(lo, hi),
{
    (lo.x < 0 && hi.x > 0) || (lo.y < 0 && hi.y > 0)
}

/// The world-space bounding box of one slice: a 16-block cube.
#[derive(Clone, Copy, Debug)]
pub struct WorldBounds {
    pub min_x: i64,
    pub min_y: i64,
    pub min_z: i64,
    pub max_x: i64,
    pub max_y: i64,
    pub max_z: i64,
}

/// The world-space bounding box of the slice at chunk coordinate c: the
/// cube from 16 times the coordinate to 16 blocks further on each axis.
pub fn chunk_world_bounds(c: Coords) -> (r: WorldBounds)
    ensures
        r.min_x == 16 * c.x as int && r.max_x == 16 * c.x as int + 16,
        r.min_y == 16 * c.y as int && r.max_y == 16 * c.y as int + 16,
        r.min_z == 16 * c.z as int && r.max_z == 16 * c.z as int + 16,
{
    WorldBounds {
        min_x: 16 * c.x as i64,
        min_y: 16 * c.y as i64,
        min_z: 16 * c.z as i64,
        max_x: 16 * c.x as i64 + 16,
        max_y: 16 * c.y as i64 + 16,
        max_z: 16 * c.z as i64 + 16,
    }
}

/// Pointwise minimum of two clip points.
pub open spec fn point_min(a: ClipPoint, b: ClipPoint) -> ClipPoint {
    ClipPoint {
        x: if a.x <= b.x {
            a.x
        } else {
            b.x
        },
        y: if a.y <= b.y {
            a.y
        } else {
            b.y
        },
        z: if a.z <= b.z {
            a.z
        } else {
            b.z
        },
    }
}

/// Pointwise maximum of two clip points.
pub open spec fn point_max(a: ClipPoint, b: ClipPoint) -> ClipPoint {
    ClipPoint {
        x: if a.x >= b.x {
            a.x
        } else {
            b.x
        },
        y: if a.y >= b.y {
            a.y
        } else {
            b.y
        },
        z: if a.z >= b.z {
            a.z
        } else {
            b.z
        },
    }
}

/// The pointwise minimum of a run of projected corners.
pub open spec fn extent_lo(s: Seq<ClipPoint>) -> ClipPoint
    decreases s.len(),
{
    if s.len() <= 1 {
        s[0]
    } else {
        point_min(extent_lo(s.drop_last()), s.last())
    }
}

/// The pointwise maximum of a run of projected corners.
pub open spec fn extent_hi(s: Seq<ClipPoint>) -> ClipPoint
    decreases s.len(),
{
    if s.len() <= 1 {
        s[0]
    } else {
        point_max(extent_hi(s.drop_last()), s.last())
    }
}

/// Reduce a box's projected corners to its per-axis extent: the pointwise
/// minimum and maximum over all of them.
pub fn extent_of(corners: &Vec<ClipPoint>) -> (r: (ClipPoint, ClipPoint))
    requires
        corners@.len() > 0,
    ensures
        r.0 == extent_lo(corners@),
        r.1 == extent_hi(corners@),
{
    let mut lo: ClipPoint = corners[0];
    let mut hi: ClipPoint = corners[0];
    proof {
        assert(corners@.take(1) =~= seq![corners@[0]]);
    }
    let mut k: usize = 1;
    while k < corners.len()
        invariant
            0 < k <= corners@.len(),
            lo == extent_lo(corners@.take(k as int)),
            hi == extent_hi(corners@.take(k as int)),
        decreases corners@.len() - k,
    {
        let c = corners[k];
        proof {
            assert(corners@.take(k as int + 1).drop_last() =~= corners@.take(k as int));
            assert(corners@.take(k as int + 1).last() == corners@[k as int]);
        }
        if c.x < lo.x {
            lo.x = c.x;
        }
        if c.y < lo.y {
            lo.y = c.y;
        }
        if c.z < lo.z {
            lo.z = c.z;
        }
        if c.x > hi.x {
            hi.x = c.x;
        }
        if c.y > hi.y {
            hi.y = c.y;
        }
        if c.z > hi.z {
            hi.z = c.z;
        }
        k = k + 1;
    }
    proof {
        assert(corners@.take(corners@.len() as int) =~= corners@);
    }
    (lo, hi)
}

/// The extent brackets every projected corner on every axis.
pub proof fn lemma_extent_brackets_corners(s: Seq<ClipPoint>, j: int)
    requires
        0 <= j < s.len(),
    ensures
        extent_lo(s).x <= s[j].x && extent_lo(s).y <= s[j].y && extent_lo(s).z <= s[j].z,
        extent_hi(s).x >= s[j].x && extent_hi(s).y >= s[j].y && extent_hi(s).z >= s[j].z,
    decreases s.len(),
{
    if s.len() > 1 && j < s.len() - 1 {
        lemma_extent_brackets_corners(s.drop_last(), j);
    }
}

/// One slice handed to the frame pass: its walk entry and its projected
/// clip-space extent.
#[derive(Clone, Copy, Debug)]
pub struct CullItem {
    pub slice: SliceEntry,
    pub lo: ClipPoint,
    pub hi: ClipPoint,
}

/// Whether an item is drawn: its mesh is complete and its box survives.
pub open spec fn drawn(it: CullItem) -> bool {
    it.slice.buffer is Some && !culled(it.lo, it.hi)
}

/// The mesh handle of an item whose slot is filled.
pub open spec fn handle_of(it: CullItem) -> MeshHandle {
    match it.slice.buffer {
        Some(h) => h,
        None => MeshHandle { id: 0 },
    }
}

/// The handles drawn, in input order.
pub open spec fn drawn_handles(items: Seq<CullItem>) -> Seq<MeshHandle>
    decreases items.len(),
{
    if items.len() == 0 {
        Seq::empty()
    } else {
        let rest = drawn_handles(items.drop_last());
        if drawn(items.last()) {
            rest.push(handle_of(items.last()))
        } else {
            rest
        }
    }
}

/// How many drawn items straddle the viewer's center.
pub open spec fn sorted_count(items: Seq<CullItem>) -> int
    decreases items.len(),
{
    if items.len() == 0 {
        0
    } else {
        sorted_count(items.drop_last()) + if drawn(items.last()) && straddles_center(
            items.last().lo,
            items.last().hi,
        ) {
            1int
        } else {
            0int
        }
    }
}

/// No more items are drawn, or counted, than were handed in.
pub proof fn lemma_cull_counts(items: Seq<CullItem>)
    ensures
        0 <= drawn_handles(items).len() <= items.len(),
        0 <= sorted_count(items) <= items.len(),
    decreases items.len(),
{
    if items.len() > 0 {
        lemma_cull_counts(items.drop_last());
    }
}

/// The outcome of one frame's culling pass.
pub struct FrameCull {
    pub draws: Vec<MeshHandle>,
    pub num_rendered: usize,
    pub num_sorted: usize,
    pub num_total: usize,
}

/// Cull the frame's slices: every item with a completed mesh whose box
/// survives the per-axis test is drawn, in input order. Draws straddling
/// the viewer's center are tallied but not reordered.
pub fn cull_pass(items: &Vec<CullItem>) -> (r: FrameCull)
    ensures
        r.draws@ == drawn_handles(items@),
        r.num_rendered == r.draws@.len(),
        r.num_sorted == sorted_count(items@),
        r.num_total == items@.len(),
{
    let mut draws: Vec<MeshHandle> = Vec::new();
    let mut num_sorted: usize = 0;
    proof {
        assert(items@.take(0) =~= Seq::<CullItem>::empty());
    }
    let mut k: usize = 0;
    while k < items.len()
        invariant
            k <= items@.len(),
            draws@ == drawn_handles(items@.take(k as int)),
            num_sorted == sorted_count(items@.take(k as int)),
            num_sorted <= k,
        decreases items@.len() - k,
    {
        let it = items[k];
        proof {
            assert(items@.take(k as int + 1).drop_last() =~= items@.take(k as int));
            assert(items@.take(k as int + 1).last() == items@[k as int]);
            lemma_cull_counts(items@.take(k as int));
        }
        let keep = match it.slice.buffer {
            Some(h) => {
                if !should_cull(it.lo, it.hi) {
                    draws.push(h);
                    true
                } else {
                    false
                }
            },
            None => false,
        };
        if keep && needs_sort(it.lo, it.hi) {
            num_sorted = num_sorted + 1;
        }
        k = k + 1;
    }
    proof {
        assert(items@.take(items@.len() as int) =~= items@);
    }
    let num_rendered = draws.len();
    FrameCull { draws, num_rendered, num_sorted, num_total: items.len() }
}

} // verus!
