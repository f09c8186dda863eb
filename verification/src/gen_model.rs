//! The generation model: the tile model, the random source, the per-region
//! overfill memo, and the affine mapping between tile coordinates and coarse
//! region coordinates.

use vstd::prelude::*;
use crate::geom::Point;
use crate::rng::ReproducibleRandom;
use crate::tiles_model::{TilesModel, GRID_DIM};

verus! {

/// The overfill edge memoized for `region`, scanning from entry `i`.
pub open spec fn edge_from(s: Seq<(usize, u32)>, region: int, i: int) -> Option<u32>
    decreases s.len() - i,
{
    if i < 0 || i >= s.len() {
        None
    } else if s[i].0 == region {
        Some(s[i].1)
    } else {
        edge_from(s, region, i + 1)
    }
}

/// The overfill edge memoized for `region`.
pub open spec fn spec_edge(s: Seq<(usize, u32)>, region: int) -> Option<u32> {
    edge_from(s, region, 0)
}

pub proof fn lemma_edge_push(s: Seq<(usize, u32)>, region: int, e: (usize, u32))
    ensures
        spec_edge(s, region) is Some ==> spec_edge(s.push(e), region) == spec_edge(s, region),
        spec_edge(s, region) is None && e.0 == region ==> spec_edge(s.push(e), region) == Some(
            e.1,
        ),
        spec_edge(s, region) is None && e.0 != region ==> spec_edge(s.push(e), region) is None,
{
    lemma_edge_push_aux(s, region, 0, e);
}

proof fn lemma_edge_push_aux(s: Seq<(usize, u32)>, region: int, i: int, e: (usize, u32))
    requires
        0 <= i <= s.len(),
    ensures
        edge_from(s, region, i) is Some ==> edge_from(s.push(e), region, i) == edge_from(
            s,
            region,
            i,
        ),
        edge_from(s, region, i) is None && e.0 == region ==> edge_from(s.push(e), region, i)
            == Some(e.1),
        edge_from(s, region, i) is None && e.0 != region ==> edge_from(s.push(e), region, i)
            is None,
    decreases s.len() - i,
{
    if i < s.len() {
        lemma_edge_push_aux(s, region, i + 1, e);
    } else {
        assert(s.push(e)[i] == e);
        assert(edge_from(s.push(e), region, i + 1) is None);
    }
}

/// Once a corridor region's overfill edge is memoized, the only update the
/// carve ever makes to the memo — recording an edge for a region that had
/// none — leaves it in place: every occurrence of the region, on either side
/// of a shared boundary, sees one and the same edge choice.
pub proof fn lemma_overfill_edge_stable(
    m1: Seq<(usize, u32)>,
    m2: Seq<(usize, u32)>,
    region: usize,
    v: u32,
)
    requires
        spec_edge(m1, region as int) == Some(v),
        m2 == m1 || exists|fresh: (usize, u32)|
            spec_edge(m1, fresh.0 as int) is None && m2 == m1.push(fresh),
    ensures
        spec_edge(m2, region as int) == Some(v),
{
    if m2 != m1 {
        let fresh = choose|fresh: (usize, u32)|
            spec_edge(m1, fresh.0 as int) is None && m2 == m1.push(fresh);
        lemma_edge_push(m1, region as int, fresh);
    }
}

/// The per-region memo of overfill edge choices: a corridor region picks its
/// rough edge once and every later occurrence reuses it, so the two sides of
/// a shared corridor boundary never disagree.
pub struct OverfillEdges {
    entries: Vec<(usize, u32)>,
}

impl OverfillEdges {
    pub closed spec fn view(&self) -> Seq<(usize, u32)> {
        self.entries@
    }

    pub fn new() -> (r: OverfillEdges)
        ensures
            r@ =~= Seq::<(usize, u32)>::empty(),
    {
        OverfillEdges { entries: Vec::new() }
    }

    /// The memoized edge for `region`, if one was picked before.
    pub fn get(&self, region: usize) -> (r: Option<u32>)
        ensures
            r == spec_edge(self@, region as int),
    {
        let ghost s = self.entries@;
        let n: usize = self.entries.len();
        let mut i: usize = 0;
        while i < n
            invariant
                s == self.entries@,
                n == s.len(),
                0 <= i <= n,
                edge_from(s, region as int, 0) == edge_from(s, region as int, i as int),
            decreases n - i,
        {
            if self.entries[i].0 == region {
                return Some(self.entries[i].1);
            }
            i = i + 1;
        }
        None
    }

    /// The memoized edge for `region`, memoizing `value` first if the region
    /// has none yet.  Afterwards the memo holds exactly the returned value,
    /// and a region that already had an edge keeps it: one choice per region,
    /// for the whole generation call.
    pub fn or_insert(&mut self, region: usize, value: u32) -> (r: u32)
        ensures
            match spec_edge(old(self)@, region as int) {
                Some(v) => r == v && final(self)@ == old(self)@,
                None => r == value && final(self)@ == old(self)@.push((region, value)),
            },
            spec_edge(final(self)@, region as int) == Some(r),
    {
        let existing = self.get(region);
        match existing {
            Some(v) => v,
            None => {
                proof {
                    lemma_edge_push(self.entries@, region as int, (region, value));
                }
                self.entries.push((region, value));
                value
            },
        }
    }
}

/// Couples the fine tile model with the coarse maze grid: the shared random
/// source, the overfill memo, and the fixed cell-size mapping between the
/// two coordinate systems.
pub struct GenModel {
    pub model: TilesModel,
    pub rand: ReproducibleRandom,
    pub region_overfill_edges: OverfillEdges,
    /// Size in tiles of one coarse maze cell, on each axis.
    pub total_grid_size: Point,
    pub width: i32,
    pub height: i32,
}

impl GenModel {
    pub open spec fn spec_width(&self) -> int {
        self.width as int
    }

    pub open spec fn spec_height(&self) -> int {
        self.height as int
    }

    pub open spec fn wf(&self) -> bool {
        &&& self.model.wf()
        &&& self.model.spec_width() == self.spec_width()
        &&& self.model.spec_height() == self.spec_height()
        &&& 0 < self.total_grid_size.x <= self.spec_width()
        &&& 0 < self.total_grid_size.y <= self.spec_height()
        &&& self.total_grid_size.x as int % GRID_DIM as int == 0
        &&& self.total_grid_size.y as int % GRID_DIM as int == 0
    }

    /// A fresh model over a `width` by `height` tile grid whose coarse cells
    /// are `gen_grid_width` by `gen_grid_height` placement-grid units.
    pub fn new(
        width: i32,
        height: i32,
        rand: ReproducibleRandom,
        gen_grid_width: i32,
        gen_grid_height: i32,
    ) -> (r: GenModel)
        requires
            GRID_DIM <= width,
            GRID_DIM <= height,
            width as int * height as int <= i32::MAX as int,
            0 < gen_grid_width,
            0 < gen_grid_height,
            gen_grid_width as int * GRID_DIM as int <= width as int,
            gen_grid_height as int * GRID_DIM as int <= height as int,
        ensures
            r.wf(),
            r.spec_width() == width,
            r.spec_height() == height,
            r.rand == rand,
            r.region_overfill_edges@ =~= Seq::<(usize, u32)>::empty(),
            r.total_grid_size.x == gen_grid_width as int * GRID_DIM as int,
            r.total_grid_size.y == gen_grid_height as int * GRID_DIM as int,
            r.model.spec_layers().len() == 0,
            forall|cx: int, cy: int| r.model.spec_wall_cell(cx, cy) == (0u8, None::<usize>),
            forall|cx: int, cy: int| r.model.spec_terrain_cell(cx, cy) == None::<usize>,
    {
        let model = TilesModel::new(width, height);
        let total = Point::new(gen_grid_width * GRID_DIM, gen_grid_height * GRID_DIM);
        proof {
            assert(total.x as int % GRID_DIM as int == 0 && total.y as int % GRID_DIM as int == 0)
                by (nonlinear_arith)
                requires
                    total.x == gen_grid_width as int * GRID_DIM as int,
                    total.y == gen_grid_height as int * GRID_DIM as int,
                    GRID_DIM == 2,
            ;
        }
        GenModel { model, rand, region_overfill_edges: OverfillEdges::new(), total_grid_size: total, width, height }
    }

    /// How many coarse maze cells fit on each axis.
    pub fn region_size(&self) -> (r: (i32, i32))
        requires
            self.wf(),
        ensures
            r.0 == self.spec_width() / self.total_grid_size.x as int,
            r.1 == self.spec_height() / self.total_grid_size.y as int,
            r.0 >= 1,
            r.1 >= 1,
    {
        let rw: i32 = self.width / self.total_grid_size.x;
        let rh: i32 = self.height / self.total_grid_size.y;
        proof {
            assert(rw >= 1 && rh >= 1) by (nonlinear_arith)
                requires
                    rw == self.width as int / self.total_grid_size.x as int,
                    rh == self.height as int / self.total_grid_size.y as int,
                    0 < self.total_grid_size.x <= self.width as int,
                    0 < self.total_grid_size.y <= self.height as int,
            ;
        }
        (rw, rh)
    }

    /// The coarse region cell containing tile coordinates `(x, y)`.
    pub fn to_region_coords(&self, x: i32, y: i32) -> (r: (i32, i32))
        requires
            self.wf(),
            0 <= x,
            0 <= y,
        ensures
            r.0 == x as int / self.total_grid_size.x as int,
            r.1 == y as int / self.total_grid_size.y as int,
    {
        (x / self.total_grid_size.x, y / self.total_grid_size.y)
    }

    /// The tile coordinates of the north-west corner of region cell
    /// `(rx, ry)`.
    pub fn from_region_coords(&self, rx: i32, ry: i32) -> (r: (i32, i32))
        requires
            self.wf(),
            0 <= rx,
            0 <= ry,
            rx as int * self.total_grid_size.x as int <= i32::MAX as int,
            ry as int * self.total_grid_size.y as int <= i32::MAX as int,
        ensures
            r.0 == rx as int * self.total_grid_size.x as int,
            r.1 == ry as int * self.total_grid_size.y as int,
    {
        proof {
            assert(0 <= rx as int * self.total_grid_size.x as int && 0 <= ry as int
                * self.total_grid_size.y as int) by (nonlinear_arith)
                requires
                    0 <= rx,
                    0 <= ry,
                    0 < self.total_grid_size.x,
                    0 < self.total_grid_size.y,
            ;
        }
        (rx * self.total_grid_size.x, ry * self.total_grid_size.y)
    }
}

/// Mapping a region cell to its corner tile and back lands on the same
/// region cell: the affine mapping loses nothing in this direction.
pub proof fn lemma_region_coords_round_trip(t: int, c: int)
    requires
        0 < t,
        0 <= c,
    ensures
        (c * t) / t == c,
{
    assert((c * t) / t == c) by (nonlinear_arith)
        requires
            0 < t,
            0 <= c,
    ;
}

/// Mapping a block-aligned tile coordinate to its region cell and back
/// returns the same coordinate: on aligned inputs the mapping is a
/// bijection, with `lemma_region_coords_round_trip` as the other direction.
pub proof fn lemma_tile_coords_round_trip(t: int, x: int)
    requires
        0 < t,
        0 <= x,
        x % t == 0,
    ensures
        (x / t) * t == x,
{
    assert((x / t) * t == x) by (nonlinear_arith)
        requires
            0 < t,
            0 <= x,
            x % t == 0,
    ;
}

/// The two coordinate conversions of a well-formed model invert each other —
/// the affine mapping is a bijection between region coordinates and
/// block-aligned tile coordinates: region coordinates survive a round trip
/// through tile coordinates, and aligned tile coordinates survive a round
/// trip through region coordinates, on both axes.
pub proof fn lemma_region_mapping_bijective(m: GenModel, rx: int, ry: int, x: int, y: int)
    requires
        m.wf(),
        0 <= rx,
        0 <= ry,
        0 <= x,
        0 <= y,
        x % m.total_grid_size.x as int == 0,
        y % m.total_grid_size.y as int == 0,
    ensures
        (rx * m.total_grid_size.x as int) / m.total_grid_size.x as int == rx,
        (ry * m.total_grid_size.y as int) / m.total_grid_size.y as int == ry,
        (x / m.total_grid_size.x as int) * m.total_grid_size.x as int == x,
        (y / m.total_grid_size.y as int) * m.total_grid_size.y as int == y,
{
    lemma_region_coords_round_trip(m.total_grid_size.x as int, rx);
    lemma_region_coords_round_trip(m.total_grid_size.y as int, ry);
    lemma_tile_coords_round_trip(m.total_grid_size.x as int, x);
    lemma_tile_coords_round_trip(m.total_grid_size.y as int, y);
}

} // verus!
