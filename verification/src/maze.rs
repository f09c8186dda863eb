//! The coarse region grid: rooms and corridors carved over a cell grid.
//!
//! Each cell is a `TileKind`: wall, or part of a room or corridor region.
//! Carving only ever opens cells (a cell that is not wall never becomes wall
//! again), which is what guarantees that the open anchor points supplied to
//! `generate` are still walkable when it returns.

use vstd::prelude::*;
use crate::errors::GenError;
use crate::geom::Point;
use crate::rng::ReproducibleRandom;

verus! {

/// What occupies a coarse maze cell.
#[derive(Clone, Copy, PartialEq, Eq, Structural, Debug)]
pub enum TileKind {
    Wall,
    Corridor(usize),
    Room { region_id: usize },
}

impl TileKind {
    /// The region id carried by a room or corridor cell.
    pub open spec fn spec_region(self) -> Option<usize> {
        match self {
            TileKind::Wall => None,
            TileKind::Corridor(id) => Some(id),
            TileKind::Room { region_id } => Some(region_id),
        }
    }

    pub fn region(self) -> (r: Option<usize>)
        ensures
            r == self.spec_region(),
    {
        match self {
            TileKind::Wall => None,
            TileKind::Corridor(id) => Some(id),
            TileKind::Room { region_id } => Some(region_id),
        }
    }
}

/// Room and corridor carving parameters.  Chances are percentages in
/// `[0, 100]`; sizes and counts are in coarse maze cells.
#[derive(Clone, Copy, PartialEq, Eq, Structural, Debug)]
pub struct RoomParams {
    pub min_rooms: u32,
    pub max_rooms: u32,
    pub min_size: Point,
    pub max_size: Point,
    /// In invert mode the area starts open and maze regions are filled with
    /// walls; otherwise the area starts as wall and regions are carved open.
    pub invert: bool,
    pub room_edge_overfill_chance: u32,
    pub corridor_edge_overfill_chance: u32,
}

impl RoomParams {
    /// Structurally usable carving parameters.
    pub open spec fn spec_valid(self) -> bool {
        &&& self.min_rooms <= self.max_rooms
        &&& self.max_rooms < u32::MAX
        &&& 0 < self.min_size.x <= self.max_size.x
        &&& 0 < self.min_size.y <= self.max_size.y
    }

    pub fn valid(&self) -> (r: bool)
        ensures
            r == self.spec_valid(),
    {
        self.min_rooms <= self.max_rooms && self.max_rooms < u32::MAX
            && 0 < self.min_size.x && self.min_size.x <= self.max_size.x
            && 0 < self.min_size.y && self.min_size.y <= self.max_size.y
    }
}

/// A grid cell index is inside the flattened grid.
pub proof fn lemma_grid_index(x: int, y: int, w: int, h: int)
    requires
        0 <= x < w,
        0 <= y < h,
    ensures
        0 <= x + y * w < w * h,
{
    assert(0 <= x + y * w < w * h) by (nonlinear_arith)
        requires
            0 <= x < w,
            0 <= y < h,
    ;
}

/// The coarse maze grid.
pub struct Maze {
    width: i32,
    height: i32,
    cells: Vec<TileKind>,
}

impl Maze {
    pub closed spec fn spec_width(&self) -> int {
        self.width as int
    }

    pub closed spec fn spec_height(&self) -> int {
        self.height as int
    }

    pub open spec fn wf(&self) -> bool {
        &&& 0 < self.spec_width()
        &&& 0 < self.spec_height()
        &&& self.spec_width() * self.spec_height() <= i32::MAX as int
        &&& self.spec_cells().len() == self.spec_width() * self.spec_height()
    }

    /// The kind of the cell at `(x, y)`; everything outside the grid is wall.
    pub open spec fn spec_kind_at(&self, x: int, y: int) -> TileKind {
        if 0 <= x < self.spec_width() && 0 <= y < self.spec_height() {
            self.spec_cells()[x + y * self.spec_width()]
        } else {
            TileKind::Wall
        }
    }

    pub closed spec fn spec_cells(&self) -> Seq<TileKind> {
        self.cells@
    }

    /// An empty (all wall) region grid.
    pub fn new(width: i32, height: i32) -> (r: Maze)
        requires
            0 < width,
            0 < height,
            width as int * height as int <= i32::MAX as int,
        ensures
            r.wf(),
            r.spec_width() == width,
            r.spec_height() == height,
            forall|x: int, y: int| r.spec_kind_at(x, y) == TileKind::Wall,
    {
        proof {
            lemma_grid_index(width - 1, height - 1, width as int, height as int);
        }
        let total: usize = (width as usize) * (height as usize);
        let mut cells: Vec<TileKind> = Vec::new();
        let mut i: usize = 0;
        while i < total
            invariant
                cells@.len() == i,
                i <= total,
                forall|j: int| 0 <= j < i ==> cells@[j] == TileKind::Wall,
            decreases total - i,
        {
            cells.push(TileKind::Wall);
            i = i + 1;
        }
        let m = Maze { width, height, cells };
        proof {
            assert forall|x: int, y: int| m.spec_kind_at(x, y) == TileKind::Wall by {
                if 0 <= x < m.spec_width() && 0 <= y < m.spec_height() {
                    lemma_grid_index(x, y, m.spec_width(), m.spec_height());
                }
            }
        }
        m
    }

    pub fn width(&self) -> (r: i32)
        ensures
            r == self.spec_width(),
    {
        self.width
    }

    pub fn height(&self) -> (r: i32)
        ensures
            r == self.spec_height(),
    {
        self.height
    }

    /// The region id of the cell at `(x, y)`; `None` for wall cells and for
    /// coordinates outside the grid.
    pub fn region(&self, x: i32, y: i32) -> (r: Option<usize>)
        requires
            self.wf(),
        ensures
            r == self.spec_kind_at(x as int, y as int).spec_region(),
    {
        self.kind_at(x, y).region()
    }

    /// The kind of the cell at `(x, y)`; wall outside the grid.
    pub fn kind_at(&self, x: i32, y: i32) -> (r: TileKind)
        requires
            self.wf(),
        ensures
            r == self.spec_kind_at(x as int, y as int),
    {
        if 0 <= x && x < self.width && 0 <= y && y < self.height {
            proof {
                lemma_grid_index(x as int, y as int, self.width as int, self.height as int);
            }
            let idx: usize = (x as usize) + (y as usize) * (self.width as usize);
            self.cells[idx]
        } else {
            TileKind::Wall
        }
    }

    /// The cell itself and its four neighbors: index 0 is the cell, then
    /// north, east, south, west.  Entries outside the grid are `None`.
    pub fn neighbors(&self, x: i32, y: i32) -> (r: [Option<TileKind>; 5])
        requires
            self.wf(),
            i32::MIN < x < i32::MAX,
            i32::MIN < y < i32::MAX,
        ensures
            r[0] == self.spec_neighbor_at(x as int, y as int),
            r[1] == self.spec_neighbor_at(x as int, y as int - 1),
            r[2] == self.spec_neighbor_at(x as int + 1, y as int),
            r[3] == self.spec_neighbor_at(x as int, y as int + 1),
            r[4] == self.spec_neighbor_at(x as int - 1, y as int),
    {
        [
            self.neighbor_at(x, y),
            self.neighbor_at(x, y - 1),
            self.neighbor_at(x + 1, y),
            self.neighbor_at(x, y + 1),
            self.neighbor_at(x - 1, y),
        ]
    }

    /// The kind of an in-grid cell, `None` outside the grid.
    pub open spec fn spec_neighbor_at(&self, x: int, y: int) -> Option<TileKind> {
        if 0 <= x < self.spec_width() && 0 <= y < self.spec_height() {
            Some(self.spec_kind_at(x, y))
        } else {
            None
        }
    }

    fn neighbor_at(&self, x: i32, y: i32) -> (r: Option<TileKind>)
        requires
            self.wf(),
        ensures
            r == self.spec_neighbor_at(x as int, y as int),
    {
        if 0 <= x && x < self.width && 0 <= y && y < self.height {
            Some(self.kind_at(x, y))
        } else {
            None
        }
    }

    /// Opens one cell: a wall cell becomes `kind`; a cell that is already
    /// open, or outside the grid, is left as it is.  No cell ever goes back
    /// to wall.
    fn open_cell(&mut self, x: i32, y: i32, kind: TileKind)
        requires
            old(self).wf(),
            kind != TileKind::Wall,
        ensures
            final(self).wf(),
            final(self).spec_width() == old(self).spec_width(),
            final(self).spec_height() == old(self).spec_height(),
            preserves_open(*old(self), *final(self)),
            preserves_nonwall(*old(self), *final(self)),
            forall|a: int, b: int|
                !(a == x as int && b == y as int) ==> final(self).spec_kind_at(a, b)
                    == old(self).spec_kind_at(a, b),
            0 <= x < old(self).spec_width() && 0 <= y < old(self).spec_height() ==> {
                &&& final(self).spec_kind_at(x as int, y as int) != TileKind::Wall
                &&& (old(self).spec_kind_at(x as int, y as int) == TileKind::Wall
                    ==> final(self).spec_kind_at(x as int, y as int) == kind)
                &&& (old(self).spec_kind_at(x as int, y as int) != TileKind::Wall
                    ==> final(self).spec_kind_at(x as int, y as int)
                        == old(self).spec_kind_at(x as int, y as int))
            },
    {
        if 0 <= x && x < self.width && 0 <= y && y < self.height {
            proof {
                lemma_grid_index(x as int, y as int, self.width as int, self.height as int);
            }
            let idx: usize = (x as usize) + (y as usize) * (self.width as usize);
            match self.cells[idx] {
                TileKind::Wall => {
                    self.cells.set(idx, kind);
                    proof {
                        assert forall|a: int, b: int|
                            !(a == x as int && b == y as int) implies self.spec_kind_at(a, b)
                            == old(self).spec_kind_at(a, b) by {
                            if 0 <= a < self.spec_width() && 0 <= b < self.spec_height() {
                                lemma_grid_index(a, b, self.spec_width(), self.spec_height());
                                if a + b * self.spec_width() == x as int + y as int
                                    * self.spec_width() {
                                    crate::maze::lemma_grid_index_injective(
                                        a,
                                        b,
                                        x as int,
                                        y as int,
                                        self.spec_width(),
                                    );
                                }
                            }
                        }
                        assert forall|a: int, b: int|
                            old(self).spec_kind_at(a, b) != TileKind::Wall
                                implies #[trigger] self.spec_kind_at(a, b)
                            == old(self).spec_kind_at(a, b) by {
                            assert(!(a == x as int && b == y as int));
                        }
                        lemma_nonwall_implies_open(*old(self), *self);
                    }
                },
                _ => (),
            }
        }
    }

    /// True when every cell of the `w` by `h` rectangle at `(x, y)` is wall.
    fn rect_all_wall(&self, x: i32, y: i32, w: i32, h: i32) -> (r: bool)
        requires
            self.wf(),
            0 <= x,
            0 <= y,
            1 <= w,
            1 <= h,
            x + w <= self.spec_width(),
            y + h <= self.spec_height(),
        ensures
            r == (forall|a: int, b: int|
                x <= a < x + w && y <= b < y + h ==> #[trigger] self.spec_kind_at(a, b)
                    == TileKind::Wall),
    {
        let mut yy: i32 = y;
        while yy < y + h
            invariant
                self.wf(),
                y <= yy <= y + h,
                y + h <= self.spec_height(),
                x + w <= self.spec_width(),
                0 <= x,
                0 <= y,
                1 <= w,
                forall|a: int, b: int|
                    x <= a < x + w && y <= b < yy ==> #[trigger] self.spec_kind_at(a, b)
                        == TileKind::Wall,
            decreases y + h - yy,
        {
            let mut xx: i32 = x;
            while xx < x + w
                invariant
                    self.wf(),
                    x <= xx <= x + w,
                    x + w <= self.spec_width(),
                    0 <= x,
                    y <= yy < y + h,
                    forall|a: int, b: int|
                        x <= a < x + w && y <= b < yy ==> #[trigger] self.spec_kind_at(a, b)
                            == TileKind::Wall,
                    forall|a: int|
                        x <= a < xx ==> #[trigger] self.spec_kind_at(a, yy as int)
                            == TileKind::Wall,
                decreases x + w - xx,
            {
                match self.kind_at(xx, yy) {
                    TileKind::Wall => (),
                    _ => {
                        return false;
                    },
                }
                xx = xx + 1;
            }
            yy = yy + 1;
        }
        true
    }

    /// Opens every cell of a rectangle as `kind`: wall cells in the
    /// rectangle become `kind`, open ones are untouched, and nothing outside
    /// the rectangle changes.
    fn carve_rect(&mut self, x: i32, y: i32, w: i32, h: i32, kind: TileKind)
        requires
            old(self).wf(),
            kind != TileKind::Wall,
            0 <= x,
            0 <= y,
            1 <= w,
            1 <= h,
            x + w <= old(self).spec_width(),
            y + h <= old(self).spec_height(),
        ensures
            final(self).wf(),
            final(self).spec_width() == old(self).spec_width(),
            final(self).spec_height() == old(self).spec_height(),
            preserves_open(*old(self), *final(self)),
            preserves_nonwall(*old(self), *final(self)),
            forall|a: int, b: int|
                #[trigger] final(self).spec_kind_at(a, b) == (if x <= a < x + w && y <= b < y + h
                    && old(self).spec_kind_at(a, b) == TileKind::Wall {
                    kind
                } else {
                    old(self).spec_kind_at(a, b)
                }),
    {
        let mut yy: i32 = y;
        while yy < y + h
            invariant
                self.wf(),
                self.spec_width() == old(self).spec_width(),
                self.spec_height() == old(self).spec_height(),
                y <= yy <= y + h,
                y + h <= self.spec_height(),
                x + w <= self.spec_width(),
                0 <= x,
                0 <= y,
                1 <= w,
                kind != TileKind::Wall,
                forall|a: int, b: int|
                    #[trigger] self.spec_kind_at(a, b) == (if x <= a < x + w && y <= b < yy
                        && old(self).spec_kind_at(a, b) == TileKind::Wall {
                        kind
                    } else {
                        old(self).spec_kind_at(a, b)
                    }),
            decreases y + h - yy,
        {
            let mut xx: i32 = x;
            while xx < x + w
                invariant
                    self.wf(),
                    self.spec_width() == old(self).spec_width(),
                    self.spec_height() == old(self).spec_height(),
                    x <= xx <= x + w,
                    x + w <= self.spec_width(),
                    y <= yy < self.spec_height(),
                    yy < y + h,
                    0 <= x,
                    0 <= y,
                    kind != TileKind::Wall,
                    forall|a: int, b: int|
                        #[trigger] self.spec_kind_at(a, b) == (if x <= a < x + w && (y <= b < yy
                            || (b == yy && x <= a < xx)) && old(self).spec_kind_at(a, b)
                            == TileKind::Wall {
                            kind
                        } else {
                            old(self).spec_kind_at(a, b)
                        }),
                decreases x + w - xx,
            {
                self.open_cell(xx, yy, kind);
                xx = xx + 1;
            }
            yy = yy + 1;
        }
        proof {
            assert forall|a: int, b: int|
                old(self).spec_kind_at(a, b) != TileKind::Wall
                    implies #[trigger] self.spec_kind_at(a, b) == old(self).spec_kind_at(
                a,
                b,
            ) by {}
            lemma_nonwall_implies_open(*old(self), *self);
        }
    }

    /// Opens an L-shaped corridor between two points: first along x at the
    /// starting row, then along y at the ending column.  Only wall cells on
    /// the path change; everything open stays exactly as it was.
    fn carve_corridor(&mut self, from: Point, to: Point, region: usize)
        requires
            old(self).wf(),
            from.spec_in_bounds(old(self).spec_width(), old(self).spec_height()),
            to.spec_in_bounds(old(self).spec_width(), old(self).spec_height()),
        ensures
            final(self).wf(),
            final(self).spec_width() == old(self).spec_width(),
            final(self).spec_height() == old(self).spec_height(),
            preserves_open(*old(self), *final(self)),
            preserves_nonwall(*old(self), *final(self)),
    {
        let kind = TileKind::Corridor(region);
        let lo_x: i32 = if from.x <= to.x {
            from.x
        } else {
            to.x
        };
        let hi_x: i32 = if from.x <= to.x {
            to.x
        } else {
            from.x
        };
        let mut cx: i32 = lo_x;
        while cx <= hi_x
            invariant
                self.wf(),
                self.spec_width() == old(self).spec_width(),
                self.spec_height() == old(self).spec_height(),
                preserves_nonwall(*old(self), *self),
                lo_x <= cx <= hi_x + 1,
                hi_x < self.spec_width(),
                kind != TileKind::Wall,
            decreases hi_x + 1 - cx,
        {
            let ghost pre = *self;
            self.open_cell(cx, from.y, kind);
            proof {
                lemma_preserves_nonwall_trans(*old(self), pre, *self);
            }
            cx = cx + 1;
        }
        let lo_y: i32 = if from.y <= to.y {
            from.y
        } else {
            to.y
        };
        let hi_y: i32 = if from.y <= to.y {
            to.y
        } else {
            from.y
        };
        let mut cy: i32 = lo_y;
        while cy <= hi_y
            invariant
                self.wf(),
                self.spec_width() == old(self).spec_width(),
                self.spec_height() == old(self).spec_height(),
                preserves_nonwall(*old(self), *self),
                lo_y <= cy <= hi_y + 1,
                hi_y < self.spec_height(),
                kind != TileKind::Wall,
            decreases hi_y + 1 - cy,
        {
            let ghost pre = *self;
            self.open_cell(to.x, cy, kind);
            proof {
                lemma_preserves_nonwall_trans(*old(self), pre, *self);
            }
            cy = cy + 1;
        }
        proof {
            lemma_nonwall_implies_open(*old(self), *self);
        }
    }

    /// Fills the grid with rooms and connecting corridors, drawn from the
    /// shared random source.
    ///
    /// Every anchor in `open_locs` that lies on the grid is opened first and
    /// is still open (never wall) on success: later carving only ever opens
    /// cells.  Structurally unusable parameters are rejected as
    /// `InvalidData` before anything is carved; if fewer than
    /// `params.min_rooms` rooms could be placed within the bounded attempt
    /// budget the carve fails as `GenerationFailed`.  With `min_rooms` zero
    /// (and usable parameters) generation always succeeds.
    #[verifier::rlimit(100)]
    pub fn generate(
        &mut self,
        params: &RoomParams,
        rand: &mut ReproducibleRandom,
        open_locs: &Vec<Point>,
    ) -> (r: Result<(), GenError>)
        requires
            old(self).wf(),
            open_locs@.len() + 2 * (params.max_rooms as int) + 1 < usize::MAX as int,
        ensures
            final(self).wf(),
            final(self).spec_width() == old(self).spec_width(),
            final(self).spec_height() == old(self).spec_height(),
            (r == Err::<(), GenError>(GenError::InvalidData)) <==> !params.spec_valid(),
            r is Err ==> r == Err::<(), GenError>(GenError::InvalidData) || r == Err::<(
                // the only other failure is an exhausted placement budget
                ),
                GenError,
            >(GenError::GenerationFailed),
            r is Ok ==> anchors_open(*final(self), open_locs@),
            r is Ok ==> exists|rooms: Seq<(int, int, int, int, usize)>|
                rooms.len() >= params.min_rooms && #[trigger] spec_rooms_carved(
                    *final(self),
                    rooms,
                ),
            params.spec_valid() && params.min_rooms == 0 ==> r is Ok,
    {
        if !params.valid() {
            return Err(GenError::InvalidData);
        }
        let width: i32 = self.width;
        let height: i32 = self.height;

        // Open every in-grid anchor as its own corridor region, so that a
        // transition point is never sealed off by the carve that follows.
        let mut region_counter: usize = 0;
        let mut i: usize = 0;
        while i < open_locs.len()
            invariant
                self.wf(),
                self.spec_width() == old(self).spec_width(),
                self.spec_height() == old(self).spec_height(),
                0 <= i <= open_locs@.len(),
                region_counter == i,
                open_locs@.len() + 2 * (params.max_rooms as int) + 1 < usize::MAX as int,
                forall|j: int|
                    0 <= j < i && open_locs@[j].spec_in_bounds(
                        self.spec_width(),
                        self.spec_height(),
                    ) ==> #[trigger] self.spec_kind_at(
                        open_locs@[j].x as int,
                        open_locs@[j].y as int,
                    ) != TileKind::Wall,
            decreases open_locs@.len() - i,
        {
            let p = open_locs[i];
            self.open_cell(p.x, p.y, TileKind::Corridor(region_counter));
            region_counter = region_counter + 1;
            i = i + 1;
        }
        assert(anchors_open(*self, open_locs@));
        let ghost anchored = *self;

        // Place rooms at random until the target count is reached or the
        // attempt budget runs out.
        let target: u32 = rand.gen(params.min_rooms, params.max_rooms + 1);
        let budget: u64 = (target as u64) * 10;
        let mut rooms: Vec<(i32, i32, i32, i32)> = Vec::new();
        let mut placed: u32 = 0;
        let mut attempt: u64 = 0;
        while attempt < budget && placed < target
            invariant
                self.wf(),
                self.spec_width() == old(self).spec_width(),
                self.spec_height() == old(self).spec_height(),
                self.spec_width() == width as int,
                self.spec_height() == height as int,
                anchors_open(*self, open_locs@),
                params.spec_valid(),
                open_locs@.len() + 2 * (params.max_rooms as int) + 1 < usize::MAX as int,
                placed <= target <= params.max_rooms,
                rooms@.len() == placed,
                region_counter == open_locs@.len() + placed,
                forall|k: int|
                    0 <= k < rooms@.len() ==> {
                        let (rx, ry, rw, rh) = #[trigger] rooms@[k];
                        &&& 0 <= rx
                        &&& 0 <= ry
                        &&& 1 <= rw
                        &&& 1 <= rh
                        &&& rx + rw <= width
                        &&& ry + rh <= height
                    },
                forall|k: int|
                    0 <= k < rooms@.len() ==> spec_room_at(*self, (#[trigger] rooms@[k]).0 as int,
                        rooms@[k].1 as int, rooms@[k].2 as int, rooms@[k].3 as int,
                        (open_locs@.len() + k) as usize),
            decreases budget - attempt,
        {
            attempt = attempt + 1;
            let w: i32 = rand.gen(params.min_size.x as u32, (params.max_size.x as u32) + 1) as i32;
            let h: i32 = rand.gen(params.min_size.y as u32, (params.max_size.y as u32) + 1) as i32;
            if w > width || h > height {
                continue;
            }
            let x: i32 = rand.gen(0, (width - w + 1) as u32) as i32;
            let y: i32 = rand.gen(0, (height - h + 1) as u32) as i32;
            if self.rect_all_wall(x, y, w, h) {
                let ghost pre = *self;
                self.carve_rect(x, y, w, h, TileKind::Room { region_id: region_counter });
                proof {
                    lemma_anchors_stay_open(pre, *self, open_locs@);
                }
                rooms.push((x, y, w, h));
                proof {
                    assert forall|k: int|
                        0 <= k < rooms@.len() implies spec_room_at(*self,
                        (#[trigger] rooms@[k]).0 as int, rooms@[k].1 as int, rooms@[k].2 as int,
                        rooms@[k].3 as int, (open_locs@.len() + k) as usize) by {
                        if k < rooms@.len() - 1 {
                            assert(spec_room_at(pre, rooms@[k].0 as int, rooms@[k].1 as int,
                                rooms@[k].2 as int, rooms@[k].3 as int,
                                (open_locs@.len() + k) as usize));
                            assert forall|a: int, b: int|
                                rooms@[k].0 <= a < rooms@[k].0 + rooms@[k].2 && rooms@[k].1 <= b
                                    < rooms@[k].1 + rooms@[k].3 implies #[trigger] self.spec_kind_at(
                                a,
                                b,
                            ) == (TileKind::Room {
                                region_id: (open_locs@.len() + k) as usize,
                            }) by {
                                assert(pre.spec_kind_at(a, b) == (TileKind::Room {
                                    region_id: (open_locs@.len() + k) as usize,
                                }));
                            }
                        } else {
                            assert forall|a: int, b: int|
                                x <= a < x + w && y <= b < y + h
                                    implies #[trigger] self.spec_kind_at(a, b) == (TileKind::Room {
                                region_id: region_counter,
                            }) by {
                                assert(pre.spec_kind_at(a, b) == TileKind::Wall);
                            }
                        }
                    }
                }
                region_counter = region_counter + 1;
                placed = placed + 1;
            }
        }
        if placed < params.min_rooms {
            return Err(GenError::GenerationFailed);
        }
        let ghost room_seq: Seq<(int, int, int, int, usize)> = Seq::new(
            rooms@.len(),
            |k: int|
                (
                    rooms@[k].0 as int,
                    rooms@[k].1 as int,
                    rooms@[k].2 as int,
                    rooms@[k].3 as int,
                    (open_locs@.len() + k) as usize,
                ),
        );
        proof {
            assert forall|k: int|
                0 <= k < room_seq.len() implies spec_room_at(*self, (#[trigger] room_seq[k]).0,
                room_seq[k].1, room_seq[k].2, room_seq[k].3, room_seq[k].4) by {
                assert(spec_room_at(*self, rooms@[k].0 as int, rooms@[k].1 as int,
                    rooms@[k].2 as int, rooms@[k].3 as int, (open_locs@.len() + k) as usize));
            }
            assert(spec_rooms_carved(*self, room_seq));
        }

        // Connect successive rooms with L-shaped corridors, each a region of
        // its own.
        let mut k: usize = 1;
        while k < rooms.len()
            invariant
                self.wf(),
                self.spec_width() == old(self).spec_width(),
                self.spec_height() == old(self).spec_height(),
                self.spec_width() == width as int,
                self.spec_height() == height as int,
                anchors_open(*self, open_locs@),
                spec_rooms_carved(*self, room_seq),
                room_seq.len() == placed,
                placed >= params.min_rooms,
                open_locs@.len() + 2 * (params.max_rooms as int) + 1 < usize::MAX as int,
                1 <= k <= rooms@.len() || rooms@.len() == 0,
                rooms@.len() == placed,
                region_counter <= open_locs@.len() + placed + k,
                placed <= params.max_rooms,
                k <= rooms@.len() + 1,
                forall|j: int|
                    0 <= j < rooms@.len() ==> {
                        let (rx, ry, rw, rh) = #[trigger] rooms@[j];
                        &&& 0 <= rx
                        &&& 0 <= ry
                        &&& 1 <= rw
                        &&& 1 <= rh
                        &&& rx + rw <= width
                        &&& ry + rh <= height
                    },
            decreases rooms@.len() - k,
        {
            let (ax, ay, aw, ah) = rooms[k - 1];
            let (bx, by, bw, bh) = rooms[k];
            let from = Point::new(ax + aw / 2, ay + ah / 2);
            let to = Point::new(bx + bw / 2, by + bh / 2);
            let ghost pre = *self;
            self.carve_corridor(from, to, region_counter);
            proof {
                lemma_anchors_stay_open(pre, *self, open_locs@);
                lemma_rooms_stay_carved(pre, *self, room_seq);
            }
            region_counter = region_counter + 1;
            k = k + 1;
        }

        // Connect each in-grid anchor to the first room, reusing the
        // anchor's own corridor region.
        if rooms.len() > 0 {
            let (rx, ry, rw, rh) = rooms[0];
            let room_center = Point::new(rx + rw / 2, ry + rh / 2);
            let mut a: usize = 0;
            while a < open_locs.len()
                invariant
                    self.wf(),
                    self.spec_width() == old(self).spec_width(),
                    self.spec_height() == old(self).spec_height(),
                    self.spec_width() == width as int,
                    self.spec_height() == height as int,
                    anchors_open(*self, open_locs@),
                    spec_rooms_carved(*self, room_seq),
                    room_seq.len() == placed,
                    placed >= params.min_rooms,
                    0 <= a <= open_locs@.len(),
                    room_center.spec_in_bounds(width as int, height as int),
                decreases open_locs@.len() - a,
            {
                let p = open_locs[a];
                if p.in_bounds(width, height) {
                    let ghost pre = *self;
                    self.carve_corridor(p, room_center, a);
                    proof {
                        lemma_anchors_stay_open(pre, *self, open_locs@);
                        lemma_rooms_stay_carved(pre, *self, room_seq);
                    }
                }
                a = a + 1;
            }
        }

        Ok(())
    }
}

/// Carving never touches an open cell: everything that is not wall in `pre`
/// is exactly the same in `post`.
pub open spec fn preserves_nonwall(pre: Maze, post: Maze) -> bool {
    forall|a: int, b: int|
        pre.spec_kind_at(a, b) != TileKind::Wall ==> #[trigger] post.spec_kind_at(a, b)
            == pre.spec_kind_at(a, b)
}

pub proof fn lemma_preserves_nonwall_trans(m1: Maze, m2: Maze, m3: Maze)
    requires
        preserves_nonwall(m1, m2),
        preserves_nonwall(m2, m3),
    ensures
        preserves_nonwall(m1, m3),
{
    assert forall|a: int, b: int|
        m1.spec_kind_at(a, b) != TileKind::Wall implies #[trigger] m3.spec_kind_at(a, b)
        == m1.spec_kind_at(a, b) by {
        assert(m2.spec_kind_at(a, b) == m1.spec_kind_at(a, b));
    }
}

/// The `rw` by `rh` rectangle at `(rx, ry)` lies on the grid and every one
/// of its cells is classified as a room of region `region`.
pub open spec fn spec_room_at(m: Maze, rx: int, ry: int, rw: int, rh: int, region: usize) -> bool {
    &&& 0 <= rx
    &&& 0 <= ry
    &&& 1 <= rw
    &&& 1 <= rh
    &&& rx + rw <= m.spec_width()
    &&& ry + rh <= m.spec_height()
    &&& forall|a: int, b: int|
        rx <= a < rx + rw && ry <= b < ry + rh ==> #[trigger] m.spec_kind_at(a, b)
            == (TileKind::Room { region_id: region })
}

/// Every entry of `rooms` is a room rectangle standing in the grid, and no
/// two entries share a region id — so they are pairwise disjoint rooms.
pub open spec fn spec_rooms_carved(m: Maze, rooms: Seq<(int, int, int, int, usize)>) -> bool {
    &&& forall|k: int|
        0 <= k < rooms.len() ==> spec_room_at(m, (#[trigger] rooms[k]).0, rooms[k].1, rooms[k].2,
            rooms[k].3, rooms[k].4)
    &&& forall|k1: int, k2: int|
        0 <= k1 < k2 < rooms.len() ==> (#[trigger] rooms[k1]).4 != (#[trigger] rooms[k2]).4
}

/// Rooms stay carved under any further carving that only touches wall.
pub proof fn lemma_rooms_stay_carved(pre: Maze, post: Maze, rooms: Seq<(int, int, int, int, usize)>)
    requires
        spec_rooms_carved(pre, rooms),
        preserves_nonwall(pre, post),
        pre.spec_width() == post.spec_width(),
        pre.spec_height() == post.spec_height(),
    ensures
        spec_rooms_carved(post, rooms),
{
    assert forall|k: int|
        0 <= k < rooms.len() implies spec_room_at(post, (#[trigger] rooms[k]).0, rooms[k].1,
        rooms[k].2, rooms[k].3, rooms[k].4) by {
        assert(spec_room_at(pre, rooms[k].0, rooms[k].1, rooms[k].2, rooms[k].3, rooms[k].4));
        assert forall|a: int, b: int|
            rooms[k].0 <= a < rooms[k].0 + rooms[k].2 && rooms[k].1 <= b < rooms[k].1
                + rooms[k].3 implies #[trigger] post.spec_kind_at(a, b) == (TileKind::Room {
            region_id: rooms[k].4,
        }) by {
            assert(pre.spec_kind_at(a, b) == (TileKind::Room { region_id: rooms[k].4 }));
        }
    }
}

/// Untouched open cells in particular stay open.
pub proof fn lemma_nonwall_implies_open(pre: Maze, post: Maze)
    requires
        preserves_nonwall(pre, post),
    ensures
        preserves_open(pre, post),
{
    assert forall|a: int, b: int|
        pre.spec_kind_at(a, b) != TileKind::Wall implies #[trigger] post.spec_kind_at(a, b)
        != TileKind::Wall by {
        assert(post.spec_kind_at(a, b) == pre.spec_kind_at(a, b));
    }
}

/// Carving never closes a cell: everything open in `pre` is open in `post`.
pub open spec fn preserves_open(pre: Maze, post: Maze) -> bool {
    forall|a: int, b: int|
        pre.spec_kind_at(a, b) != TileKind::Wall ==> #[trigger] post.spec_kind_at(a, b)
            != TileKind::Wall
}

/// Every anchor point that lies on the grid is open (not wall).
pub open spec fn anchors_open(m: Maze, locs: Seq<Point>) -> bool {
    forall|j: int|
        0 <= j < locs.len() && locs[j].spec_in_bounds(m.spec_width(), m.spec_height())
            ==> #[trigger] m.spec_kind_at(locs[j].x as int, locs[j].y as int) != TileKind::Wall
}

/// Open anchors stay open under carving that preserves grid size.
pub proof fn lemma_anchors_stay_open(pre: Maze, post: Maze, locs: Seq<Point>)
    requires
        anchors_open(pre, locs),
        preserves_open(pre, post),
        pre.spec_width() == post.spec_width(),
        pre.spec_height() == post.spec_height(),
    ensures
        anchors_open(post, locs),
{
    assert forall|j: int|
        0 <= j < locs.len() && locs[j].spec_in_bounds(post.spec_width(), post.spec_height())
            implies #[trigger] post.spec_kind_at(locs[j].x as int, locs[j].y as int)
        != TileKind::Wall by {
        assert(pre.spec_kind_at(locs[j].x as int, locs[j].y as int) != TileKind::Wall);
    }
}

/// Two distinct in-row coordinates never share a flattened grid index.
pub proof fn lemma_grid_index_injective(a: int, b: int, x: int, y: int, w: int)
    requires
        0 <= a < w,
        0 <= x < w,
        0 <= b,
        0 <= y,
        a + b * w == x + y * w,
    ensures
        a == x && b == y,
{
    assert(a == x && b == y) by (nonlinear_arith)
        requires
            0 <= a < w,
            0 <= x < w,
            0 <= b,
            0 <= y,
            a + b * w == x + y * w,
    ;
}

} // verus!
