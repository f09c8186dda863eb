//! The fine tile-layer model and the generation model that couples it with
//! the coarse maze grid.
//!
//! `TilesModel` keeps named tile layers in insertion order, a wall cell grid
//! (elevation and wall kind per cell) and a terrain cell grid.  `GenModel`
//! adds the shared random source, the per-region overfill memo and the fixed
//! affine mapping between tile coordinates and coarse region coordinates.

use vstd::prelude::*;
use crate::geom::Point;
use crate::resources::Tile;

verus! {

/// Tile placement granularity: tiles snap to a grid this many cells wide.
pub const GRID_DIM: i32 = 2;

/// One named layer under construction: an ordered list of placements.
pub struct LayerModel {
    pub id: String,
    pub placements: Vec<(Point, Tile)>,
}

/// The index of the layer named `id`, scanning from `i`; the length of `s`
/// when no layer has that name.
pub open spec fn layer_index_from(s: Seq<LayerModel>, id: Seq<char>, i: int) -> int
    decreases s.len() - i,
{
    if i < 0 || i >= s.len() {
        s.len() as int
    } else if s[i].id@ == id {
        i
    } else {
        layer_index_from(s, id, i + 1)
    }
}

/// The index of the layer named `id`, or the layer count when absent.
pub open spec fn spec_layer_index(s: Seq<LayerModel>, id: Seq<char>) -> int {
    layer_index_from(s, id, 0)
}

/// One placement of `tile` at `(x, y)` was recorded: appended to the layer
/// the tile names, or to a new layer at the end for a name not seen before;
/// every other layer is untouched.
pub open spec fn spec_tile_added(
    pre: Seq<LayerModel>,
    post: Seq<LayerModel>,
    tile: Tile,
    x: i32,
    y: i32,
) -> bool {
    let li = spec_layer_index(pre, tile.layer@);
    if li < pre.len() {
        &&& post.len() == pre.len()
        &&& forall|j: int| 0 <= j < pre.len() && j != li ==> post[j] == pre[j]
        &&& post[li].id == pre[li].id
        &&& post[li].placements@ == pre[li].placements@.push((Point { x, y }, tile))
    } else {
        &&& post.len() == pre.len() + 1
        &&& forall|j: int| 0 <= j < pre.len() ==> post[j] == pre[j]
        &&& post[li].id@ == tile.layer@
        &&& post[li].placements@ =~= Seq::<(Point, Tile)>::empty().push((Point { x, y }, tile))
    }
}

/// The layer index scan stays within the table, scanning from any start.
pub proof fn lemma_layer_index_range(s: Seq<LayerModel>, id: Seq<char>, i: int)
    requires
        0 <= i <= s.len(),
    ensures
        i <= layer_index_from(s, id, i) <= s.len(),
    decreases s.len() - i,
{
    if i < s.len() && s[i].id@ != id {
        lemma_layer_index_range(s, id, i + 1);
    }
}

/// Total number of recorded tile placements, over all layers.
pub open spec fn placements_count(s: Seq<LayerModel>) -> int
    decreases s.len(),
{
    if s.len() == 0 {
        0
    } else {
        placements_count(s.drop_last()) + s.last().placements@.len()
    }
}

/// Growing one layer's placement list by one grows the total by one.
pub proof fn lemma_count_update(s1: Seq<LayerModel>, s2: Seq<LayerModel>, li: int)
    requires
        s1.len() == s2.len(),
        0 <= li < s1.len(),
        forall|j: int| 0 <= j < s1.len() && j != li ==> s2[j] == s1[j],
        s2[li].placements@.len() == s1[li].placements@.len() + 1,
    ensures
        placements_count(s2) == placements_count(s1) + 1,
    decreases s1.len(),
{
    if li == s1.len() - 1 {
        assert(s1.drop_last() =~= s2.drop_last());
    } else {
        assert(s2.last() == s1.last());
        assert forall|j: int|
            0 <= j < s1.drop_last().len() && j != li implies s2.drop_last()[j]
            == s1.drop_last()[j] by {
            assert(s2[j] == s1[j]);
        }
        assert(s2.drop_last()[li] == s2[li] && s1.drop_last()[li] == s1[li]);
        lemma_count_update(s1.drop_last(), s2.drop_last(), li);
    }
}

/// Recording one placement grows the total by exactly one.
pub proof fn lemma_count_tile_added(pre: Seq<LayerModel>, post: Seq<LayerModel>, t: Tile, x: i32, y: i32)
    requires
        spec_tile_added(pre, post, t, x, y),
    ensures
        placements_count(post) == placements_count(pre) + 1,
{
    let li = spec_layer_index(pre, t.layer@);
    lemma_layer_index_range(pre, t.layer@, 0);
    if li < pre.len() {
        lemma_count_update(pre, post, li);
    } else {
        assert(li == pre.len());
        assert(post.drop_last() =~= pre);
        assert(post.last() == post[li]);
        assert(post[li].placements@.len() == 1);
    }
}

/// The named set of tile layers with the wall and terrain cell grids.
pub struct TilesModel {
    width: i32,
    height: i32,
    pub grid_width: i32,
    pub grid_height: i32,
    cells_w: i32,
    cells_h: i32,
    layers: Vec<LayerModel>,
    walls: Vec<(u8, Option<usize>)>,
    terrain: Vec<Option<usize>>,
}

impl TilesModel {
    pub closed spec fn spec_width(&self) -> int {
        self.width as int
    }

    pub closed spec fn spec_height(&self) -> int {
        self.height as int
    }

    pub closed spec fn spec_cells_w(&self) -> int {
        self.cells_w as int
    }

    pub closed spec fn spec_cells_h(&self) -> int {
        self.cells_h as int
    }

    pub closed spec fn spec_layers(&self) -> Seq<LayerModel> {
        self.layers@
    }

    pub closed spec fn spec_walls(&self) -> Seq<(u8, Option<usize>)> {
        self.walls@
    }

    pub closed spec fn spec_terrain(&self) -> Seq<Option<usize>> {
        self.terrain@
    }

    /// The placement-grid fields hold the fixed granularity.
    pub closed spec fn spec_grid_fields_ok(&self) -> bool {
        self.grid_width == GRID_DIM && self.grid_height == GRID_DIM
    }

    pub open spec fn wf(&self) -> bool {
        &&& self.spec_grid_fields_ok()
        &&& 0 < self.spec_cells_w()
        &&& 0 < self.spec_cells_h()
        &&& self.spec_cells_w() == self.spec_width() / GRID_DIM as int
        &&& self.spec_cells_h() == self.spec_height() / GRID_DIM as int
        &&& GRID_DIM <= self.spec_width()
        &&& GRID_DIM <= self.spec_height()
        &&& self.spec_width() * self.spec_height() <= i32::MAX as int
        &&& self.spec_cells_w() * self.spec_cells_h() <= i32::MAX as int
        &&& self.spec_walls().len() == self.spec_cells_w() * self.spec_cells_h()
        &&& self.spec_terrain().len() == self.spec_cells_w() * self.spec_cells_h()
    }

    /// The wall cell at cell coordinates `(cx, cy)`: elevation and wall
    /// kind.  Outside the cell grid everything is flat and open.
    pub open spec fn spec_wall_cell(&self, cx: int, cy: int) -> (u8, Option<usize>) {
        if 0 <= cx < self.spec_cells_w() && 0 <= cy < self.spec_cells_h() {
            self.spec_walls()[cx + cy * self.spec_cells_w()]
        } else {
            (0u8, None)
        }
    }

    /// The terrain kind memoized for cell `(cx, cy)`.
    pub open spec fn spec_terrain_cell(&self, cx: int, cy: int) -> Option<usize> {
        if 0 <= cx < self.spec_cells_w() && 0 <= cy < self.spec_cells_h() {
            self.spec_terrain()[cx + cy * self.spec_cells_w()]
        } else {
            None
        }
    }

    /// A cell counts as wall when its elevation is raised.
    pub open spec fn spec_is_wall_cell(&self, cx: int, cy: int) -> bool {
        self.spec_wall_cell(cx, cy).0 != 0
    }

    /// An empty model over a `width` by `height` tile grid: no layers, every
    /// wall cell flat and open, no terrain.
    pub fn new(width: i32, height: i32) -> (r: TilesModel)
        requires
            GRID_DIM <= width,
            GRID_DIM <= height,
            width as int * height as int <= i32::MAX as int,
        ensures
            r.wf(),
            r.spec_width() == width,
            r.spec_height() == height,
            r.spec_layers().len() == 0,
            forall|cx: int, cy: int| r.spec_wall_cell(cx, cy) == (0u8, None::<usize>),
            forall|cx: int, cy: int| r.spec_terrain_cell(cx, cy) == None::<usize>,
    {
        let cells_w: i32 = width / GRID_DIM;
        let cells_h: i32 = height / GRID_DIM;
        proof {
            assert(0 < cells_w && 0 < cells_h && (cells_w as int) * (cells_h as int) <= i32::MAX
                as int) by (nonlinear_arith)
                requires
                    cells_w == width / GRID_DIM,
                    cells_h == height / GRID_DIM,
                    GRID_DIM == 2,
                    GRID_DIM <= width,
                    GRID_DIM <= height,
                    width as int * height as int <= i32::MAX as int,
            ;
        }
        let total: usize = (cells_w as usize) * (cells_h as usize);
        let mut walls: Vec<(u8, Option<usize>)> = Vec::new();
        let mut terrain: Vec<Option<usize>> = Vec::new();
        let mut i: usize = 0;
        while i < total
            invariant
                walls@.len() == i,
                terrain@.len() == i,
                i <= total,
                forall|j: int| 0 <= j < i ==> walls@[j] == (0u8, None::<usize>),
                forall|j: int| 0 <= j < i ==> terrain@[j] == None::<usize>,
            decreases total - i,
        {
            walls.push((0, None));
            terrain.push(None);
            i = i + 1;
        }
        let m = TilesModel {
            width,
            height,
            grid_width: GRID_DIM,
            grid_height: GRID_DIM,
            cells_w,
            cells_h,
            layers: Vec::new(),
            walls,
            terrain,
        };
        proof {
            assert forall|cx: int, cy: int| m.spec_wall_cell(cx, cy) == (0u8, None::<usize>) by {
                if 0 <= cx < m.spec_cells_w() && 0 <= cy < m.spec_cells_h() {
                    crate::maze::lemma_grid_index(cx, cy, m.spec_cells_w(), m.spec_cells_h());
                }
            }
            assert forall|cx: int, cy: int| m.spec_terrain_cell(cx, cy) == None::<usize> by {
                if 0 <= cx < m.spec_cells_w() && 0 <= cy < m.spec_cells_h() {
                    crate::maze::lemma_grid_index(cx, cy, m.spec_cells_w(), m.spec_cells_h());
                }
            }
        }
        m
    }

    pub fn width(&self) -> (r: i32)
        ensures
            r == self.spec_width(),
    {
        self.width
    }

    pub fn height(&self) -> (r: i32)
        ensures
            r == self.spec_height(),
    {
        self.height
    }

    pub fn cells_w(&self) -> (r: i32)
        ensures
            r == self.spec_cells_w(),
    {
        self.cells_w
    }

    pub fn cells_h(&self) -> (r: i32)
        ensures
            r == self.spec_cells_h(),
    {
        self.cells_h
    }

    pub fn layer_count(&self) -> (r: usize)
        ensures
            r == self.spec_layers().len(),
    {
        self.layers.len()
    }

    /// The id and placements of the layer at `index`.
    pub fn layer(&self, index: usize) -> (r: &LayerModel)
        requires
            index < self.spec_layers().len(),
        ensures
            *r == self.spec_layers()[index as int],
    {
        &self.layers[index]
    }

    /// Records a tile placement at `(x, y)` on the layer named by the tile,
    /// appending a new layer for a name not seen before.  Placements are not
    /// clipped here: out-of-bounds ones are dropped when the final layers
    /// are assembled.
    pub fn add(&mut self, tile: Tile, x: i32, y: i32)
        requires
            old(self).wf(),
        ensures
            final(self).wf(),
            final(self).spec_width() == old(self).spec_width(),
            final(self).spec_height() == old(self).spec_height(),
            final(self).spec_walls() == old(self).spec_walls(),
            final(self).spec_terrain() == old(self).spec_terrain(),
            final(self).spec_cells_w() == old(self).spec_cells_w(),
            final(self).spec_cells_h() == old(self).spec_cells_h(),
            spec_tile_added(old(self).spec_layers(), final(self).spec_layers(), tile, x, y),
    {
        let ghost s = self.layers@;
        let n: usize = self.layers.len();
        let key: String = tile.layer.clone();
        let mut i: usize = 0;
        while i < n
            invariant
                *self == *old(self),
                old(self).wf(),
                s == self.layers@,
                n == s.len(),
                0 <= i <= n,
                key@ == tile.layer@,
                layer_index_from(s, tile.layer@, 0) == layer_index_from(s, tile.layer@, i as int),
            decreases n - i,
        {
            if self.layers[i].id == key {
                proof {
                    assert(layer_index_from(s, tile.layer@, i as int) == i as int);
                }
                let p = Point::new(x, y);
                let mut lm = self.layers.remove(i);
                lm.placements.push((p, tile));
                self.layers.insert(i, lm);
                proof {
                    assert(self.layers@ =~= s.update(i as int, self.layers@[i as int]));
                }
                return ;
            }
            i = i + 1;
        }
        let mut placements: Vec<(Point, Tile)> = Vec::new();
        placements.push((Point::new(x, y), tile));
        self.layers.push(LayerModel { id: key, placements });
    }

    /// Sets elevation and wall kind for the wall cell containing tile
    /// coordinates `(x, y)`.  A position outside the area is silently
    /// dropped.
    pub fn set_wall(&mut self, x: i32, y: i32, elev: u8, kind: Option<usize>)
        requires
            old(self).wf(),
        ensures
            final(self).wf(),
            final(self).spec_width() == old(self).spec_width(),
            final(self).spec_height() == old(self).spec_height(),
            final(self).spec_cells_w() == old(self).spec_cells_w(),
            final(self).spec_cells_h() == old(self).spec_cells_h(),
            final(self).spec_layers() == old(self).spec_layers(),
            final(self).spec_terrain() == old(self).spec_terrain(),
            ({
                let cx = x as int / GRID_DIM as int;
                let cy = y as int / GRID_DIM as int;
                if 0 <= x && 0 <= y && cx < old(self).spec_cells_w() && cy < old(
                    self,
                ).spec_cells_h() {
                    &&& final(self).spec_wall_cell(cx, cy) == (elev, kind)
                    &&& forall|a: int, b: int|
                        !(a == cx && b == cy) ==> final(self).spec_wall_cell(a, b) == old(
                            self,
                        ).spec_wall_cell(a, b)
                } else {
                    final(self).spec_walls() == old(self).spec_walls()
                }
            }),
    {
        if x < 0 || y < 0 {
            return ;
        }
        let cx: i32 = x / GRID_DIM;
        let cy: i32 = y / GRID_DIM;
        if cx >= self.cells_w || cy >= self.cells_h {
            return ;
        }
        proof {
            crate::maze::lemma_grid_index(cx as int, cy as int, self.spec_cells_w(),
                self.spec_cells_h());
        }
        let idx: usize = (cx as usize) + (cy as usize) * (self.cells_w as usize);
        self.walls.set(idx, (elev, kind));
        proof {
            assert forall|a: int, b: int|
                !(a == cx as int && b == cy as int) implies self.spec_wall_cell(a, b) == old(
                self,
            ).spec_wall_cell(a, b) by {
                if 0 <= a < self.spec_cells_w() && 0 <= b < self.spec_cells_h() {
                    crate::maze::lemma_grid_index(a, b, self.spec_cells_w(), self.spec_cells_h());
                    if a + b * self.spec_cells_w() == cx as int + cy as int * self.spec_cells_w() {
                        crate::maze::lemma_grid_index_injective(
                            a,
                            b,
                            cx as int,
                            cy as int,
                            self.spec_cells_w(),
                        );
                    }
                }
            }
        }
    }

    /// True when the wall cell containing tile coordinates `(x, y)` is
    /// raised; positions outside the area count as open.
    pub fn is_wall(&self, x: i32, y: i32) -> (r: bool)
        requires
            self.wf(),
        ensures
            r == (0 <= x && 0 <= y && self.spec_is_wall_cell(
                x as int / GRID_DIM as int,
                y as int / GRID_DIM as int,
            )),
    {
        if x < 0 || y < 0 {
            return false;
        }
        let cx: i32 = x / GRID_DIM;
        let cy: i32 = y / GRID_DIM;
        self.wall_cell(cx, cy).0 != 0
    }

    /// The wall cell at cell coordinates `(cx, cy)`.
    pub fn wall_cell(&self, cx: i32, cy: i32) -> (r: (u8, Option<usize>))
        requires
            self.wf(),
        ensures
            r == self.spec_wall_cell(cx as int, cy as int),
    {
        if 0 <= cx && cx < self.cells_w && 0 <= cy && cy < self.cells_h {
            proof {
                crate::maze::lemma_grid_index(cx as int, cy as int, self.spec_cells_w(),
                    self.spec_cells_h());
            }
            let idx: usize = (cx as usize) + (cy as usize) * (self.cells_w as usize);
            self.walls[idx]
        } else {
            (0, None)
        }
    }

    /// Memoizes a terrain kind for the cell at `(cx, cy)`; positions outside
    /// the cell grid are silently dropped.
    pub fn set_terrain(&mut self, cx: i32, cy: i32, kind: Option<usize>)
        requires
            old(self).wf(),
        ensures
            final(self).wf(),
            final(self).spec_width() == old(self).spec_width(),
            final(self).spec_height() == old(self).spec_height(),
            final(self).spec_cells_w() == old(self).spec_cells_w(),
            final(self).spec_cells_h() == old(self).spec_cells_h(),
            final(self).spec_layers() == old(self).spec_layers(),
            final(self).spec_walls() == old(self).spec_walls(),
            if 0 <= cx < old(self).spec_cells_w() && 0 <= cy < old(self).spec_cells_h() {
                &&& final(self).spec_terrain_cell(cx as int, cy as int) == kind
                &&& forall|a: int, b: int|
                    !(a == cx as int && b == cy as int) ==> final(self).spec_terrain_cell(a, b)
                        == old(self).spec_terrain_cell(a, b)
            } else {
                final(self).spec_terrain() == old(self).spec_terrain()
            },
    {
        if 0 <= cx && cx < self.cells_w && 0 <= cy && cy < self.cells_h {
            proof {
                crate::maze::lemma_grid_index(cx as int, cy as int, self.spec_cells_w(),
                    self.spec_cells_h());
            }
            let idx: usize = (cx as usize) + (cy as usize) * (self.cells_w as usize);
            self.terrain.set(idx, kind);
            proof {
                assert forall|a: int, b: int|
                    !(a == cx as int && b == cy as int) implies self.spec_terrain_cell(a, b)
                    == old(self).spec_terrain_cell(a, b) by {
                    if 0 <= a < self.spec_cells_w() && 0 <= b < self.spec_cells_h() {
                        crate::maze::lemma_grid_index(a, b, self.spec_cells_w(),
                            self.spec_cells_h());
                        if a + b * self.spec_cells_w() == cx as int + cy as int
                            * self.spec_cells_w() {
                            crate::maze::lemma_grid_index_injective(
                                a,
                                b,
                                cx as int,
                                cy as int,
                                self.spec_cells_w(),
                            );
                        }
                    }
                }
            }
        }
    }

    /// The terrain kind memoized for cell `(cx, cy)`.
    pub fn terrain_cell(&self, cx: i32, cy: i32) -> (r: Option<usize>)
        requires
            self.wf(),
        ensures
            r == self.spec_terrain_cell(cx as int, cy as int),
    {
        if 0 <= cx && cx < self.cells_w && 0 <= cy && cy < self.cells_h {
            proof {
                crate::maze::lemma_grid_index(cx as int, cy as int, self.spec_cells_w(),
                    self.spec_cells_h());
            }
            let idx: usize = (cx as usize) + (cy as usize) * (self.cells_w as usize);
            self.terrain[idx]
        } else {
            None
        }
    }

    /// Adds the wall kind's fill tile at `(x, y)` when the containing cell
    /// is a raised wall of a known kind, and then its border tile when any
    /// of the four neighboring cells is open ground; otherwise the layers
    /// are untouched.
    pub fn check_add_wall_border(
        &mut self,
        kinds: &crate::weighted_list::WeightedList<crate::resources::WallKind>,
        x: i32,
        y: i32,
    )
        requires
            old(self).wf(),
            0 <= x,
            0 <= y,
        ensures
            final(self).wf(),
            final(self).spec_width() == old(self).spec_width(),
            final(self).spec_height() == old(self).spec_height(),
            final(self).spec_cells_w() == old(self).spec_cells_w(),
            final(self).spec_cells_h() == old(self).spec_cells_h(),
            final(self).spec_walls() == old(self).spec_walls(),
            final(self).spec_terrain() == old(self).spec_terrain(),
            ({
                let cx = x as int / GRID_DIM as int;
                let cy = y as int / GRID_DIM as int;
                let cell = old(self).spec_wall_cell(cx, cy);
                if cell.0 != 0 && (cell.1 matches Some(k) && k < kinds@.len()) {
                    let wk = kinds@[cell.1.unwrap() as int].0;
                    let open_neighbor = !old(self).spec_is_wall_cell(cx, cy - 1) || !old(
                        self,
                    ).spec_is_wall_cell(cx + 1, cy) || !old(self).spec_is_wall_cell(cx, cy + 1)
                        || !old(self).spec_is_wall_cell(cx - 1, cy);
                    if open_neighbor {
                        exists|mid: Seq<LayerModel>|
                            #[trigger] spec_tile_added(
                                old(self).spec_layers(),
                                mid,
                                wk.fill_tile,
                                x,
                                y,
                            ) && spec_tile_added(
                                mid,
                                final(self).spec_layers(),
                                wk.border_tile,
                                x,
                                y,
                            )
                    } else {
                        spec_tile_added(
                            old(self).spec_layers(),
                            final(self).spec_layers(),
                            wk.fill_tile,
                            x,
                            y,
                        )
                    }
                } else {
                    final(self).spec_layers() == old(self).spec_layers()
                }
            }),
    {
        let cx: i32 = x / GRID_DIM;
        let cy: i32 = y / GRID_DIM;
        let (elev, kind) = self.wall_cell(cx, cy);
        if elev == 0 {
            return ;
        }
        let k: usize = match kind {
            Some(k) => k,
            None => {
                return ;
            },
        };
        if k >= kinds.len() {
            return ;
        }
        proof {
            assert(0 <= cx && 0 <= cy && cx < i32::MAX && cy < i32::MAX);
        }
        let wk = kinds.get(k);
        let fill = wk.fill_tile.clone();
        let open_neighbor: bool = self.wall_cell(cx, cy - 1).0 == 0 || self.wall_cell(
            cx + 1,
            cy,
        ).0 == 0 || self.wall_cell(cx, cy + 1).0 == 0 || self.wall_cell(cx - 1, cy).0 == 0;
        self.add(fill, x, y);
        let ghost mid_layers = self.spec_layers();
        if open_neighbor {
            let border = wk.border_tile.clone();
            self.add(border, x, y);
            proof {
                assert(spec_tile_added(old(self).spec_layers(), mid_layers,
                    kinds@[k as int].0.fill_tile, x, y));
            }
        }
    }

    /// Adds the terrain kind's base tile at `(x, y)` when the containing
    /// cell is open ground with a memoized terrain kind; otherwise the
    /// layers are untouched.
    pub fn check_add_terrain(
        &mut self,
        kinds: &crate::weighted_list::WeightedList<crate::resources::TerrainKind>,
        x: i32,
        y: i32,
    )
        requires
            old(self).wf(),
            0 <= x,
            0 <= y,
        ensures
            final(self).wf(),
            final(self).spec_width() == old(self).spec_width(),
            final(self).spec_height() == old(self).spec_height(),
            final(self).spec_cells_w() == old(self).spec_cells_w(),
            final(self).spec_cells_h() == old(self).spec_cells_h(),
            final(self).spec_walls() == old(self).spec_walls(),
            final(self).spec_terrain() == old(self).spec_terrain(),
            ({
                let cx = x as int / GRID_DIM as int;
                let cy = y as int / GRID_DIM as int;
                let t = old(self).spec_terrain_cell(cx, cy);
                if !old(self).spec_is_wall_cell(cx, cy) && (t matches Some(k) && k
                    < kinds@.len()) {
                    spec_tile_added(
                        old(self).spec_layers(),
                        final(self).spec_layers(),
                        kinds@[t.unwrap() as int].0.base_tile,
                        x,
                        y,
                    )
                } else {
                    final(self).spec_layers() == old(self).spec_layers()
                }
            }),
    {
        let cx: i32 = x / GRID_DIM;
        let cy: i32 = y / GRID_DIM;
        if self.wall_cell(cx, cy).0 != 0 {
            return ;
        }
        let t: usize = match self.terrain_cell(cx, cy) {
            Some(t) => t,
            None => {
                return ;
            },
        };
        if t >= kinds.len() {
            return ;
        }
        let base = kinds.get(t).base_tile.clone();
        self.add(base, x, y);
    }

    /// Adds the terrain kind's border tile at `(x, y)` when the containing
    /// cell is open ground with a memoized terrain kind and any of the four
    /// neighboring cells is open ground carrying a different one; otherwise
    /// the layers are untouched.
    pub fn check_add_terrain_border(
        &mut self,
        kinds: &crate::weighted_list::WeightedList<crate::resources::TerrainKind>,
        x: i32,
        y: i32,
    )
        requires
            old(self).wf(),
            0 <= x,
            0 <= y,
        ensures
            final(self).wf(),
            final(self).spec_width() == old(self).spec_width(),
            final(self).spec_height() == old(self).spec_height(),
            final(self).spec_cells_w() == old(self).spec_cells_w(),
            final(self).spec_cells_h() == old(self).spec_cells_h(),
            final(self).spec_walls() == old(self).spec_walls(),
            final(self).spec_terrain() == old(self).spec_terrain(),
            ({
                let cx = x as int / GRID_DIM as int;
                let cy = y as int / GRID_DIM as int;
                let t = old(self).spec_terrain_cell(cx, cy);
                if !old(self).spec_is_wall_cell(cx, cy) && (t matches Some(k) && k < kinds@.len())
                    && (old(self).spec_differs_terrain(cx, cy - 1, t.unwrap()) || old(
                    self,
                ).spec_differs_terrain(cx + 1, cy, t.unwrap()) || old(self).spec_differs_terrain(
                    cx,
                    cy + 1,
                    t.unwrap(),
                ) || old(self).spec_differs_terrain(cx - 1, cy, t.unwrap())) {
                    spec_tile_added(
                        old(self).spec_layers(),
                        final(self).spec_layers(),
                        kinds@[t.unwrap() as int].0.border_tile,
                        x,
                        y,
                    )
                } else {
                    final(self).spec_layers() == old(self).spec_layers()
                }
            }),
    {
        let cx: i32 = x / GRID_DIM;
        let cy: i32 = y / GRID_DIM;
        if self.wall_cell(cx, cy).0 != 0 {
            return ;
        }
        let here = self.terrain_cell(cx, cy);
        let t: usize = match here {
            Some(t) => t,
            None => {
                return ;
            },
        };
        if t >= kinds.len() {
            return ;
        }
        let differs: bool = self.differs_terrain(cx, cy - 1, t) || self.differs_terrain(
            cx + 1,
            cy,
            t,
        ) || self.differs_terrain(cx, cy + 1, t) || self.differs_terrain(cx - 1, cy, t);
        if differs {
            let border = kinds.get(t).border_tile.clone();
            self.add(border, x, y);
        }
    }

    /// True when cell `(cx, cy)` lies on the grid, is open, and carries a
    /// terrain kind other than `t`.
    pub open spec fn spec_differs_terrain(&self, cx: int, cy: int, t: usize) -> bool {
        &&& 0 <= cx < self.spec_cells_w()
        &&& 0 <= cy < self.spec_cells_h()
        &&& !self.spec_is_wall_cell(cx, cy)
        &&& self.spec_terrain_cell(cx, cy) != Some(t)
    }

    fn differs_terrain(&self, cx: i32, cy: i32, t: usize) -> (r: bool)
        requires
            self.wf(),
        ensures
            r == self.spec_differs_terrain(cx as int, cy as int, t),
    {
        if 0 <= cx && cx < self.cells_w && 0 <= cy && cy < self.cells_h {
            if self.wall_cell(cx, cy).0 != 0 {
                return false;
            }
            let other = self.terrain_cell(cx, cy);
            match other {
                Some(o) => o != t,
                None => true,
            }
        } else {
            false
        }
    }
}

} // verus!
