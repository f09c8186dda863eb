//! The ordered content passes: terrain, features, props, encounters and
//! transitions.  Each consumes the generation model left behind by the
//! passes before it; the pipeline order is part of the generator's contract.

use vstd::prelude::*;
use crate::errors::GenError;
use crate::gen_model::GenModel;
use crate::geom::Point;
use crate::layer::Layer;
use crate::maze::Maze;
use crate::params::{
    EncounterParams, FeatureParams, PropParams, TerrainParams, TransitionAreaParams,
    TransitionKind, TransitionParams,
};
use crate::area_generator::{EncounterOutput, PropOutput};
use crate::rng::ReproducibleRandom;
use crate::weighted_list::total_weight;

verus! {

/// What every content pass leaves untouched: the wall grid, the dimensions
/// and the mapping.  Passes only add tile placements, draw randomness and
/// (for the terrain pass) fill the terrain memo.
pub open spec fn pass_frame(pre: GenModel, cur: GenModel) -> bool {
    &&& cur.model.spec_walls() == pre.model.spec_walls()
    &&& cur.model.spec_width() == pre.model.spec_width()
    &&& cur.model.spec_height() == pre.model.spec_height()
    &&& cur.model.spec_cells_w() == pre.model.spec_cells_w()
    &&& cur.model.spec_cells_h() == pre.model.spec_cells_h()
    &&& cur.total_grid_size == pre.total_grid_size
    &&& cur.spec_width() == pre.spec_width()
    &&& cur.spec_height() == pre.spec_height()
}

/// After the terrain pass: every open cell carries terrain kind `k`, every
/// wall cell keeps what it had.
pub open spec fn terrain_filled(pre: GenModel, post: GenModel, k: usize) -> bool {
    forall|cx: int, cy: int|
        0 <= cx < pre.model.spec_cells_w() && 0 <= cy < pre.model.spec_cells_h()
            ==> #[trigger] post.model.spec_terrain_cell(cx, cy) == (
        if !pre.model.spec_is_wall_cell(cx, cy) {
            Some(k)
        } else {
            pre.model.spec_terrain_cell(cx, cy)
        })
}

/// The terrain pass: draws one base terrain kind and memoizes it for every
/// open cell of the area.
pub struct TerrainGen<'a> {
    pub params: &'a TerrainParams,
    pub maze: &'a Maze,
}

impl<'a> TerrainGen<'a> {
    pub fn new(params: &'a TerrainParams, maze: &'a Maze) -> (r: TerrainGen<'a>)
        ensures
            r.params == params,
            r.maze == maze,
    {
        TerrainGen { params, maze }
    }

    /// Draws a base terrain kind (none when the weighted table is empty or
    /// all zero) and memoizes it for exactly the open cells: wall cells keep
    /// their terrain, every open cell ends with the drawn kind.
    pub fn generate(&self, model: &mut GenModel)
        requires
            old(model).wf(),
            self.params.kinds.wf(),
        ensures
            final(model).wf(),
            pass_frame(*old(model), *final(model)),
            final(model).model.spec_layers() == old(model).model.spec_layers(),
            final(model).region_overfill_edges@ == old(model).region_overfill_edges@,
            total_weight(self.params.kinds@) == 0 ==> *final(model) == *old(model),
            total_weight(self.params.kinds@) > 0 ==> exists|k: usize|
                k < self.params.kinds@.len() && #[trigger] terrain_filled(
                    *old(model),
                    *final(model),
                    k,
                ),
    {
        let picked = self.params.kinds.pick_index(&mut model.rand);
        let k: usize = match picked {
            None => {
                return ;
            },
            Some(k) => k,
        };
        let cw: i32 = model.model.cells_w();
        let ch: i32 = model.model.cells_h();
        let ghost pre = *model;
        let mut cy: i32 = 0;
        while cy < ch
            invariant
                model.wf(),
                pass_frame(pre, *model),
                model.model.spec_layers() == pre.model.spec_layers(),
                model.region_overfill_edges@ == pre.region_overfill_edges@,
                model.rand == pre.rand,
                cw == model.model.spec_cells_w(),
                ch == model.model.spec_cells_h(),
                0 <= cy <= ch,
                forall|a: int, b: int|
                    0 <= a < cw && 0 <= b < ch ==> #[trigger] model.model.spec_terrain_cell(a, b)
                        == (if b < cy && !pre.model.spec_is_wall_cell(a, b) {
                        Some(k as usize)
                    } else {
                        pre.model.spec_terrain_cell(a, b)
                    }),
            decreases ch - cy,
        {
            let mut cx: i32 = 0;
            while cx < cw
                invariant
                    model.wf(),
                    pass_frame(pre, *model),
                    model.model.spec_layers() == pre.model.spec_layers(),
                    model.region_overfill_edges@ == pre.region_overfill_edges@,
                    model.rand == pre.rand,
                    cw == model.model.spec_cells_w(),
                    ch == model.model.spec_cells_h(),
                    0 <= cx <= cw,
                    0 <= cy < ch,
                    forall|a: int, b: int|
                        0 <= a < cw && 0 <= b < ch ==> #[trigger] model.model.spec_terrain_cell(
                            a,
                            b,
                        ) == (if (b < cy || (b == cy && a < cx)) && !pre.model.spec_is_wall_cell(
                            a,
                            b,
                        ) {
                            Some(k as usize)
                        } else {
                            pre.model.spec_terrain_cell(a, b)
                        }),
                decreases cw - cx,
            {
                if model.model.wall_cell(cx, cy).0 == 0 {
                    model.model.set_terrain(cx, cy, Some(k));
                }
                cx = cx + 1;
            }
            cy = cy + 1;
        }
        proof {
            assert(pre.model == old(model).model);
            assert(terrain_filled(pre, *model, k));
            assert forall|a: int, b: int|
                0 <= a < old(model).model.spec_cells_w() && 0 <= b < old(
                model,
            ).model.spec_cells_h() implies #[trigger] model.model.spec_terrain_cell(a, b) == (
            if !old(model).model.spec_is_wall_cell(a, b) {
                Some(k)
            } else {
                old(model).model.spec_terrain_cell(a, b)
            }) by {
                assert(model.model.spec_terrain_cell(a, b) == (
                if !pre.model.spec_is_wall_cell(a, b) {
                    Some(k)
                } else {
                    pre.model.spec_terrain_cell(a, b)
                }));
            }
            assert(terrain_filled(*old(model), *model, k));
            assert(k < self.params.kinds@.len());
        }
    }
}

/// True when some layer named `id` has a non-empty tile stack anywhere on
/// the `w` by `h` rectangle at `(x, y)`.
fn layer_occupied(layers: &Vec<Layer>, id: &str, x: i32, y: i32, w: i32, h: i32) -> (r: bool)
    requires
        forall|i: int| 0 <= i < layers@.len() ==> (#[trigger] layers@[i]).wf(),
        0 <= x,
        0 <= y,
        0 < w,
        0 < h,
        x + w <= i32::MAX as int,
        y + h <= i32::MAX as int,
    ensures
        layers@.len() == 0 ==> !r,
{
    let key: String = id.to_owned();
    let n: usize = layers.len();
    let mut i: usize = 0;
    while i < n
        invariant
            forall|j: int| 0 <= j < layers@.len() ==> (#[trigger] layers@[j]).wf(),
            n == layers@.len(),
            0 <= i <= n,
            0 <= x,
            0 <= y,
            0 < w,
            0 < h,
            x + w <= i32::MAX as int,
            y + h <= i32::MAX as int,
        decreases n - i,
    {
        let layer = &layers[i];
        if *layer.id() == key {
            let mut yy: i32 = y;
            while yy < y + h
                invariant
                    layer.wf(),
                    0 < layers@.len(),
                    y <= yy <= y + h,
                    0 <= x,
                    0 < w,
                    x + w <= i32::MAX as int,
                    y + h <= i32::MAX as int,
                decreases y + h - yy,
            {
                let mut xx: i32 = x;
                while xx < x + w
                    invariant
                        layer.wf(),
                        0 < layers@.len(),
                        x <= xx <= x + w,
                        x + w <= i32::MAX as int,
                    decreases x + w - xx,
                {
                    if layer.is_occupied(xx, yy) {
                        return true;
                    }
                    xx = xx + 1;
                }
                yy = yy + 1;
            }
        }
        i = i + 1;
    }
    false
}

/// The tile at `(tx, ty)` stands on open ground: its wall cell is not
/// raised.
pub open spec fn spec_tile_open(m: crate::tiles_model::TilesModel, tx: int, ty: int) -> bool {
    !m.spec_is_wall_cell(tx / crate::tiles_model::GRID_DIM as int, ty / crate::tiles_model::GRID_DIM as int)
}

/// Every tile of the `w` by `h` rectangle at `(x, y)` stands on open ground.
pub open spec fn spec_footprint_open(
    m: crate::tiles_model::TilesModel,
    x: int,
    y: int,
    w: int,
    h: int,
) -> bool {
    forall|tx: int, ty: int|
        x <= tx < x + w && y <= ty < y + h ==> #[trigger] spec_tile_open(m, tx, ty)
}

/// An open footprint stays open in any model with the same wall grid.
pub proof fn lemma_footprint_frame(
    m1: crate::tiles_model::TilesModel,
    m2: crate::tiles_model::TilesModel,
    x: int,
    y: int,
    w: int,
    h: int,
)
    requires
        m1.spec_walls() == m2.spec_walls(),
        m1.spec_cells_w() == m2.spec_cells_w(),
        m1.spec_cells_h() == m2.spec_cells_h(),
        spec_footprint_open(m1, x, y, w, h),
    ensures
        spec_footprint_open(m2, x, y, w, h),
{
    assert forall|tx: int, ty: int|
        x <= tx < x + w && y <= ty < y + h implies #[trigger] spec_tile_open(m2, tx, ty) by {
        assert(spec_tile_open(m1, tx, ty));
    }
}

/// No tile of the `w` by `h` rectangle at `(x, y)` is blocked by an
/// impassable tile of any snapshot layer.
pub open spec fn spec_snapshot_clear(layers: Seq<Layer>, x: int, y: int, w: int, h: int) -> bool {
    forall|li: int, tx: int, ty: int|
        0 <= li < layers.len() && x <= tx < x + w && y <= ty < y + h ==> !(
        #[trigger] layers[li].spec_impassable_at(tx, ty))
}

/// True when some snapshot layer marks a tile of the `w` by `h` rectangle
/// at `(x, y)` impassable.
fn snapshot_blocked(layers: &Vec<Layer>, x: i32, y: i32, w: i32, h: i32) -> (r: bool)
    requires
        forall|i: int| 0 <= i < layers@.len() ==> (#[trigger] layers@[i]).wf(),
        0 <= x,
        0 <= y,
        0 < w,
        0 < h,
        x + w <= i32::MAX as int,
        y + h <= i32::MAX as int,
    ensures
        r == !spec_snapshot_clear(layers@, x as int, y as int, w as int, h as int),
{
    let n: usize = layers.len();
    let mut i: usize = 0;
    while i < n
        invariant
            forall|j: int| 0 <= j < layers@.len() ==> (#[trigger] layers@[j]).wf(),
            n == layers@.len(),
            0 <= i <= n,
            0 <= x,
            0 <= y,
            0 < w,
            0 < h,
            x + w <= i32::MAX as int,
            y + h <= i32::MAX as int,
            forall|li: int, tx: int, ty: int|
                0 <= li < i && x <= tx < x + w && y <= ty < y + h ==> !(
                #[trigger] layers@[li].spec_impassable_at(tx, ty)),
        decreases n - i,
    {
        let layer = &layers[i];
        let mut yy: i32 = y;
        while yy < y + h
            invariant
                layer.wf(),
                layer == layers@[i as int],
                0 <= i < layers@.len(),
                y <= yy <= y + h,
                0 <= x,
                0 <= y,
                0 < w,
                0 < h,
                x + w <= i32::MAX as int,
                y + h <= i32::MAX as int,
                forall|tx: int, ty: int|
                    x <= tx < x + w && y <= ty < yy ==> !(
                    #[trigger] layer.spec_impassable_at(tx, ty)),
            decreases y + h - yy,
        {
            let mut xx: i32 = x;
            while xx < x + w
                invariant
                    layer.wf(),
                    layer == layers@[i as int],
                    0 <= i < layers@.len(),
                    x <= xx <= x + w,
                    0 <= x,
                    y <= yy,
                    yy < y + h,
                    0 < w,
                    x + w <= i32::MAX as int,
                    forall|tx: int, ty: int|
                        x <= tx < x + w && y <= ty < yy ==> !(
                        #[trigger] layer.spec_impassable_at(tx, ty)),
                    forall|tx: int|
                        x <= tx < xx ==> !(#[trigger] layer.spec_impassable_at(tx, yy as int)),
                decreases x + w - xx,
            {
                if layer.is_impassable(xx, yy) {
                    return true;
                }
                xx = xx + 1;
            }
            yy = yy + 1;
        }
        i = i + 1;
    }
    false
}

/// No snapshot layer marks any in-area tile impassable (which also means
/// every snapshot layer covers the whole area).
pub open spec fn spec_snapshot_all_clear(layers: Seq<Layer>, width: int, height: int) -> bool {
    forall|li: int, tx: int, ty: int|
        0 <= li < layers.len() && 0 <= tx < width && 0 <= ty < height ==> !(
        #[trigger] layers[li].spec_impassable_at(tx, ty))
}

/// A placed prop is one weighted table entry with positive weight, placed
/// fully inside the `width` by `height` area on open ground whose snapshot
/// is clear of impassable tiles.
pub open spec fn spec_prop_placed(
    table: Seq<(crate::resources::Prop, u32)>,
    m: crate::tiles_model::TilesModel,
    layers: Seq<Layer>,
    width: int,
    height: int,
    o: PropOutput,
) -> bool {
    exists|ki: int|
        #![trigger table[ki]]
        0 <= ki < table.len() && table[ki].1 > 0 && o.id@ == table[ki].0.id@ && 0 <= o.x && 0
            <= o.y && o.x + table[ki].0.width <= width && o.y + table[ki].0.height <= height
            && spec_footprint_open(m, o.x as int, o.y as int, table[ki].0.width as int,
            table[ki].0.height as int) && spec_snapshot_clear(layers, o.x as int, o.y as int,
            table[ki].0.width as int, table[ki].0.height as int)
}

/// A placed encounter is one weighted table entry with positive weight,
/// placed fully inside the `width` by `height` area on open ground whose
/// snapshot is clear of impassable tiles.
pub open spec fn spec_encounter_placed(
    table: Seq<(crate::resources::Encounter, u32)>,
    m: crate::tiles_model::TilesModel,
    layers: Seq<Layer>,
    width: int,
    height: int,
    o: EncounterOutput,
) -> bool {
    exists|ki: int|
        #![trigger table[ki]]
        0 <= ki < table.len() && table[ki].1 > 0 && o.id@ == table[ki].0.id@ && 0 <= o.x && 0
            <= o.y && o.x + table[ki].0.width <= width && o.y + table[ki].0.height <= height
            && spec_footprint_open(m, o.x as int, o.y as int, table[ki].0.width as int,
            table[ki].0.height as int) && spec_snapshot_clear(layers, o.x as int, o.y as int,
            table[ki].0.width as int, table[ki].0.height as int)
}

/// True when every wall cell under the `w` by `h` rectangle at `(x, y)` is
/// open ground.
fn footprint_open(model: &GenModel, x: i32, y: i32, w: i32, h: i32) -> (r: bool)
    requires
        model.wf(),
        0 <= x,
        0 <= y,
        0 < w,
        0 < h,
        x + w <= i32::MAX as int,
        y + h <= i32::MAX as int,
    ensures
        r == spec_footprint_open(model.model, x as int, y as int, w as int, h as int),
{
    let mut yy: i32 = y;
    while yy < y + h
        invariant
            model.wf(),
            y <= yy <= y + h,
            0 <= x,
            0 <= y,
            0 < w,
            0 < h,
            x + w <= i32::MAX as int,
            y + h <= i32::MAX as int,
            forall|tx: int, ty: int|
                x <= tx < x + w && y <= ty < yy ==> #[trigger] spec_tile_open(model.model, tx,
                    ty),
        decreases y + h - yy,
    {
        let mut xx: i32 = x;
        while xx < x + w
            invariant
                model.wf(),
                x <= xx <= x + w,
                0 <= x,
                0 <= y <= yy,
                yy < y + h,
                0 < w,
                0 < h,
                x + w <= i32::MAX as int,
                y + h <= i32::MAX as int,
                forall|tx: int, ty: int|
                    x <= tx < x + w && y <= ty < yy ==> #[trigger] spec_tile_open(model.model,
                        tx, ty),
                forall|tx: int|
                    x <= tx < xx ==> #[trigger] spec_tile_open(model.model, tx, yy as int),
            decreases x + w - xx,
        {
            if model.model.is_wall(xx, yy) {
                proof {
                    assert(!spec_tile_open(model.model, xx as int, yy as int));
                }
                return false;
            }
            xx = xx + 1;
        }
        yy = yy + 1;
    }
    true
}

/// The feature pass: stamps decorative features onto open, unoccupied
/// ground, a bounded number of attempts per call.
pub struct FeatureGen<'a> {
    pub layers: &'a Vec<Layer>,
    pub params: &'a FeatureParams,
    pub maze: &'a Maze,
}

impl<'a> FeatureGen<'a> {
    pub fn new(layers: &'a Vec<Layer>, params: &'a FeatureParams, maze: &'a Maze) -> (r:
        FeatureGen<'a>)
        ensures
            r.layers == layers,
            r.params == params,
            r.maze == maze,
    {
        FeatureGen { layers, params, maze }
    }

    /// Attempts `placement_attempts` weighted feature placements; each lands
    /// only on open ground whose target layer is free in the occupancy
    /// snapshot.  Never fails: an attempt that does not fit is dropped.  An
    /// empty or all-zero table changes nothing; when every weighted entry
    /// fits, the whole area is open ground and there is no occupancy
    /// snapshot to collide with, every attempt stamps its tile, so exactly
    /// `placement_attempts` placements are recorded.
    pub fn generate(&self, model: &mut GenModel) -> (r: Result<(), GenError>)
        requires
            old(model).wf(),
            self.params.features.wf(),
            forall|i: int| 0 <= i < self.layers@.len() ==> (#[trigger] self.layers@[i]).wf(),
        ensures
            final(model).wf(),
            pass_frame(*old(model), *final(model)),
            final(model).model.spec_terrain() == old(model).model.spec_terrain(),
            final(model).region_overfill_edges@ == old(model).region_overfill_edges@,
            total_weight(self.params.features@) == 0 ==> *final(model) == *old(model),
            (total_weight(self.params.features@) > 0 && (forall|ki: int|
                0 <= ki < self.params.features@.len() && (
                #[trigger] self.params.features@[ki]).1 > 0 ==> 0
                    < self.params.features@[ki].0.width <= old(model).spec_width() && 0
                    < self.params.features@[ki].0.height <= old(model).spec_height()) && (forall|
                cx: int,
                cy: int,
            |
                !(#[trigger] old(model).model.spec_is_wall_cell(cx, cy))) && self.layers@.len()
                == 0) ==> crate::tiles_model::placements_count(final(model).model.spec_layers())
                == crate::tiles_model::placements_count(old(model).model.spec_layers())
                + self.params.placement_attempts,
            r is Ok,
    {
        let width: i32 = model.model.width();
        let height: i32 = model.model.height();
        let ghost owed = total_weight(self.params.features@) > 0 && (forall|ki: int|
            0 <= ki < self.params.features@.len() && (#[trigger] self.params.features@[ki]).1 > 0
                ==> 0 < self.params.features@[ki].0.width <= old(model).spec_width() && 0
                < self.params.features@[ki].0.height <= old(model).spec_height()) && (forall|
            cx: int,
            cy: int,
        |
            !(#[trigger] old(model).model.spec_is_wall_cell(cx, cy))) && self.layers@.len() == 0;
        let attempts: u32 = self.params.placement_attempts;
        let mut attempt: u32 = 0;
        while attempt < attempts
            invariant
                model.wf(),
                pass_frame(*old(model), *model),
                model.model.spec_terrain() == old(model).model.spec_terrain(),
                model.region_overfill_edges@ == old(model).region_overfill_edges@,
                self.params.features.wf(),
                forall|i: int| 0 <= i < self.layers@.len() ==> (#[trigger] self.layers@[i]).wf(),
                width == model.spec_width(),
                height == model.spec_height(),
                0 <= attempt <= attempts,
                owed == (total_weight(self.params.features@) > 0 && (forall|ki: int|
                    0 <= ki < self.params.features@.len() && (
                    #[trigger] self.params.features@[ki]).1 > 0 ==> 0
                        < self.params.features@[ki].0.width <= old(model).spec_width() && 0
                        < self.params.features@[ki].0.height <= old(model).spec_height()) && (
                forall|cx: int, cy: int|
                    !(#[trigger] old(model).model.spec_is_wall_cell(cx, cy)))
                    && self.layers@.len() == 0),
                owed ==> crate::tiles_model::placements_count(model.model.spec_layers())
                    == crate::tiles_model::placements_count(old(model).model.spec_layers())
                    + attempt,
                total_weight(self.params.features@) == 0 ==> *model == *old(model),
            decreases attempts - attempt,
        {
            attempt = attempt + 1;
            let fi: usize = match self.params.features.pick_index(&mut model.rand) {
                None => {
                    return Ok(());
                },
                Some(fi) => fi,
            };
            let f = self.params.features.get(fi);
            let fw: i32 = f.width;
            let fh: i32 = f.height;
            if fw <= 0 || fh <= 0 || fw > width || fh > height {
                proof {
                    assert(!owed);
                }
                continue;
            }
            let x: i32 = model.rand.gen(0, (width - fw + 1) as u32) as i32;
            let y: i32 = model.rand.gen(0, (height - fh + 1) as u32) as i32;
            if !footprint_open(model, x, y, fw, fh) {
                proof {
                    if owed {
                        lemma_footprint_frame(old(model).model, model.model, x as int, y as int,
                            fw as int, fh as int);
                    }
                }
                continue;
            }
            if layer_occupied(self.layers, f.tile.layer.as_str(), x, y, fw, fh) {
                proof {
                    assert(!owed);
                }
                continue;
            }
            let tile = f.tile.clone();
            let ghost pre_layers = model.model.spec_layers();
            model.model.add(tile, x, y);
            proof {
                crate::tiles_model::lemma_count_tile_added(pre_layers,
                    model.model.spec_layers(), f.tile, x, y);
            }
        }
        Ok(())
    }
}

/// The prop pass: places props on open ground, one weighted draw per pass.
pub struct PropGen<'a> {
    pub layers: &'a Vec<Layer>,
    pub params: &'a PropParams,
    pub maze: &'a Maze,
}

impl<'a> PropGen<'a> {
    pub fn new(layers: &'a Vec<Layer>, params: &'a PropParams, maze: &'a Maze) -> (r: PropGen<'a>)
        ensures
            r.layers == layers,
            r.params == params,
            r.maze == maze,
    {
        PropGen { layers, params, maze }
    }

    /// Runs `passes` placement passes and returns the placed props: at most
    /// one per pass, each a weighted draw from the table, placed fully
    /// inside the area on open ground.  A draw that does not fit is dropped,
    /// never an error — but when every weighted entry fits and the whole
    /// area is open ground, every pass places, so exactly `passes` props
    /// come back.
    pub fn generate(&self, model: &mut GenModel, passes: u32) -> (r: Result<
        Vec<PropOutput>,
        GenError,
    >)
        requires
            old(model).wf(),
            self.params.props.wf(),
            forall|i: int| 0 <= i < self.layers@.len() ==> (#[trigger] self.layers@[i]).wf(),
        ensures
            final(model).wf(),
            pass_frame(*old(model), *final(model)),
            final(model).model.spec_layers() == old(model).model.spec_layers(),
            final(model).model.spec_terrain() == old(model).model.spec_terrain(),
            final(model).region_overfill_edges@ == old(model).region_overfill_edges@,
            r matches Ok(v) ==> v@.len() <= passes,
            r matches Ok(v) ==> forall|i: int|
                #![trigger v@[i]]
                0 <= i < v@.len() ==> spec_prop_placed(
                    self.params.props@,
                    old(model).model,
                    self.layers@,
                    old(model).spec_width(),
                    old(model).spec_height(),
                    v@[i],
                ),
            r matches Ok(v) ==> forall|i: int|
                0 <= i < v@.len() ==> 0 <= (#[trigger] v@[i]).x < old(model).spec_width() && 0 <= v@[i].y
                    < old(model).spec_height(),
            (total_weight(self.params.props@) > 0 && (forall|ki: int|
                0 <= ki < self.params.props@.len() && (#[trigger] self.params.props@[ki]).1 > 0
                    ==> 0 < self.params.props@[ki].0.width <= old(model).spec_width() && 0
                    < self.params.props@[ki].0.height <= old(model).spec_height()) && (forall|
                cx: int,
                cy: int,
            |
                !(#[trigger] old(model).model.spec_is_wall_cell(cx, cy)))
                && spec_snapshot_all_clear(
                self.layers@,
                old(model).spec_width(),
                old(model).spec_height(),
            )) ==> (r matches Ok(v) && v@.len() == passes),
            r is Ok,
    {
        let width: i32 = model.model.width();
        let height: i32 = model.model.height();
        let ghost owed = total_weight(self.params.props@) > 0 && (forall|ki: int|
            0 <= ki < self.params.props@.len() && (#[trigger] self.params.props@[ki]).1 > 0 ==> 0
                < self.params.props@[ki].0.width <= old(model).spec_width() && 0
                < self.params.props@[ki].0.height <= old(model).spec_height()) && (forall|
            cx: int,
            cy: int,
        |
            !(#[trigger] old(model).model.spec_is_wall_cell(cx, cy))) && spec_snapshot_all_clear(
            self.layers@,
            old(model).spec_width(),
            old(model).spec_height(),
        );
        let mut out: Vec<PropOutput> = Vec::new();
        let mut pass: u32 = 0;
        while pass < passes
            invariant
                model.wf(),
                pass_frame(*old(model), *model),
                model.model.spec_layers() == old(model).model.spec_layers(),
                model.model.spec_terrain() == old(model).model.spec_terrain(),
                model.region_overfill_edges@ == old(model).region_overfill_edges@,
                self.params.props.wf(),
                width == model.spec_width(),
                height == model.spec_height(),
                0 <= pass <= passes,
                owed == (total_weight(self.params.props@) > 0 && (forall|ki: int|
                    0 <= ki < self.params.props@.len() && (#[trigger] self.params.props@[ki]).1
                        > 0 ==> 0 < self.params.props@[ki].0.width <= old(model).spec_width()
                        && 0 < self.params.props@[ki].0.height <= old(model).spec_height()) && (
                forall|cx: int, cy: int|
                    !(#[trigger] old(model).model.spec_is_wall_cell(cx, cy)))
                    && spec_snapshot_all_clear(
                    self.layers@,
                    old(model).spec_width(),
                    old(model).spec_height(),
                )),
                forall|i: int| 0 <= i < self.layers@.len() ==> (#[trigger] self.layers@[i]).wf(),
                owed ==> out@.len() == pass,
                out@.len() <= pass,
                forall|i: int|
                    0 <= i < out@.len() ==> 0 <= (#[trigger] out@[i]).x < width && 0 <= out@[i].y
                        < height,
                forall|i: int|
                    #![trigger out@[i]]
                    0 <= i < out@.len() ==> spec_prop_placed(
                        self.params.props@,
                        old(model).model,
                        self.layers@,
                        old(model).spec_width(),
                        old(model).spec_height(),
                        out@[i],
                    ),
            decreases passes - pass,
        {
            pass = pass + 1;
            let pi: usize = match self.params.props.pick_index(&mut model.rand) {
                None => {
                    return Ok(out);
                },
                Some(pi) => pi,
            };
            let p = self.params.props.get(pi);
            let pw: i32 = p.width;
            let ph: i32 = p.height;
            if pw <= 0 || ph <= 0 || pw > width || ph > height {
                continue;
            }
            let x: i32 = model.rand.gen(0, (width - pw + 1) as u32) as i32;
            let y: i32 = model.rand.gen(0, (height - ph + 1) as u32) as i32;
            if !footprint_open(model, x, y, pw, ph) {
                proof {
                    if owed {
                        lemma_footprint_frame(old(model).model, model.model, x as int, y as int,
                            pw as int, ph as int);
                    }
                }
                continue;
            }
            if snapshot_blocked(self.layers, x, y, pw, ph) {
                proof {
                    if owed {
                        assert forall|li: int, tx: int, ty: int|
                            0 <= li < self.layers@.len() && x <= tx < x + pw && y <= ty < y + ph
                                implies !(#[trigger] self.layers@[li].spec_impassable_at(
                            tx,
                            ty,
                        )) by {}
                        assert(false);
                    }
                }
                continue;
            }
            proof {
                lemma_footprint_frame(model.model, old(model).model, x as int, y as int,
                    pw as int, ph as int);
            }
            let id: String = p.id.clone();
            out.push(PropOutput { id, x, y });
            proof {
                let o = out@.last();
                assert(0 <= pi < self.params.props@.len() && self.params.props@[pi as int].1 > 0
                    && o.id@ == self.params.props@[pi as int].0.id@ && 0 <= o.x && 0 <= o.y
                    && o.x + self.params.props@[pi as int].0.width <= old(model).spec_width()
                    && o.y + self.params.props@[pi as int].0.height <= old(model).spec_height()
                    && spec_footprint_open(old(model).model, o.x as int, o.y as int,
                    self.params.props@[pi as int].0.width as int,
                    self.params.props@[pi as int].0.height as int)
                    && spec_snapshot_clear(self.layers@, o.x as int, o.y as int,
                    self.params.props@[pi as int].0.width as int,
                    self.params.props@[pi as int].0.height as int));
                assert(spec_prop_placed(self.params.props@, old(model).model, self.layers@,
                    old(model).spec_width(), old(model).spec_height(), o));
            }
        }
        Ok(out)
    }
}

/// The encounter pass: reserves encounter areas on open ground, one weighted
/// draw per pass.
pub struct EncounterGen<'a> {
    pub layers: &'a Vec<Layer>,
    pub params: &'a EncounterParams,
    pub maze: &'a Maze,
}

impl<'a> EncounterGen<'a> {
    pub fn new(layers: &'a Vec<Layer>, params: &'a EncounterParams, maze: &'a Maze) -> (r:
        EncounterGen<'a>)
        ensures
            r.layers == layers,
            r.params == params,
            r.maze == maze,
    {
        EncounterGen { layers, params, maze }
    }

    /// Runs `passes` placement passes and returns the placed encounters: at
    /// most one per pass, each a weighted draw from the table, placed fully
    /// inside the area on open ground.  A draw that does not fit is dropped,
    /// never an error — but when every weighted entry fits and the whole
    /// area is open ground, every pass places, so exactly `passes`
    /// encounters come back.
    pub fn generate(&self, model: &mut GenModel, passes: u32) -> (r: Result<
        Vec<EncounterOutput>,
        GenError,
    >)
        requires
            old(model).wf(),
            self.params.encounters.wf(),
            forall|i: int| 0 <= i < self.layers@.len() ==> (#[trigger] self.layers@[i]).wf(),
        ensures
            final(model).wf(),
            pass_frame(*old(model), *final(model)),
            final(model).model.spec_layers() == old(model).model.spec_layers(),
            final(model).model.spec_terrain() == old(model).model.spec_terrain(),
            final(model).region_overfill_edges@ == old(model).region_overfill_edges@,
            r matches Ok(v) ==> v@.len() <= passes,
            r matches Ok(v) ==> forall|i: int|
                #![trigger v@[i]]
                0 <= i < v@.len() ==> spec_encounter_placed(
                    self.params.encounters@,
                    old(model).model,
                    self.layers@,
                    old(model).spec_width(),
                    old(model).spec_height(),
                    v@[i],
                ),
            r matches Ok(v) ==> forall|i: int|
                0 <= i < v@.len() ==> 0 <= (#[trigger] v@[i]).x < old(model).spec_width() && 0 <= v@[i].y
                    < old(model).spec_height(),
            (total_weight(self.params.encounters@) > 0 && (forall|ki: int|
                0 <= ki < self.params.encounters@.len() && (
                #[trigger] self.params.encounters@[ki]).1 > 0 ==> 0
                    < self.params.encounters@[ki].0.width <= old(model).spec_width() && 0
                    < self.params.encounters@[ki].0.height <= old(model).spec_height()) && (
            forall|cx: int, cy: int|
                !(#[trigger] old(model).model.spec_is_wall_cell(cx, cy)))
                && spec_snapshot_all_clear(
                self.layers@,
                old(model).spec_width(),
                old(model).spec_height(),
            )) ==> (r matches Ok(v) && v@.len() == passes),
            r is Ok,
    {
        let width: i32 = model.model.width();
        let height: i32 = model.model.height();
        let ghost owed = total_weight(self.params.encounters@) > 0 && (forall|ki: int|
            0 <= ki < self.params.encounters@.len() && (
            #[trigger] self.params.encounters@[ki]).1 > 0 ==> 0
                < self.params.encounters@[ki].0.width <= old(model).spec_width() && 0
                < self.params.encounters@[ki].0.height <= old(model).spec_height()) && (forall|
            cx: int,
            cy: int,
        |
            !(#[trigger] old(model).model.spec_is_wall_cell(cx, cy))) && spec_snapshot_all_clear(
            self.layers@,
            old(model).spec_width(),
            old(model).spec_height(),
        );
        let mut out: Vec<EncounterOutput> = Vec::new();
        let mut pass: u32 = 0;
        while pass < passes
            invariant
                model.wf(),
                pass_frame(*old(model), *model),
                model.model.spec_layers() == old(model).model.spec_layers(),
                model.model.spec_terrain() == old(model).model.spec_terrain(),
                model.region_overfill_edges@ == old(model).region_overfill_edges@,
                self.params.encounters.wf(),
                width == model.spec_width(),
                height == model.spec_height(),
                0 <= pass <= passes,
                owed == (total_weight(self.params.encounters@) > 0 && (forall|ki: int|
                    0 <= ki < self.params.encounters@.len() && (
                    #[trigger] self.params.encounters@[ki]).1 > 0 ==> 0
                        < self.params.encounters@[ki].0.width <= old(model).spec_width() && 0
                        < self.params.encounters@[ki].0.height <= old(model).spec_height()) && (
                forall|cx: int, cy: int|
                    !(#[trigger] old(model).model.spec_is_wall_cell(cx, cy)))
                    && spec_snapshot_all_clear(
                    self.layers@,
                    old(model).spec_width(),
                    old(model).spec_height(),
                )),
                forall|i: int| 0 <= i < self.layers@.len() ==> (#[trigger] self.layers@[i]).wf(),
                owed ==> out@.len() == pass,
                out@.len() <= pass,
                forall|i: int|
                    0 <= i < out@.len() ==> 0 <= (#[trigger] out@[i]).x < width && 0 <= out@[i].y
                        < height,
                forall|i: int|
                    #![trigger out@[i]]
                    0 <= i < out@.len() ==> spec_encounter_placed(
                        self.params.encounters@,
                        old(model).model,
                        self.layers@,
                        old(model).spec_width(),
                        old(model).spec_height(),
                        out@[i],
                    ),
            decreases passes - pass,
        {
            pass = pass + 1;
            let ei: usize = match self.params.encounters.pick_index(&mut model.rand) {
                None => {
                    return Ok(out);
                },
                Some(ei) => ei,
            };
            let e = self.params.encounters.get(ei);
            let ew: i32 = e.width;
            let eh: i32 = e.height;
            if ew <= 0 || eh <= 0 || ew > width || eh > height {
                continue;
            }
            let x: i32 = model.rand.gen(0, (width - ew + 1) as u32) as i32;
            let y: i32 = model.rand.gen(0, (height - eh + 1) as u32) as i32;
            if !footprint_open(model, x, y, ew, eh) {
                proof {
                    if owed {
                        lemma_footprint_frame(old(model).model, model.model, x as int, y as int,
                            ew as int, eh as int);
                    }
                }
                continue;
            }
            if snapshot_blocked(self.layers, x, y, ew, eh) {
                proof {
                    if owed {
                        assert forall|li: int, tx: int, ty: int|
                            0 <= li < self.layers@.len() && x <= tx < x + ew && y <= ty < y + eh
                                implies !(#[trigger] self.layers@[li].spec_impassable_at(
                            tx,
                            ty,
                        )) by {}
                        assert(false);
                    }
                }
                continue;
            }
            proof {
                lemma_footprint_frame(model.model, old(model).model, x as int, y as int,
                    ew as int, eh as int);
            }
            let id: String = e.id.clone();
            out.push(EncounterOutput { id, x, y });
            proof {
                let o = out@.last();
                assert(0 <= ei < self.params.encounters@.len()
                    && self.params.encounters@[ei as int].1 > 0 && o.id@
                    == self.params.encounters@[ei as int].0.id@ && 0 <= o.x && 0 <= o.y && o.x
                    + self.params.encounters@[ei as int].0.width <= old(model).spec_width()
                    && o.y + self.params.encounters@[ei as int].0.height
                    <= old(model).spec_height() && spec_footprint_open(old(model).model,
                    o.x as int, o.y as int, self.params.encounters@[ei as int].0.width as int,
                    self.params.encounters@[ei as int].0.height as int)
                    && spec_snapshot_clear(self.layers@, o.x as int, o.y as int,
                    self.params.encounters@[ei as int].0.width as int,
                    self.params.encounters@[ei as int].0.height as int));
                assert(spec_encounter_placed(self.params.encounters@, old(model).model,
                    self.layers@, old(model).spec_width(), old(model).spec_height(), o));
            }
        }
        Ok(out)
    }
}

/// A transition placed by generation: which kind, where it enters the area,
/// its reserved footprint, and the destination area.
#[derive(Debug)]
pub struct TransitionOutput {
    pub kind: String,
    pub from: Point,
    pub width: i32,
    pub height: i32,
    pub to: String,
}

/// The transition kind named `id`, scanning from entry `i`.
pub open spec fn transition_kind_from(s: Seq<TransitionKind>, id: Seq<char>, i: int) -> Option<
    TransitionKind,
>
    decreases s.len() - i,
{
    if i < 0 || i >= s.len() {
        None
    } else if s[i].id@ == id {
        Some(s[i])
    } else {
        transition_kind_from(s, id, i + 1)
    }
}

/// The transition kind named `id`.
pub open spec fn spec_transition_kind(s: Seq<TransitionKind>, id: Seq<char>) -> Option<
    TransitionKind,
> {
    transition_kind_from(s, id, 0)
}

/// A transition kind's footprint fits a `width` by `height` area with a
/// one-cell margin on every side.
pub open spec fn spec_transition_fits(k: TransitionKind, width: int, height: int) -> bool {
    &&& 0 < k.size.width
    &&& 0 < k.size.height
    &&& k.size.width + 2 < width
    &&& k.size.height + 2 < height
}

/// The transition pass.  It runs before maze carving: its placements become
/// the open anchor points the maze must keep walkable.
pub struct TransitionGen<'a> {
    pub width: i32,
    pub height: i32,
    pub params: &'a TransitionParams,
}

impl<'a> TransitionGen<'a> {
    pub fn new(width: i32, height: i32, params: &'a TransitionParams) -> (r: TransitionGen<'a>)
        ensures
            r.width == width,
            r.height == height,
            r.params == params,
    {
        TransitionGen { width, height, params }
    }

    /// Places one transition per request, each fully inside the area with a
    /// one-cell margin.  Succeeds exactly when every requested kind is known
    /// and fits; an unknown kind surfaces as `UnresolvedReference` naming it
    /// and the "Transition" table, one that cannot fit as
    /// `GenerationFailed`.
    pub fn generate(&self, rand: &mut ReproducibleRandom, requests: &Vec<TransitionAreaParams>)
        -> (r: Result<Vec<TransitionOutput>, GenError>)
        requires
            0 < self.width,
            0 < self.height,
        ensures
            r matches Ok(v) ==> {
                &&& v@.len() == requests@.len()
                &&& forall|i: int|
                    0 <= i < v@.len() ==> {
                        &&& 1 <= (#[trigger] v@[i]).from.x
                        &&& v@[i].from.x + v@[i].width < self.width
                        &&& 1 <= v@[i].from.y
                        &&& v@[i].from.y + v@[i].height < self.height
                        &&& v@[i].to@ == requests@[i].to@
                        &&& (spec_transition_kind(self.params.kinds@, requests@[i].kind@)
                            matches Some(k) && v@[i].kind@ == k.id@ && v@[i].width == k.size.width
                            && v@[i].height == k.size.height)
                    }
            },
            r matches Err(e) ==> e is UnresolvedReference || e == GenError::GenerationFailed,
            (forall|i: int|
                0 <= i < requests@.len() ==> ((#[trigger] spec_transition_kind(
                    self.params.kinds@,
                    requests@[i].kind@,
                )) matches Some(k) && spec_transition_fits(
                    k,
                    self.width as int,
                    self.height as int,
                ))) ==> r is Ok,
    {
        let mut out: Vec<TransitionOutput> = Vec::new();
        let n: usize = requests.len();
        let mut i: usize = 0;
        while i < n
            invariant
                0 < self.width,
                0 < self.height,
                n == requests@.len(),
                0 <= i <= n,
                out@.len() == i,
                forall|j: int|
                    0 <= j < i ==> {
                        &&& 1 <= (#[trigger] out@[j]).from.x
                        &&& out@[j].from.x + out@[j].width < self.width
                        &&& 1 <= out@[j].from.y
                        &&& out@[j].from.y + out@[j].height < self.height
                        &&& out@[j].to@ == requests@[j].to@
                        &&& (spec_transition_kind(self.params.kinds@, requests@[j].kind@)
                            matches Some(k) && out@[j].kind@ == k.id@ && out@[j].width
                            == k.size.width && out@[j].height == k.size.height)
                    },
            decreases n - i,
        {
            let req = &requests[i];
            let ki: usize = match self.find_kind(req.kind.as_str()) {
                None => {
                    return Err(
                        GenError::UnresolvedReference {
                            kind: "Transition".to_owned(),
                            id: req.kind.clone(),
                        },
                    );
                },
                Some(ki) => ki,
            };
            let kw: i32 = self.params.kinds[ki].size.width;
            let kh: i32 = self.params.kinds[ki].size.height;
            if kw <= 0 || kh <= 0 || kw >= self.width - 2 || kh >= self.height - 2 {
                return Err(GenError::GenerationFailed);
            }
            let x: i32 = rand.gen(1, (self.width - kw - 1) as u32) as i32;
            let y: i32 = rand.gen(1, (self.height - kh - 1) as u32) as i32;
            let to: String = req.to.clone();
            let kind: String = self.params.kinds[ki].id.clone();
            out.push(TransitionOutput { kind, from: Point::new(x, y), width: kw, height: kh, to });
            i = i + 1;
        }
        Ok(out)
    }

    /// The index of the transition kind named `id`.
    fn find_kind(&self, id: &str) -> (r: Option<usize>)
        ensures
            match r {
                Some(ki) => ki < self.params.kinds@.len() && spec_transition_kind(
                    self.params.kinds@,
                    id@,
                ) == Some(self.params.kinds@[ki as int]),
                None => spec_transition_kind(self.params.kinds@, id@) is None,
            },
    {
        let ghost s = self.params.kinds@;
        let n: usize = self.params.kinds.len();
        let key: String = id.to_owned();
        let mut i: usize = 0;
        while i < n
            invariant
                s == self.params.kinds@,
                n == s.len(),
                0 <= i <= n,
                key@ == id@,
                transition_kind_from(s, id@, 0) == transition_kind_from(s, id@, i as int),
            decreases n - i,
        {
            if self.params.kinds[i].id == key {
                return Some(i);
            }
            i = i + 1;
        }
        None
    }
}

} // verus!
