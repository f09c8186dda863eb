//! The generation orchestrator: wall carving with rough edges, layer
//! assembly, and the fixed pipeline that turns parameters and a random
//! stream into a finished layout.

use vstd::prelude::*;
use crate::errors::GenError;
use crate::gen_model::{GenModel, spec_edge};
use crate::geom::Point;
use crate::layer::Layer;
use crate::maze::{Maze, RoomParams, TileKind};
use crate::module::Module;
use crate::params::{
    EncounterParams, FeatureParams, GeneratorBuilder, GeneratorParams, PropParams,
    TerrainParams, TransitionAreaParams, TransitionBuilder, TransitionParams, WallKinds,
};
use crate::resources::Tile;
use crate::rng::ReproducibleRandom;
use crate::tiles_model::{TilesModel, GRID_DIM};
use crate::weighted_list::total_weight;

verus! {

/// The wall kind memoized for `region`, scanning from entry `i`.
pub open spec fn wall_kind_from(
    s: Seq<(usize, Option<usize>)>,
    region: int,
    i: int,
) -> Option<Option<usize>>
    decreases s.len() - i,
{
    if i < 0 || i >= s.len() {
        None
    } else if s[i].0 == region {
        Some(s[i].1)
    } else {
        wall_kind_from(s, region, i + 1)
    }
}

/// The wall kind memoized for `region`.
pub open spec fn spec_wall_kind_memo(
    s: Seq<(usize, Option<usize>)>,
    region: int,
) -> Option<Option<usize>> {
    wall_kind_from(s, region, 0)
}

pub proof fn lemma_wall_kind_push(s: Seq<(usize, Option<usize>)>, region: int, e: (usize, Option<usize>))
    ensures
        spec_wall_kind_memo(s, region) is Some ==> spec_wall_kind_memo(s.push(e), region)
            == spec_wall_kind_memo(s, region),
        spec_wall_kind_memo(s, region) is None && e.0 == region ==> spec_wall_kind_memo(
            s.push(e),
            region,
        ) == Some(e.1),
        spec_wall_kind_memo(s, region) is None && e.0 != region ==> spec_wall_kind_memo(
            s.push(e),
            region,
        ) is None,
{
    lemma_wall_kind_push_aux(s, region, 0, e);
}

proof fn lemma_wall_kind_push_aux(
    s: Seq<(usize, Option<usize>)>,
    region: int,
    i: int,
    e: (usize, Option<usize>),
)
    requires
        0 <= i <= s.len(),
    ensures
        wall_kind_from(s, region, i) is Some ==> wall_kind_from(s.push(e), region, i)
            == wall_kind_from(s, region, i),
        wall_kind_from(s, region, i) is None && e.0 == region ==> wall_kind_from(
            s.push(e),
            region,
            i,
        ) == Some(e.1),
        wall_kind_from(s, region, i) is None && e.0 != region ==> wall_kind_from(
            s.push(e),
            region,
            i,
        ) is None,
    decreases s.len() - i,
{
    if i < s.len() {
        lemma_wall_kind_push_aux(s, region, i + 1, e);
    } else {
        assert(s.push(e)[i] == e);
        assert(wall_kind_from(s.push(e), region, i + 1) is None);
    }
}

/// Once a region's wall kind is memoized, the only update the carve ever
/// makes to the memo — recording a kind for a region that had none —
/// leaves it untouched: every tile of one maze region is carved with one
/// and the same wall kind.
pub proof fn lemma_region_wall_kind_consistent(
    m1: Seq<(usize, Option<usize>)>,
    m2: Seq<(usize, Option<usize>)>,
    region: usize,
    k: Option<usize>,
)
    requires
        spec_wall_kind_memo(m1, region as int) == Some(k),
        m2 == m1 || exists|fresh: (usize, Option<usize>)|
            spec_wall_kind_memo(m1, fresh.0 as int) is None && m2 == m1.push(fresh),
    ensures
        spec_wall_kind_memo(m2, region as int) == Some(k),
{
    if m2 != m1 {
        let fresh = choose|fresh: (usize, Option<usize>)|
            spec_wall_kind_memo(m1, fresh.0 as int) is None && m2 == m1.push(fresh);
        lemma_wall_kind_push(m1, region as int, fresh);
    }
}

/// The per-call memo of wall kinds picked for maze regions, in invert mode.
pub struct WallKindMemo {
    entries: Vec<(usize, Option<usize>)>,
}

impl WallKindMemo {
    pub closed spec fn view(&self) -> Seq<(usize, Option<usize>)> {
        self.entries@
    }

    pub fn new() -> (r: WallKindMemo)
        ensures
            r@ =~= Seq::<(usize, Option<usize>)>::empty(),
    {
        WallKindMemo { entries: Vec::new() }
    }

    /// The memoized kind for `region`, if one was picked before.
    pub fn get(&self, region: usize) -> (r: Option<Option<usize>>)
        ensures
            r == spec_wall_kind_memo(self@, region as int),
    {
        let ghost s = self.entries@;
        let n: usize = self.entries.len();
        let mut i: usize = 0;
        while i < n
            invariant
                s == self.entries@,
                n == s.len(),
                0 <= i <= n,
                wall_kind_from(s, region as int, 0) == wall_kind_from(s, region as int, i as int),
            decreases n - i,
        {
            if self.entries[i].0 == region {
                return Some(self.entries[i].1);
            }
            i = i + 1;
        }
        None
    }

    /// Memoizes `kind` for a region that has none yet.
    pub fn insert(&mut self, region: usize, kind: Option<usize>)
        requires
            spec_wall_kind_memo(old(self)@, region as int) is None,
        ensures
            final(self)@ == old(self)@.push((region, kind)),
            spec_wall_kind_memo(final(self)@, region as int) == Some(kind),
    {
        proof {
            lemma_wall_kind_push(self.entries@, region as int, (region, kind));
        }
        self.entries.push((region, kind));
    }
}

/// Whether the edge `index` (1 north, 2 east, 3 south, 4 west) of the cell
/// whose neighborhood is `neighbors` is left rough (uncarved).  Only an edge
/// that borders wall can be rough; a room cell roughens any edge whenever a
/// choice was rolled, a corridor cell roughens exactly its region's memoized
/// edge.
pub open spec fn spec_is_rough_edge(
    neighbors: Seq<Option<TileKind>>,
    index: int,
    edge_choice: Option<u32>,
) -> bool {
    if neighbors[index] != Some(TileKind::Wall) {
        false
    } else {
        match neighbors[0] {
            Some(TileKind::Room { .. }) => edge_choice is Some,
            Some(TileKind::Corridor(_)) => edge_choice matches Some(c) && c as int == index,
            _ => false,
        }
    }
}

/// Exec form of `spec_is_rough_edge`.
pub fn is_rough_edge(neighbors: &[Option<TileKind>; 5], index: usize, edge_choice: Option<u32>) -> (r:
    bool)
    requires
        1 <= index < 5,
    ensures
        r == spec_is_rough_edge(neighbors@, index as int, edge_choice),
{
    let at_index = neighbors[index];
    let is_wall: bool = match at_index {
        Some(TileKind::Wall) => true,
        _ => false,
    };
    if !is_wall {
        return false;
    }
    match neighbors[0] {
        Some(TileKind::Room { .. }) => match edge_choice {
            None => false,
            Some(_) => true,
        },
        Some(TileKind::Corridor(_)) => match edge_choice {
            None => false,
            Some(choice) => choice as usize == index,
        },
        _ => false,
    }
}

/// Two adjacent corridor cells of one maze region agree on their shared
/// boundary: because each sees the other as open (not wall), neither side
/// ever roughens the edge between them, whatever edge choices were rolled.
/// `ea` is the edge of the first cell that faces the second, `eb` the edge
/// of the second that faces the first.
pub proof fn lemma_corridor_edge_agreement(
    na: Seq<Option<TileKind>>,
    nb: Seq<Option<TileKind>>,
    ca: Option<u32>,
    cb: Option<u32>,
    region: usize,
    ea: int,
    eb: int,
)
    requires
        na.len() == 5,
        nb.len() == 5,
        1 <= ea < 5,
        1 <= eb < 5,
        na[0] == Some(TileKind::Corridor(region)),
        nb[0] == Some(TileKind::Corridor(region)),
        na[ea] == nb[0],
        nb[eb] == na[0],
    ensures
        !spec_is_rough_edge(na, ea, ca),
        !spec_is_rough_edge(nb, eb, cb),
{
}

/// What one invert-mode wall-kind pick guarantees: the returned kind is
/// memoized for the region afterwards; a region that already had a kind gets
/// exactly that kind back with the memo and the random source untouched; a
/// fresh region gets the weighted draw the current random state determines,
/// recorded for every later cell of the same region.
pub open spec fn spec_pick_wall_kind_invert_post(
    wall_kinds: Seq<(crate::resources::WallKind, u32)>,
    old_mapped: Seq<(usize, Option<usize>)>,
    new_mapped: Seq<(usize, Option<usize>)>,
    region: usize,
    r: (u8, Option<usize>),
    old_rand: ReproducibleRandom,
    new_rand: ReproducibleRandom,
) -> bool {
    &&& r.0 == 1
    &&& spec_wall_kind_memo(new_mapped, region as int) == Some(r.1)
    &&& match spec_wall_kind_memo(old_mapped, region as int) {
        Some(v) => r.1 == v && new_mapped == old_mapped && new_rand == old_rand,
        None => {
            &&& new_mapped == old_mapped.push((region, r.1))
            &&& (r.1 is None <==> total_weight(wall_kinds) == 0)
            &&& (total_weight(wall_kinds) == 0 ==> new_rand == old_rand)
            &&& (total_weight(wall_kinds) > 0 ==> {
                let roll = crate::rng::draw_value(
                    old_rand.spec_state(),
                    0,
                    total_weight(wall_kinds) as u32,
                );
                &&& r.1 == Some(
                    crate::weighted_list::weighted_index(wall_kinds, roll as int) as usize,
                )
                &&& new_rand.spec_state() == crate::rng::next_state(old_rand.spec_state())
                &&& new_rand.spec_seed() == old_rand.spec_seed()
            })
            &&& (r.1 matches Some(i) ==> i < wall_kinds.len() && wall_kinds[i as int].1 > 0)
        },
    }
}

/// A prop placed by generation: the prop's id and its position.
#[derive(Debug)]
pub struct PropOutput {
    pub id: String,
    pub x: i32,
    pub y: i32,
}

/// An encounter placed by generation: the encounter's id and its position.
#[derive(Debug)]
pub struct EncounterOutput {
    pub id: String,
    pub x: i32,
    pub y: i32,
}

/// Everything one `generate` call produces.
pub struct GeneratorOutput {
    pub layers: Vec<Layer>,
    pub props: Vec<PropOutput>,
    pub encounters: Vec<EncounterOutput>,
}

/// The dimensions a `generate` call can work with: the area holds at least
/// one placement-grid cell and one coarse cell on each axis, and the cell
/// index arithmetic cannot overflow.
pub open spec fn spec_dims_usable(g: AreaGenerator, width: int, height: int) -> bool {
    &&& GRID_DIM <= width
    &&& GRID_DIM <= height
    &&& width * height <= i32::MAX as int
    &&& g.spec_grid_width() * GRID_DIM as int <= width
    &&& g.spec_grid_height() * GRID_DIM as int <= height
}

/// Every named reference in the builder resolves against the module, every
/// weight total is representable, and the coarse grid is positive: the
/// conditions under which `AreaGenerator::new` owes success.
pub open spec fn spec_builder_resolvable(builder: GeneratorBuilder, module: Module) -> bool {
    &&& builder.grid_width > 0
    &&& builder.grid_height > 0
    &&& forall|i: int|
        0 <= i < builder.wall_kinds@.len() ==> crate::registry::spec_find(
            module.spec_wall_kinds(),
            (#[trigger] builder.wall_kinds@[i]).0@,
        ) is Some
    &&& total_weight(builder.wall_kinds@) <= u32::MAX
    &&& forall|i: int|
        0 <= i < builder.terrain.kinds@.len() ==> crate::registry::spec_find(
            module.spec_terrain_kinds(),
            (#[trigger] builder.terrain.kinds@[i]).0@,
        ) is Some
    &&& total_weight(builder.terrain.kinds@) <= u32::MAX
    &&& forall|i: int|
        0 <= i < builder.props.props@.len() ==> crate::registry::spec_find(
            module.spec_props(),
            (#[trigger] builder.props.props@[i]).0@,
        ) is Some
    &&& total_weight(builder.props.props@) <= u32::MAX
    &&& forall|i: int|
        0 <= i < builder.encounters.encounters@.len() ==> crate::registry::spec_find(
            module.spec_encounters(),
            (#[trigger] builder.encounters.encounters@[i]).0@,
        ) is Some
    &&& total_weight(builder.encounters.encounters@) <= u32::MAX
    &&& forall|i: int|
        0 <= i < builder.features.features@.len() ==> crate::registry::spec_find(
            module.spec_features(),
            (#[trigger] builder.features.features@[i]).0@,
        ) is Some
    &&& total_weight(builder.features.features@) <= u32::MAX
    &&& forall|i: int|
        0 <= i < builder.transitions.kinds@.len() ==> crate::module::spec_find_size(
            module.spec_sizes(),
            (#[trigger] builder.transitions.kinds@[i]).size as int,
        ) is Some
}

/// What a failed construction reports: an `UnresolvedReference` naming an
/// actually-unresolvable id and the table it was sought in, or `InvalidData`
/// for a non-positive grid or an unrepresentable weight total.
pub open spec fn spec_new_error(e: GenError, builder: GeneratorBuilder, module: Module) -> bool {
    ||| exists|i: int|
        0 <= i < builder.wall_kinds@.len() && crate::registry::spec_find(
            module.spec_wall_kinds(),
            (#[trigger] builder.wall_kinds@[i]).0@,
        ) is None && e.spec_is_unresolved("WallKind"@, builder.wall_kinds@[i].0@)
    ||| exists|i: int|
        0 <= i < builder.terrain.kinds@.len() && crate::registry::spec_find(
            module.spec_terrain_kinds(),
            (#[trigger] builder.terrain.kinds@[i]).0@,
        ) is None && e.spec_is_unresolved("Terrain"@, builder.terrain.kinds@[i].0@)
    ||| exists|i: int|
        0 <= i < builder.props.props@.len() && crate::registry::spec_find(
            module.spec_props(),
            (#[trigger] builder.props.props@[i]).0@,
        ) is None && e.spec_is_unresolved("Prop"@, builder.props.props@[i].0@)
    ||| exists|i: int|
        0 <= i < builder.encounters.encounters@.len() && crate::registry::spec_find(
            module.spec_encounters(),
            (#[trigger] builder.encounters.encounters@[i]).0@,
        ) is None && e.spec_is_unresolved("Encounter"@, builder.encounters.encounters@[i].0@)
    ||| exists|i: int|
        0 <= i < builder.features.features@.len() && crate::registry::spec_find(
            module.spec_features(),
            (#[trigger] builder.features.features@[i]).0@,
        ) is None && e.spec_is_unresolved("Feature"@, builder.features.features@[i].0@)
    ||| exists|i: int|
        0 <= i < builder.transitions.kinds@.len() && crate::module::spec_find_size(
            module.spec_sizes(),
            (#[trigger] builder.transitions.kinds@[i]).size as int,
        ) is None && e.spec_is_unresolved("Size"@, builder.transitions.kinds@[i].id@)
    ||| (e == GenError::InvalidData && (builder.grid_width <= 0 || builder.grid_height <= 0
        || total_weight(builder.wall_kinds@) > u32::MAX || total_weight(builder.terrain.kinds@)
        > u32::MAX || total_weight(builder.props.props@) > u32::MAX || total_weight(
        builder.encounters.encounters@,
    ) > u32::MAX || total_weight(builder.features.features@) > u32::MAX))
}

/// The generator's tables hold exactly the builder's references, resolved
/// against the module in order, weights kept.
pub open spec fn spec_resolved_from(
    g: AreaGenerator,
    builder: GeneratorBuilder,
    module: Module,
) -> bool {
    &&& g.spec_wall_kinds().len() == builder.wall_kinds@.len()
    &&& forall|i: int|
        0 <= i < builder.wall_kinds@.len() ==> crate::registry::spec_find(
            module.spec_wall_kinds(),
            (#[trigger] builder.wall_kinds@[i]).0@,
        ) == Some(g.spec_wall_kinds()[i].0) && g.spec_wall_kinds()[i].1 == builder.wall_kinds@[i].1
    &&& g.spec_terrain_kinds().len() == builder.terrain.kinds@.len()
    &&& forall|i: int|
        0 <= i < builder.terrain.kinds@.len() ==> crate::registry::spec_find(
            module.spec_terrain_kinds(),
            (#[trigger] builder.terrain.kinds@[i]).0@,
        ) == Some(g.spec_terrain_kinds()[i].0) && g.spec_terrain_kinds()[i].1
            == builder.terrain.kinds@[i].1
    &&& g.spec_props().len() == builder.props.props@.len()
    &&& forall|i: int|
        0 <= i < builder.props.props@.len() ==> crate::registry::spec_find(
            module.spec_props(),
            (#[trigger] builder.props.props@[i]).0@,
        ) == Some(g.spec_props()[i].0) && g.spec_props()[i].1 == builder.props.props@[i].1
    &&& g.spec_encounters().len() == builder.encounters.encounters@.len()
    &&& forall|i: int|
        0 <= i < builder.encounters.encounters@.len() ==> crate::registry::spec_find(
            module.spec_encounters(),
            (#[trigger] builder.encounters.encounters@[i]).0@,
        ) == Some(g.spec_encounters()[i].0) && g.spec_encounters()[i].1
            == builder.encounters.encounters@[i].1
    &&& g.spec_features().len() == builder.features.features@.len()
    &&& forall|i: int|
        0 <= i < builder.features.features@.len() ==> crate::registry::spec_find(
            module.spec_features(),
            (#[trigger] builder.features.features@[i]).0@,
        ) == Some(g.spec_features()[i].0) && g.spec_features()[i].1
            == builder.features.features@[i].1
    &&& g.spec_feature_attempts() == builder.features.placement_attempts
    &&& g.spec_transition_kinds().len() == builder.transitions.kinds@.len()
    &&& forall|i: int|
        0 <= i < builder.transitions.kinds@.len() ==> crate::module::spec_find_size(
            module.spec_sizes(),
            (#[trigger] builder.transitions.kinds@[i]).size as int,
        ) == Some(g.spec_transition_kinds()[i].size) && g.spec_transition_kinds()[i].id@
            == builder.transitions.kinds@[i].id@
}

/// Builds finished areas from one resolved parameter set.  The generator
/// itself holds no mutable state: it is built once per area template and
/// reused across independent `generate` calls.
pub struct AreaGenerator {
    pub id: String,
    wall_kinds: WallKinds,
    grid_width: i32,
    grid_height: i32,
    room_params: RoomParams,
    terrain_params: TerrainParams,
    prop_params: PropParams,
    encounter_params: EncounterParams,
    feature_params: FeatureParams,
    transition_params: TransitionParams,
}

impl AreaGenerator {
    pub closed spec fn wf(&self) -> bool {
        &&& self.wall_kinds.kinds.wf()
        &&& self.terrain_params.kinds.wf()
        &&& self.prop_params.props.wf()
        &&& self.encounter_params.encounters.wf()
        &&& self.feature_params.features.wf()
        &&& 0 < self.grid_width
        &&& 0 < self.grid_height
    }

    pub closed spec fn spec_room_params(&self) -> RoomParams {
        self.room_params
    }

    pub closed spec fn spec_wall_kinds(&self) -> Seq<(crate::resources::WallKind, u32)> {
        self.wall_kinds.kinds@
    }

    pub closed spec fn spec_grid_width(&self) -> int {
        self.grid_width as int
    }

    pub closed spec fn spec_grid_height(&self) -> int {
        self.grid_height as int
    }

    pub closed spec fn spec_terrain_kinds(&self) -> Seq<(crate::resources::TerrainKind, u32)> {
        self.terrain_params.kinds@
    }

    pub closed spec fn spec_props(&self) -> Seq<(crate::resources::Prop, u32)> {
        self.prop_params.props@
    }

    pub closed spec fn spec_encounters(&self) -> Seq<(crate::resources::Encounter, u32)> {
        self.encounter_params.encounters@
    }

    pub closed spec fn spec_features(&self) -> Seq<(crate::resources::Feature, u32)> {
        self.feature_params.features@
    }

    pub closed spec fn spec_feature_attempts(&self) -> u32 {
        self.feature_params.placement_attempts
    }

    /// Resolves every named reference in the builder against the module and
    /// assembles the generator.  Fails fast: an unresolvable id surfaces as
    /// `UnresolvedReference` naming that id and its table, an unusable grid
    /// or weight total as `InvalidData`, and nothing partial is built.
    /// Construction is owed — and then every reference stands resolved in
    /// the generator's own tables, so generation performs no fallible
    /// lookups — exactly when the grid is positive, every reference
    /// resolves and every weight total is representable.
    pub fn new(builder: GeneratorBuilder, module: &Module) -> (r: Result<AreaGenerator, GenError>)
        ensures
            match r {
                Ok(g) => g.wf() && g.spec_room_params() == builder.rooms && g.spec_grid_width()
                    == builder.grid_width && g.spec_grid_height() == builder.grid_height
                    && spec_resolved_from(g, builder, *module),
                Err(e) => spec_new_error(e, builder, *module),
            },
            spec_builder_resolvable(builder, *module) ==> r is Ok,
            (exists|i: int|
                0 <= i < builder.wall_kinds@.len() && crate::registry::spec_find(
                    module.spec_wall_kinds(),
                    (#[trigger] builder.wall_kinds@[i]).0@,
                ) is None) ==> r is Err,
            (exists|i: int|
                0 <= i < builder.props.props@.len() && crate::registry::spec_find(
                    module.spec_props(),
                    (#[trigger] builder.props.props@[i]).0@,
                ) is None) ==> r is Err,
            (exists|i: int|
                0 <= i < builder.terrain.kinds@.len() && crate::registry::spec_find(
                    module.spec_terrain_kinds(),
                    (#[trigger] builder.terrain.kinds@[i]).0@,
                ) is None) ==> r is Err,
            (exists|i: int|
                0 <= i < builder.encounters.encounters@.len() && crate::registry::spec_find(
                    module.spec_encounters(),
                    (#[trigger] builder.encounters.encounters@[i]).0@,
                ) is None) ==> r is Err,
            (exists|i: int|
                0 <= i < builder.features.features@.len() && crate::registry::spec_find(
                    module.spec_features(),
                    (#[trigger] builder.features.features@[i]).0@,
                ) is None) ==> r is Err,
            (exists|i: int|
                0 <= i < builder.transitions.kinds@.len() && crate::module::spec_find_size(
                    module.spec_sizes(),
                    (#[trigger] builder.transitions.kinds@[i]).size as int,
                ) is None) ==> r is Err,
    {
        if builder.grid_width <= 0 || builder.grid_height <= 0 {
            return Err(GenError::InvalidData);
        }
        let wall_kinds = match WallKinds::new(builder.wall_kinds, module) {
            Ok(w) => w,
            Err(e) => {
                return Err(e);
            },
        };
        let terrain_params = match TerrainParams::new(builder.terrain, module) {
            Ok(p) => p,
            Err(e) => {
                return Err(e);
            },
        };
        let prop_params = match PropParams::with_module(builder.props, module) {
            Ok(p) => p,
            Err(e) => {
                return Err(e);
            },
        };
        let encounter_params = match EncounterParams::with_module(builder.encounters, module) {
            Ok(p) => p,
            Err(e) => {
                return Err(e);
            },
        };
        let feature_params = match FeatureParams::new(builder.features, module) {
            Ok(p) => p,
            Err(e) => {
                return Err(e);
            },
        };
        let transition_params = match TransitionParams::new(builder.transitions, module) {
            Ok(p) => p,
            Err(e) => {
                return Err(e);
            },
        };
        Ok(
            AreaGenerator {
                id: builder.id,
                wall_kinds,
                grid_width: builder.grid_width,
                grid_height: builder.grid_height,
                room_params: builder.rooms,
                terrain_params,
                prop_params,
                encounter_params,
                feature_params,
                transition_params,
            },
        )
    }

    /// Picks the wall kind for one maze cell.  Outside invert mode carving
    /// always clears (elevation 0, no kind).  In invert mode the kind is
    /// memoized per region: the first cell of a region draws it from the
    /// weighted table, every later cell of the same region reuses exactly
    /// the memoized value, so one region never mixes wall kinds.
    #[verifier::rlimit(30)]
    pub fn pick_wall_kind(
        &self,
        model: &mut GenModel,
        invert: bool,
        region: usize,
        mapped: &mut WallKindMemo,
    ) -> (r: (u8, Option<usize>))
        requires
            self.wf(),
            old(model).wf(),
        ensures
            final(model).wf(),
            final(model).model == old(model).model,
            final(model).region_overfill_edges == old(model).region_overfill_edges,
            final(model).total_grid_size == old(model).total_grid_size,
            final(model).spec_width() == old(model).spec_width(),
            final(model).spec_height() == old(model).spec_height(),
            !invert ==> r == (0u8, None::<usize>) && *final(model) == *old(model)
                && final(mapped)@ == old(mapped)@,
            invert ==> spec_pick_wall_kind_invert_post(
                self.spec_wall_kinds(),
                old(mapped)@,
                final(mapped)@,
                region,
                r,
                old(model).rand,
                final(model).rand,
            ),
            invert && spec_wall_kind_memo(old(mapped)@, region as int) is Some ==> *final(model)
                == *old(model),
    {
        if !invert {
            return (0, None);
        }
        match mapped.get(region) {
            Some(v) => (1, v),
            None => {
                let wall_index = self.wall_kinds.pick_index(&mut model.rand);
                mapped.insert(region, wall_index);
                (1, wall_index)
            },
        }
    }

    /// Carves one coarse cell's block of wall cells: the four border strips,
    /// the four corners, and the interior, skipping any border the
    /// rough-edge policy leaves uncarved.  A corridor cell that rolls an
    /// overfill uses its region's memoized edge (drawing it once, on the
    /// region's first roll); a room cell rolls a fresh edge each time.
    /// Afterwards, for some edge choice consistent with the memo, every cell
    /// of the block selected by `spec_carved` holds `(elev, wall_kind)`,
    /// every other cell of the block is untouched, and no cell outside the
    /// block changed.
    #[verifier::rlimit(100)]
    pub fn carve_wall(
        &self,
        model: &mut GenModel,
        neighbors: &[Option<TileKind>; 5],
        offset: Point,
        step: Point,
        max: Point,
        elev: u8,
        wall_kind: Option<usize>,
    )
        requires
            self.wf(),
            old(model).wf(),
            step.x == GRID_DIM,
            step.y == GRID_DIM,
            step.x <= max.x,
            step.y <= max.y,
            0 <= offset.x,
            0 <= offset.y,
            offset.x as int % GRID_DIM as int == 0,
            offset.y as int % GRID_DIM as int == 0,
            max.x as int % GRID_DIM as int == 0,
            max.y as int % GRID_DIM as int == 0,
            offset.x as int + max.x as int <= i32::MAX as int,
            offset.y as int + max.y as int <= i32::MAX as int,
        ensures
            final(model).wf(),
            carve_frame(*old(model), *final(model)),
            exists|choice: Option<u32>|
                {
                    &&& (neighbors@[0] matches Some(TileKind::Corridor(region)) ==> (
                    choice matches Some(c) ==> spec_edge(
                        final(model).region_overfill_edges@,
                        region as int,
                    ) == Some(c)))
                    &&& (match neighbors@[0] {
                        Some(TileKind::Corridor(_)) => true,
                        Some(TileKind::Room { .. }) => true,
                        _ => choice is None,
                    })
                    &&& #[trigger] spec_carve_wall_post(
                        *old(model),
                        *final(model),
                        neighbors@,
                        offset,
                        max,
                        elev,
                        wall_kind,
                        choice,
                    )
                },
            (neighbors@[0] matches Some(TileKind::Corridor(region))
                ==> final(model).region_overfill_edges@ == old(model).region_overfill_edges@
                    || (spec_edge(old(model).region_overfill_edges@, region as int) is None
                        && exists|v: u32|
                            final(model).region_overfill_edges@
                                == old(model).region_overfill_edges@.push((region, v)))),
            !(neighbors@[0] matches Some(TileKind::Corridor(_)))
                ==> final(model).region_overfill_edges@ == old(model).region_overfill_edges@,
    {
        let edge_choice: Option<u32> = match neighbors[0] {
            Some(TileKind::Corridor(region)) => {
                if model.rand.gen(1, 101) < self.room_params.corridor_edge_overfill_chance {
                    // one edge per corridor region, memoized, so the two
                    // sides of a shared corridor boundary never disagree
                    let roll: u32 = model.rand.gen(1, 5);
                    Some(model.region_overfill_edges.or_insert(region, roll))
                } else {
                    None
                }
            },
            Some(TileKind::Room { .. }) => {
                if model.rand.gen(1, 101) < self.room_params.room_edge_overfill_chance {
                    Some(model.rand.gen(1, 5))
                } else {
                    None
                }
            },
            _ => None,
        };
        let rough1: bool = is_rough_edge(neighbors, 1, edge_choice);
        let rough2: bool = is_rough_edge(neighbors, 2, edge_choice);
        let rough3: bool = is_rough_edge(neighbors, 3, edge_choice);
        let rough4: bool = is_rough_edge(neighbors, 4, edge_choice);

        let g: i32 = GRID_DIM;
        let nx: i32 = max.x / g;
        let ny: i32 = max.y / g;
        proof {
            crate::gen_model::lemma_tile_coords_round_trip(g as int, max.x as int);
            crate::gen_model::lemma_tile_coords_round_trip(g as int, max.y as int);
            assert(1 <= nx && 1 <= ny) by (nonlinear_arith)
                requires
                    nx == max.x as int / 2,
                    ny == max.y as int / 2,
                    2 <= max.x,
                    2 <= max.y,
            ;
        }
        let ghost bx = offset.x as int / GRID_DIM as int;
        let ghost by = offset.y as int / GRID_DIM as int;
        let ghost mid = *model;
        let ghost nb = neighbors@;

        // the four border strips: north, east, south, west
        let mut i: i32 = 1;
        while i < nx - 1
            invariant
                carve_block_frame(mid, *model, bx, by, nx as int, ny as int),
                bx == offset.x as int / GRID_DIM as int,
                by == offset.y as int / GRID_DIM as int,
                nx as int * GRID_DIM as int == max.x as int,
                ny as int * GRID_DIM as int == max.y as int,
                0 <= offset.x,
                0 <= offset.y,
                offset.x as int % GRID_DIM as int == 0,
                offset.y as int % GRID_DIM as int == 0,
                offset.x as int + max.x as int <= i32::MAX as int,
                offset.y as int + max.y as int <= i32::MAX as int,
                1 <= nx,
                1 <= ny,
                1 <= i,
                nx >= 2 ==> i <= nx - 1,
                nx < 2 ==> i == 1,
                nb == neighbors@,
                rough1 == spec_is_rough_edge(nb, 1, edge_choice),
                block_progress(mid, *model, bx, by, nx as int, ny as int, nb, edge_choice, elev,
                    wall_kind, i as int, 1, 1, 1, false, false, false, false, 1, 1),
            decreases nx - i,
        {
            if !rough1 {
                set_block_cell(model, offset, max, i, 0, elev, wall_kind);
            }
            i = i + 1;
        }
        let mut j: i32 = 1;
        while j < ny - 1
            invariant
                carve_block_frame(mid, *model, bx, by, nx as int, ny as int),
                bx == offset.x as int / GRID_DIM as int,
                by == offset.y as int / GRID_DIM as int,
                nx as int * GRID_DIM as int == max.x as int,
                ny as int * GRID_DIM as int == max.y as int,
                0 <= offset.x,
                0 <= offset.y,
                offset.x as int % GRID_DIM as int == 0,
                offset.y as int % GRID_DIM as int == 0,
                offset.x as int + max.x as int <= i32::MAX as int,
                offset.y as int + max.y as int <= i32::MAX as int,
                1 <= nx,
                1 <= ny,
                1 <= j,
                ny >= 2 ==> j <= ny - 1,
                ny < 2 ==> j == 1,
                nb == neighbors@,
                rough2 == spec_is_rough_edge(nb, 2, edge_choice),
                block_progress(mid, *model, bx, by, nx as int, ny as int, nb, edge_choice, elev,
                    wall_kind, nx as int - 1, j as int, 1, 1, false, false, false, false, 1, 1),
            decreases ny - j,
        {
            if !rough2 {
                set_block_cell(model, offset, max, nx - 1, j, elev, wall_kind);
            }
            j = j + 1;
        }
        let mut i: i32 = 1;
        while i < nx - 1
            invariant
                carve_block_frame(mid, *model, bx, by, nx as int, ny as int),
                bx == offset.x as int / GRID_DIM as int,
                by == offset.y as int / GRID_DIM as int,
                nx as int * GRID_DIM as int == max.x as int,
                ny as int * GRID_DIM as int == max.y as int,
                0 <= offset.x,
                0 <= offset.y,
                offset.x as int % GRID_DIM as int == 0,
                offset.y as int % GRID_DIM as int == 0,
                offset.x as int + max.x as int <= i32::MAX as int,
                offset.y as int + max.y as int <= i32::MAX as int,
                1 <= nx,
                1 <= ny,
                1 <= i,
                nx >= 2 ==> i <= nx - 1,
                nx < 2 ==> i == 1,
                nb == neighbors@,
                rough3 == spec_is_rough_edge(nb, 3, edge_choice),
                block_progress(mid, *model, bx, by, nx as int, ny as int, nb, edge_choice, elev,
                    wall_kind, nx as int - 1, ny as int - 1, i as int, 1, false, false, false,
                    false, 1, 1),
            decreases nx - i,
        {
            if !rough3 {
                set_block_cell(model, offset, max, i, ny - 1, elev, wall_kind);
            }
            i = i + 1;
        }
        let mut j: i32 = 1;
        while j < ny - 1
            invariant
                carve_block_frame(mid, *model, bx, by, nx as int, ny as int),
                bx == offset.x as int / GRID_DIM as int,
                by == offset.y as int / GRID_DIM as int,
                nx as int * GRID_DIM as int == max.x as int,
                ny as int * GRID_DIM as int == max.y as int,
                0 <= offset.x,
                0 <= offset.y,
                offset.x as int % GRID_DIM as int == 0,
                offset.y as int % GRID_DIM as int == 0,
                offset.x as int + max.x as int <= i32::MAX as int,
                offset.y as int + max.y as int <= i32::MAX as int,
                1 <= nx,
                1 <= ny,
                1 <= j,
                ny >= 2 ==> j <= ny - 1,
                ny < 2 ==> j == 1,
                nb == neighbors@,
                rough4 == spec_is_rough_edge(nb, 4, edge_choice),
                block_progress(mid, *model, bx, by, nx as int, ny as int, nb, edge_choice, elev,
                    wall_kind, nx as int - 1, ny as int - 1, nx as int - 1, j as int, false,
                    false, false, false, 1, 1),
            decreases ny - j,
        {
            if !rough4 {
                set_block_cell(model, offset, max, 0, j, elev, wall_kind);
            }
            j = j + 1;
        }

        // the four corners, each carved only when both adjacent borders were
        carve_block_corners(
            model,
            offset,
            max,
            rough1,
            rough2,
            rough3,
            rough4,
            edge_choice,
            elev,
            wall_kind,
            Ghost(mid),
            Ghost(nb),
        );

        // the interior
        let mut j: i32 = 1;
        while j < ny - 1
            invariant
                carve_block_frame(mid, *model, bx, by, nx as int, ny as int),
                bx == offset.x as int / GRID_DIM as int,
                by == offset.y as int / GRID_DIM as int,
                nx as int * GRID_DIM as int == max.x as int,
                ny as int * GRID_DIM as int == max.y as int,
                0 <= offset.x,
                0 <= offset.y,
                offset.x as int % GRID_DIM as int == 0,
                offset.y as int % GRID_DIM as int == 0,
                offset.x as int + max.x as int <= i32::MAX as int,
                offset.y as int + max.y as int <= i32::MAX as int,
                1 <= nx,
                1 <= ny,
                1 <= j,
                ny >= 2 ==> j <= ny - 1,
                ny < 2 ==> j == 1,
                nb == neighbors@,
                block_progress(mid, *model, bx, by, nx as int, ny as int, nb, edge_choice, elev,
                    wall_kind, nx as int - 1, ny as int - 1, nx as int - 1, ny as int - 1, true,
                    true, true, true, j as int, 1),
            decreases ny - j,
        {
            let mut i: i32 = 1;
            while i < nx - 1
                invariant
                    carve_block_frame(mid, *model, bx, by, nx as int, ny as int),
                    bx == offset.x as int / GRID_DIM as int,
                    by == offset.y as int / GRID_DIM as int,
                    nx as int * GRID_DIM as int == max.x as int,
                    ny as int * GRID_DIM as int == max.y as int,
                    0 <= offset.x,
                    0 <= offset.y,
                    offset.x as int % GRID_DIM as int == 0,
                    offset.y as int % GRID_DIM as int == 0,
                    offset.x as int + max.x as int <= i32::MAX as int,
                    offset.y as int + max.y as int <= i32::MAX as int,
                    1 <= nx,
                    1 <= ny,
                    1 <= j,
                    j <= ny - 2,
                    1 <= i,
                    nx >= 2 ==> i <= nx - 1,
                    nx < 2 ==> i == 1,
                    nb == neighbors@,
                    block_progress(mid, *model, bx, by, nx as int, ny as int, nb, edge_choice,
                        elev, wall_kind, nx as int - 1, ny as int - 1, nx as int - 1,
                        ny as int - 1, true, true, true, true, j as int, i as int),
                decreases nx - i,
            {
                set_block_cell(model, offset, max, i, j, elev, wall_kind);
                i = i + 1;
            }
            proof {
                assert(block_progress(mid, *model, bx, by, nx as int, ny as int, nb, edge_choice,
                    elev, wall_kind, nx as int - 1, ny as int - 1, nx as int - 1, ny as int - 1,
                    true, true, true, true, j as int + 1, 1));
            }
            j = j + 1;
        }

        proof {
            assert(mid.model == old(model).model);
            lemma_carve_post_from_progress(
                *old(model),
                mid,
                *model,
                nb,
                offset,
                max,
                elev,
                wall_kind,
                edge_choice,
            );
        }
    }

    /// The first generation pass.  Outside invert mode the whole area is
    /// raised as wall with one globally drawn wall kind and every maze
    /// region's block is carved open; in invert mode the area starts open
    /// and every region's block is filled with that region's memoized wall
    /// kind.  `carve_wall` applies the rough-edge policy at each block's
    /// borders; `spec_add_walls_post` states the resulting wall grid: the
    /// base fill everywhere the maze has no region, and each region block's
    /// interior carved with the region's one memoized kind.
    pub fn add_walls(&self, model: &mut GenModel, maze: &Maze)
        requires
            self.wf(),
            old(model).wf(),
            maze.wf(),
            maze.spec_width() * old(model).total_grid_size.x as int <= old(model).spec_width(),
            maze.spec_height() * old(model).total_grid_size.y as int <= old(model).spec_height(),
        ensures
            final(model).wf(),
            final(model).model.spec_layers() == old(model).model.spec_layers(),
            final(model).model.spec_terrain() == old(model).model.spec_terrain(),
            final(model).spec_width() == old(model).spec_width(),
            final(model).spec_height() == old(model).spec_height(),
            final(model).total_grid_size == old(model).total_grid_size,
            exists|mapped: Seq<(usize, Option<usize>)>, base: Option<usize>|
                #[trigger] spec_add_walls_post(
                    self.spec_room_params().invert,
                    self.spec_wall_kinds(),
                    *final(model),
                    *maze,
                    mapped,
                    base,
                    final(model).total_grid_size.x as int / GRID_DIM as int,
                    final(model).total_grid_size.y as int / GRID_DIM as int,
                ),
    {
        let invert: bool = self.room_params.invert;

        // lay the base: everything open in invert mode, everything wall
        // (with one global kind) otherwise
        let base_elev: u8;
        let base_kind: Option<usize>;
        if invert {
            base_elev = 0;
            base_kind = None;
        } else {
            base_elev = 1;
            base_kind = self.wall_kinds.pick_index(&mut model.rand);
        }
        let ghost base_cell = (base_elev, base_kind);
        let cw: i32 = model.model.cells_w();
        let ch: i32 = model.model.cells_h();
        proof {
            assert(cw as int * GRID_DIM as int <= model.spec_width() && ch as int
                * GRID_DIM as int <= model.spec_height()) by (nonlinear_arith)
                requires
                    cw as int == model.spec_width() / 2,
                    ch as int == model.spec_height() / 2,
                    GRID_DIM == 2,
                    2 <= model.spec_width(),
                    2 <= model.spec_height(),
            ;
        }
        let origin = Point::new(0, 0);
        let mut fy: i32 = 0;
        while fy < ch
            invariant
                model.wf(),
                carve_frame(*old(model), *model),
                cw == model.model.spec_cells_w(),
                ch == model.model.spec_cells_h(),
                cw as int * GRID_DIM as int <= model.spec_width(),
                ch as int * GRID_DIM as int <= model.spec_height(),
                origin == (Point { x: 0, y: 0 }),
                base_cell == (base_elev, base_kind),
                0 <= fy <= ch,
                forall|a: int, b: int|
                    #![trigger model.model.spec_wall_cell(a, b)]
                    0 <= a < cw && 0 <= b < ch && b < fy ==> model.model.spec_wall_cell(a, b)
                        == base_cell,
            decreases ch - fy,
        {
            let mut fx: i32 = 0;
            while fx < cw
                invariant
                    model.wf(),
                    carve_frame(*old(model), *model),
                    cw == model.model.spec_cells_w(),
                    ch == model.model.spec_cells_h(),
                    cw as int * GRID_DIM as int <= model.spec_width(),
                    ch as int * GRID_DIM as int <= model.spec_height(),
                    origin == (Point { x: 0, y: 0 }),
                    base_cell == (base_elev, base_kind),
                    0 <= fy < ch,
                    0 <= fx <= cw,
                    forall|a: int, b: int|
                        #![trigger model.model.spec_wall_cell(a, b)]
                        0 <= a < cw && 0 <= b < ch && (b < fy || (b == fy && a < fx))
                            ==> model.model.spec_wall_cell(a, b) == base_cell,
                decreases cw - fx,
            {
                set_block_cell(model, origin, origin, fx, fy, base_elev, base_kind);
                fx = fx + 1;
            }
            fy = fy + 1;
        }

        // carve each maze region's block, memoizing the wall kind per region
        let ghost tgx = model.total_grid_size.x as int / GRID_DIM as int;
        let ghost tgy = model.total_grid_size.y as int / GRID_DIM as int;
        proof {
            assert(1 <= tgx && 1 <= tgy) by (nonlinear_arith)
                requires
                    tgx == model.total_grid_size.x as int / 2,
                    tgy == model.total_grid_size.y as int / 2,
                    0 < model.total_grid_size.x,
                    0 < model.total_grid_size.y,
                    model.total_grid_size.x as int % 2 == 0,
                    model.total_grid_size.y as int % 2 == 0,
            ;
        }
        let mut mapped = WallKindMemo::new();
        let maze_w: i32 = maze.width();
        let maze_h: i32 = maze.height();
        let mut ry: i32 = 0;
        while ry < maze_h
            invariant
                self.wf(),
                model.wf(),
                maze.wf(),
                carve_frame(*old(model), *model),
                cw == model.model.spec_cells_w(),
                ch == model.model.spec_cells_h(),
                maze_w == maze.spec_width(),
                maze_h == maze.spec_height(),
                maze_w as int * model.total_grid_size.x as int <= model.spec_width(),
                maze_h as int * model.total_grid_size.y as int <= model.spec_height(),
                tgx == model.total_grid_size.x as int / GRID_DIM as int,
                tgy == model.total_grid_size.y as int / GRID_DIM as int,
                1 <= tgx,
                1 <= tgy,
                invert == self.spec_room_params().invert,
                0 <= ry <= maze_h,
                base_cell == (if invert {
                    (0u8, None::<usize>)
                } else {
                    (1u8, base_kind)
                }),
                invert ==> base_kind is None,
                !invert ==> ((base_kind is None <==> total_weight(self.spec_wall_kinds()) == 0)
                    && (base_kind matches Some(bi) ==> bi < self.spec_wall_kinds().len()
                    && self.spec_wall_kinds()[bi as int].1 > 0)),
                forall|r: int|
                    match #[trigger] spec_wall_kind_memo(mapped@, r) {
                        Some(k) => invert && (k is None <==> total_weight(self.spec_wall_kinds())
                            == 0) && (k matches Some(idx) ==> idx < self.spec_wall_kinds().len()
                            && self.spec_wall_kinds()[idx as int].1 > 0),
                        None => true,
                    },
                forall|a: int, b: int|
                    #![trigger model.model.spec_wall_cell(a, b)]
                    0 <= a < cw && 0 <= b < ch && (maze.spec_kind_at(
                        a / tgx,
                        b / tgy,
                    ).spec_region() is None || !spec_visited(a / tgx, b / tgy, maze_w as int,
                        0, ry as int)) ==> model.model.spec_wall_cell(a, b) == base_cell,
                forall|a: int, b: int|
                    #![trigger spec_block_interior(a, b, tgx, tgy)]
                    #![trigger model.model.spec_wall_cell(a, b)]
                    0 <= a < cw && 0 <= b < ch && spec_visited(a / tgx, b / tgy, maze_w as int,
                        0, ry as int) && spec_block_interior(a, b, tgx, tgy) ==> (
                    match maze.spec_kind_at(a / tgx, b / tgy).spec_region() {
                        Some(region) => if invert {
                            spec_wall_kind_memo(mapped@, region as int) is Some && model.model.spec_wall_cell(a, b) == (
                                1u8,
                                spec_wall_kind_memo(mapped@, region as int).unwrap(),
                            )
                        } else {
                            model.model.spec_wall_cell(a, b) == (0u8, None::<usize>)
                        },
                        None => true,
                    }),
            decreases maze_h - ry,
        {
            let mut rx: i32 = 0;
            while rx < maze_w
                invariant
                    self.wf(),
                    model.wf(),
                    maze.wf(),
                    carve_frame(*old(model), *model),
                    cw == model.model.spec_cells_w(),
                    ch == model.model.spec_cells_h(),
                    maze_w == maze.spec_width(),
                    maze_h == maze.spec_height(),
                    maze_w as int * model.total_grid_size.x as int <= model.spec_width(),
                    maze_h as int * model.total_grid_size.y as int <= model.spec_height(),
                    tgx == model.total_grid_size.x as int / GRID_DIM as int,
                    tgy == model.total_grid_size.y as int / GRID_DIM as int,
                    1 <= tgx,
                    1 <= tgy,
                    invert == self.spec_room_params().invert,
                    0 <= ry < maze_h,
                    0 <= rx <= maze_w,
                    base_cell == (if invert {
                        (0u8, None::<usize>)
                    } else {
                        (1u8, base_kind)
                    }),
                    invert ==> base_kind is None,
                    !invert ==> ((base_kind is None <==> total_weight(self.spec_wall_kinds())
                        == 0) && (base_kind matches Some(bi) ==> bi
                        < self.spec_wall_kinds().len() && self.spec_wall_kinds()[bi as int].1
                        > 0)),
                    forall|r: int|
                        match #[trigger] spec_wall_kind_memo(mapped@, r) {
                            Some(k) => invert && (k is None <==> total_weight(
                                self.spec_wall_kinds(),
                            ) == 0) && (k matches Some(idx) ==> idx
                                < self.spec_wall_kinds().len()
                                && self.spec_wall_kinds()[idx as int].1 > 0),
                            None => true,
                        },
                    forall|a: int, b: int|
                        #![trigger model.model.spec_wall_cell(a, b)]
                        0 <= a < cw && 0 <= b < ch && (maze.spec_kind_at(
                            a / tgx,
                            b / tgy,
                        ).spec_region() is None || !spec_visited(a / tgx, b / tgy,
                            maze_w as int, rx as int, ry as int)) ==> model.model.spec_wall_cell(
                            a,
                            b,
                        ) == base_cell,
                    forall|a: int, b: int|
                        #![trigger spec_block_interior(a, b, tgx, tgy)]
                    #![trigger model.model.spec_wall_cell(a, b)]
                        0 <= a < cw && 0 <= b < ch && spec_visited(a / tgx, b / tgy,
                            maze_w as int, rx as int, ry as int) && spec_block_interior(a, b,
                            tgx, tgy) ==> (match maze.spec_kind_at(
                            a / tgx,
                            b / tgy,
                        ).spec_region() {
                            Some(region) => if invert {
                                spec_wall_kind_memo(mapped@, region as int) is Some && model.model.spec_wall_cell(a, b) == (
                                1u8,
                                spec_wall_kind_memo(mapped@, region as int).unwrap(),
                            )
                            } else {
                                model.model.spec_wall_cell(a, b) == (0u8, None::<usize>)
                            },
                            None => true,
                        }),
                decreases maze_w - rx,
            {
                let ghost entry = *model;
                match maze.region(rx, ry) {
                    None => (),
                    Some(region) => {
                        let neighbors = maze.neighbors(rx, ry);
                        let ghost pre_mapped = mapped@;
                        let picked = self.pick_wall_kind(model, invert, region, &mut mapped);
                        let elev: u8 = picked.0;
                        let wall_kind: Option<usize> = picked.1;
                        proof {
                            assert(rx as int * model.total_grid_size.x as int
                                + model.total_grid_size.x as int <= model.spec_width() && 0
                                <= rx as int * model.total_grid_size.x as int)
                                by (nonlinear_arith)
                                requires
                                    0 <= rx < maze_w,
                                    0 < model.total_grid_size.x,
                                    maze_w as int * model.total_grid_size.x as int
                                        <= model.spec_width(),
                            ;
                            assert(ry as int * model.total_grid_size.y as int
                                + model.total_grid_size.y as int <= model.spec_height() && 0
                                <= ry as int * model.total_grid_size.y as int)
                                by (nonlinear_arith)
                                requires
                                    0 <= ry < maze_h,
                                    0 < model.total_grid_size.y,
                                    maze_h as int * model.total_grid_size.y as int
                                        <= model.spec_height(),
                            ;
                        }
                        let off = model.from_region_coords(rx, ry);
                        let offset = Point::new(off.0, off.1);
                        let step = Point::new(GRID_DIM, GRID_DIM);
                        let max = Point::new(model.total_grid_size.x, model.total_grid_size.y);
                        proof {
                            lemma_mul_keeps_mod_zero(rx as int, model.total_grid_size.x as int,
                                GRID_DIM as int);
                            lemma_mul_keeps_mod_zero(ry as int, model.total_grid_size.y as int,
                                GRID_DIM as int);
                            assert(GRID_DIM <= max.x && GRID_DIM <= max.y) by (nonlinear_arith)
                                requires
                                    0 < max.x,
                                    0 < max.y,
                                    max.x as int % GRID_DIM as int == 0,
                                    max.y as int % GRID_DIM as int == 0,
                                    GRID_DIM == 2,
                            ;
                        }
                        let ghost pre_carve = *model;
                        self.carve_wall(model, &neighbors, offset, step, max, elev, wall_kind);
                        proof {
                            lemma_add_walls_step(
                                *self,
                                entry,
                                pre_carve,
                                *model,
                                *maze,
                                pre_mapped,
                                mapped@,
                                neighbors@,
                                offset,
                                max,
                                elev,
                                wall_kind,
                                base_cell,
                                invert,
                                region,
                                rx as int,
                                ry as int,
                                cw as int,
                                ch as int,
                                tgx,
                                tgy,
                                maze_w as int,
                            );
                        }
                    },
                }
                rx = rx + 1;
            }
            proof {
                assert forall|a: int, b: int|
                    #![trigger model.model.spec_wall_cell(a, b)]
                    0 <= a < cw && 0 <= b < ch && (maze.spec_kind_at(
                        a / tgx,
                        b / tgy,
                    ).spec_region() is None || !spec_visited(a / tgx, b / tgy, maze_w as int, 0,
                        ry as int + 1)) implies model.model.spec_wall_cell(a, b)
                    == base_cell by {
                    assert(!spec_visited(a / tgx, b / tgy, maze_w as int, 0, ry as int + 1)
                        ==> !spec_visited(a / tgx, b / tgy, maze_w as int, rx as int,
                        ry as int));
                }
                assert forall|a: int, b: int|
                    #![trigger spec_block_interior(a, b, tgx, tgy)]
                    #![trigger model.model.spec_wall_cell(a, b)]
                    0 <= a < cw && 0 <= b < ch && spec_visited(a / tgx, b / tgy, maze_w as int,
                        0, ry as int + 1) && spec_block_interior(a, b, tgx, tgy) implies (
                match maze.spec_kind_at(a / tgx, b / tgy).spec_region() {
                    Some(region) => if invert {
                        spec_wall_kind_memo(mapped@, region as int) is Some && model.model.spec_wall_cell(a, b) == (
                                1u8,
                                spec_wall_kind_memo(mapped@, region as int).unwrap(),
                            )
                    } else {
                        model.model.spec_wall_cell(a, b) == (0u8, None::<usize>)
                    },
                    None => true,
                }) by {
                    assert(spec_visited(a / tgx, b / tgy, maze_w as int, 0, ry as int + 1)
                        ==> spec_visited(a / tgx, b / tgy, maze_w as int, rx as int, ry as int));
                }
            }
            ry = ry + 1;
        }
        proof {
            assert forall|a: int, b: int|
                #![trigger model.model.spec_wall_cell(a, b)]
                0 <= a < model.model.spec_cells_w() && 0 <= b < model.model.spec_cells_h()
                    implies (match maze.spec_kind_at(a / tgx, b / tgy).spec_region() {
                None => model.model.spec_wall_cell(a, b) == base_cell,
                Some(region) => spec_block_interior(a, b, tgx, tgy) ==> (if invert {
                    spec_wall_kind_memo(mapped@, region as int) is Some && model.model.spec_wall_cell(a, b) == (
                                1u8,
                                spec_wall_kind_memo(mapped@, region as int).unwrap(),
                            )
                } else {
                    model.model.spec_wall_cell(a, b) == (0u8, None::<usize>)
                }),
            }) by {
                assert(0 <= a / tgx && 0 <= b / tgy) by (nonlinear_arith)
                    requires
                        0 <= a,
                        0 <= b,
                        1 <= tgx,
                        1 <= tgy,
                ;
                if maze.spec_kind_at(a / tgx, b / tgy).spec_region() is Some {
                    assert(spec_visited(a / tgx, b / tgy, maze_w as int, 0, maze_h as int));
                }
            }
            assert(spec_add_walls_post(
                self.spec_room_params().invert,
                self.spec_wall_kinds(),
                *model,
                *maze,
                mapped@,
                base_kind,
                tgx,
                tgy,
            ));
        }
    }


    /// Converts the accumulated tile model into the final layer sequence,
    /// keeping layer order, and clipping every placement that lies outside
    /// the `width` by `height` area instead of failing.
    pub fn create_layers(&self, width: i32, height: i32, model: &TilesModel) -> (r: Result<
        Vec<Layer>,
        GenError,
    >)
        requires
            model.wf(),
            0 < width,
            0 < height,
            width as int * height as int <= i32::MAX as int,
        ensures
            r matches Ok(v) && v@.len() == model.spec_layers().len(),
            r matches Ok(v) ==> forall|k: int|
                0 <= k < v@.len() ==> {
                    &&& (#[trigger] v@[k]).wf()
                    &&& v@[k].spec_width() == width
                    &&& v@[k].spec_height() == height
                    &&& v@[k].spec_id() == model.spec_layers()[k].id@
                },
            r matches Ok(v) ==> forall|k: int, x: int, y: int|
                0 <= k < v@.len() && 0 <= x < width && 0 <= y < height
                    ==> #[trigger] v@[k].spec_tiles_at(x, y) == stack_of(
                    model.spec_layers()[k].placements@,
                    x,
                    y,
                ),
    {
        let mut out: Vec<Layer> = Vec::new();
        let layer_count: usize = model.layer_count();
        let total: usize = (width as usize) * (height as usize);
        let mut k: usize = 0;
        while k < layer_count
            invariant
                model.wf(),
                0 < width,
                0 < height,
                width as int * height as int <= i32::MAX as int,
                total == width as int * height as int,
                layer_count == model.spec_layers().len(),
                0 <= k <= layer_count,
                out@.len() == k,
                forall|j: int|
                    0 <= j < k ==> {
                        &&& (#[trigger] out@[j]).wf()
                        &&& out@[j].spec_width() == width
                        &&& out@[j].spec_height() == height
                        &&& out@[j].spec_id() == model.spec_layers()[j].id@
                    },
                forall|j: int, x: int, y: int|
                    0 <= j < k && 0 <= x < width && 0 <= y < height
                        ==> #[trigger] out@[j].spec_tiles_at(x, y) == stack_of(
                        model.spec_layers()[j].placements@,
                        x,
                        y,
                    ),
            decreases layer_count - k,
        {
            let lm = model.layer(k);
            let mut tiles: Vec<Vec<Tile>> = Vec::new();
            let mut i: usize = 0;
            while i < total
                invariant
                    tiles@.len() == i,
                    0 <= i <= total,
                    forall|q: int| 0 <= q < i ==> (#[trigger] tiles@[q])@.len() == 0,
                decreases total - i,
            {
                tiles.push(Vec::new());
                i = i + 1;
            }
            proof {
                assert(lm.placements@.take(0) =~= Seq::<(Point, Tile)>::empty());
                assert forall|x: int, y: int|
                    #![trigger tiles@[x + y * width]]
                    0 <= x < width && 0 <= y < height implies tiles@[x + y * width]@ == stack_of(
                    lm.placements@.take(0),
                    x,
                    y,
                ) by {
                    crate::maze::lemma_grid_index(x, y, width as int, height as int);
                    assert(tiles@[x + y * width]@ =~= Seq::<Tile>::empty());
                }
            }
            let placement_count: usize = lm.placements.len();
            let mut j: usize = 0;
            while j < placement_count
                invariant
                    model.wf(),
                    0 < width,
                    0 < height,
                    width as int * height as int <= i32::MAX as int,
                    total == width as int * height as int,
                    tiles@.len() == total,
                    k < model.spec_layers().len(),
                    lm == model.spec_layers()[k as int],
                    placement_count == lm.placements@.len(),
                    0 <= j <= placement_count,
                    forall|x: int, y: int|
                        #![trigger tiles@[x + y * width]]
                        0 <= x < width && 0 <= y < height ==> tiles@[x + y * width]@ == stack_of(
                            lm.placements@.take(j as int),
                            x,
                            y,
                        ),
                decreases placement_count - j,
            {
                let p: Point = lm.placements[j].0;
                if p.x >= 0 && p.y >= 0 && p.x < width && p.y < height {
                    proof {
                        crate::maze::lemma_grid_index(p.x as int, p.y as int, width as int,
                            height as int);
                    }
                    let idx: usize = (p.x as usize) + (p.y as usize) * (width as usize);
                    let ghost pre_tiles = tiles@;
                    let mut stack = tiles.remove(idx);
                    stack.push(lm.placements[j].1.clone());
                    tiles.insert(idx, stack);
                    proof {
                        assert(tiles@ =~= pre_tiles.update(idx as int, tiles@[idx as int]));
                        assert(tiles@.len() == total);
                        assert forall|x: int, y: int|
                            #![trigger tiles@[x + y * width]]
                            0 <= x < width && 0 <= y < height implies tiles@[x + y * width]@
                            == stack_of(lm.placements@.take(j as int + 1), x, y) by {
                            lemma_stack_of_take_succ(lm.placements@, j as int, x, y);
                            crate::maze::lemma_grid_index(x, y, width as int, height as int);
                            if x + y * width == idx as int {
                                crate::maze::lemma_grid_index_injective(x, y, p.x as int,
                                    p.y as int, width as int);
                            }
                        }
                    }
                } else {
                    proof {
                        assert forall|x: int, y: int|
                            #![trigger tiles@[x + y * width]]
                            0 <= x < width && 0 <= y < height implies tiles@[x + y * width]@
                            == stack_of(lm.placements@.take(j as int + 1), x, y) by {
                            lemma_stack_of_take_succ(lm.placements@, j as int, x, y);
                        }
                    }
                }
                j = j + 1;
            }
            proof {
                assert(lm.placements@.take(placement_count as int) =~= lm.placements@);
            }
            let ghost final_tiles = tiles@;
            match Layer::new(width, height, lm.id.clone(), tiles) {
                Ok(l) => {
                    out.push(l);
                    proof {
                        assert forall|x: int, y: int|
                            0 <= x < width && 0 <= y < height implies #[trigger] out@[k as int].spec_tiles_at(
                            x,
                            y,
                        ) == stack_of(model.spec_layers()[k as int].placements@, x, y) by {
                            crate::maze::lemma_grid_index(x, y, width as int, height as int);
                            assert(out@[k as int] == out@.last());
                            assert(out@[k as int].spec_tiles()[x + y * width] == final_tiles[x + y
                                * width]@);
                        }
                    }
                },
                Err(_) => {
                    proof {
                        assert(false);
                    }
                },
            }
            k = k + 1;
        }
        Ok(out)
    }

    pub closed spec fn spec_transition_kinds(&self) -> Seq<crate::params::TransitionKind> {
        self.transition_params.kinds@
    }

    /// Places the requested transitions inside a `width` by `height` area.
    /// Runs before maze carving: the placements become the anchors the maze
    /// keeps open.  Succeeds exactly when every requested kind is known and
    /// fits the area.
    pub fn generate_transitions(
        &self,
        width: i32,
        height: i32,
        rand: &mut ReproducibleRandom,
        params: &GeneratorParams,
    ) -> (r: Result<Vec<crate::passes::TransitionOutput>, GenError>)
        requires
            0 < width,
            0 < height,
        ensures
            r matches Ok(v) ==> {
                &&& v@.len() == params.transitions@.len()
                &&& forall|i: int|
                    0 <= i < v@.len() ==> {
                        &&& 1 <= (#[trigger] v@[i]).from.x
                        &&& v@[i].from.x + v@[i].width < width
                        &&& 1 <= v@[i].from.y
                        &&& v@[i].from.y + v@[i].height < height
                        &&& v@[i].to@ == params.transitions@[i].to@
                        &&& (crate::passes::spec_transition_kind(
                            self.spec_transition_kinds(),
                            params.transitions@[i].kind@,
                        ) matches Some(k) && v@[i].kind@ == k.id@ && v@[i].width == k.size.width
                            && v@[i].height == k.size.height)
                    }
            },
            r matches Err(e) ==> e is UnresolvedReference || e == GenError::GenerationFailed,
            (forall|i: int|
                0 <= i < params.transitions@.len() ==> ((#[trigger] crate::passes::spec_transition_kind(
                    self.spec_transition_kinds(),
                    params.transitions@[i].kind@,
                )) matches Some(k) && crate::passes::spec_transition_fits(
                    k,
                    width as int,
                    height as int,
                ))) ==> r is Ok,
    {
        let tgen = crate::passes::TransitionGen::new(width, height, &self.transition_params);
        let r = tgen.generate(rand, &params.transitions);
        proof {
            if forall|i: int|
                0 <= i < params.transitions@.len() ==> ((#[trigger] crate::passes::spec_transition_kind(
                    self.spec_transition_kinds(),
                    params.transitions@[i].kind@,
                )) matches Some(k) && crate::passes::spec_transition_fits(
                    k,
                    width as int,
                    height as int,
                )) {
                assert forall|i: int|
                    0 <= i < params.transitions@.len() implies ((#[trigger] crate::passes::spec_transition_kind(
                    tgen.params.kinds@,
                    params.transitions@[i].kind@,
                )) matches Some(k) && crate::passes::spec_transition_fits(
                    k,
                    width as int,
                    height as int,
                )) by {
                    assert(crate::passes::spec_transition_kind(
                        self.spec_transition_kinds(),
                        params.transitions@[i].kind@,
                    ) matches Some(k) && crate::passes::spec_transition_fits(
                        k,
                        width as int,
                        height as int,
                    ));
                    assert(tgen.params.kinds@ == self.spec_transition_kinds());
                }
            }
        }
        r
    }

    /// Runs the full pipeline: build the model and the maze, reserve the
    /// transition anchors, carve the maze, add walls, terrain, the handed-in
    /// tiles and the derived border tiles, snapshot the layers for occupancy
    /// queries, run the feature, prop and encounter passes, and assemble the
    /// final output.  Fails as `InvalidData` on unusable dimensions and as
    /// `GenerationFailed` when the maze cannot satisfy its room constraints;
    /// nothing partial is returned.  On success every layer covers exactly
    /// the `width` by `height` area (clipped placements dropped), and every
    /// placed prop and encounter lies inside it.
    #[verifier::rlimit(100)]
    #[verifier::spinoff_prover]
    pub fn generate(
        &self,
        width: i32,
        height: i32,
        rand: ReproducibleRandom,
        params: &GeneratorParams,
        transitions: &Vec<TransitionBuilder>,
        tiles_to_add: Vec<(Tile, i32, i32)>,
    ) -> (r: Result<GeneratorOutput, GenError>)
        requires
            self.wf(),
            transitions@.len() + 2 * (self.spec_room_params().max_rooms as int) + 1 < usize::MAX
                as int,
        ensures
            r matches Ok(out) ==> {
                &&& forall|k: int|
                    0 <= k < out.layers@.len() ==> (#[trigger] out.layers@[k]).wf()
                        && out.layers@[k].spec_width() == width && out.layers@[k].spec_height()
                        == height
                &&& forall|i: int|
                    0 <= i < out.props@.len() ==> 0 <= (#[trigger] out.props@[i]).x < width && 0
                        <= out.props@[i].y < height
                &&& forall|i: int|
                    0 <= i < out.encounters@.len() ==> 0 <= (#[trigger] out.encounters@[i]).x
                        < width && 0 <= out.encounters@[i].y < height
            },
            r is Err ==> r == Err::<GeneratorOutput, GenError>(GenError::InvalidData) || r
                == Err::<GeneratorOutput, GenError>(GenError::GenerationFailed),
            r == Err::<GeneratorOutput, GenError>(GenError::InvalidData) <==> !(spec_dims_usable(
                *self,
                width as int,
                height as int,
            ) && self.spec_room_params().spec_valid()),
            spec_dims_usable(*self, width as int, height as int)
                && self.spec_room_params().spec_valid() && self.spec_room_params().min_rooms == 0
                ==> r is Ok,
            r matches Ok(out) ==> spec_output_generated(
                self.spec_room_params().invert,
                self.spec_wall_kinds(),
                self.spec_terrain_kinds(),
                out,
                width as int,
                height as int,
                transitions@,
            ),
    {
        // validate the dimensions; generation never proceeds on guesses
        if width < GRID_DIM || height < GRID_DIM {
            return Err(GenError::InvalidData);
        }
        proof {
            assert((width as int) * (height as int) < i64::MAX as int && (
            self.spec_grid_width() * GRID_DIM as int) < i64::MAX as int && (
            self.spec_grid_height() * GRID_DIM as int) < i64::MAX as int) by (nonlinear_arith)
                requires
                    0 < width as int <= i32::MAX as int,
                    0 < height as int <= i32::MAX as int,
                    0 < self.spec_grid_width() <= i32::MAX as int,
                    0 < self.spec_grid_height() <= i32::MAX as int,
                    GRID_DIM == 2,
            ;
        }
        if (width as i64) * (height as i64) > i32::MAX as i64 {
            return Err(GenError::InvalidData);
        }
        let gw: i32 = self.grid_width;
        let gh: i32 = self.grid_height;
        if (gw as i64) * (GRID_DIM as i64) > width as i64 {
            return Err(GenError::InvalidData);
        }
        if (gh as i64) * (GRID_DIM as i64) > height as i64 {
            return Err(GenError::InvalidData);
        }

        let mut model = GenModel::new(width, height, rand, gw, gh);
        let ghost m0 = model;
        let sizes = model.region_size();
        let room_width: i32 = sizes.0;
        let room_height: i32 = sizes.1;
        proof {
            assert(room_width as int <= width as int && room_height as int <= height as int
                && room_width as int * room_height as int <= i32::MAX as int && room_width as int
                * model.total_grid_size.x as int <= width as int && room_height as int
                * model.total_grid_size.y as int <= height as int) by (nonlinear_arith)
                requires
                    room_width as int == width as int / model.total_grid_size.x as int,
                    room_height as int == height as int / model.total_grid_size.y as int,
                    0 < model.total_grid_size.x,
                    0 < model.total_grid_size.y,
                    0 < width,
                    0 < height,
                    width as int * height as int <= i32::MAX as int,
            ;
        }
        let mut maze = Maze::new(room_width, room_height);

        // reserve the transition anchors before carving
        let ghost tg = model.total_grid_size;
        let mut open_locs: Vec<Point> = Vec::new();
        let tcount: usize = transitions.len();
        let mut t: usize = 0;
        while t < tcount
            invariant
                model.wf(),
                model.total_grid_size == tg,
                tcount == transitions@.len(),
                0 <= t <= tcount,
                open_locs@.len() <= t,
                forall|j: int|
                    0 <= j < t && (#[trigger] transitions@[j]).from.x >= 0
                        && transitions@[j].from.y >= 0 ==> spec_anchor_recorded_at(
                        open_locs@,
                        transitions@[j].from.x as int / (tg.x as int),
                        transitions@[j].from.y as int / (tg.y as int),
                    ),
            decreases tcount - t,
        {
            let from: Point = transitions[t].from;
            if from.x >= 0 && from.y >= 0 {
                let rc = model.to_region_coords(from.x, from.y);
                let ghost pre_locs = open_locs@;
                open_locs.push(Point::new(rc.0, rc.1));
                proof {
                    assert(open_locs@.last().x as int == from.x as int / (tg.x as int)
                        && open_locs@.last().y as int == from.y as int / (tg.y as int));
                    assert forall|j: int|
                        0 <= j < t + 1 && (#[trigger] transitions@[j]).from.x >= 0
                            && transitions@[j].from.y >= 0 implies spec_anchor_recorded_at(
                        open_locs@,
                        transitions@[j].from.x as int / (tg.x as int),
                        transitions@[j].from.y as int / (tg.y as int),
                    ) by {
                        if j < t {
                            lemma_recorded_push(
                                pre_locs,
                                transitions@[j].from.x as int / (tg.x as int),
                                transitions@[j].from.y as int / (tg.y as int),
                                open_locs@.last(),
                            );
                        } else {
                            assert(open_locs@[open_locs@.len() - 1].x as int == from.x as int / (
                            tg.x as int));
                        }
                    }
                }
            }
            t = t + 1;
        }
        match maze.generate(&self.room_params, &mut model.rand, &open_locs) {
            Ok(()) => (),
            Err(e) => {
                return Err(e);
            },
        }
        let ghost anchor_locs = open_locs@;

        // walls, then terrain
        self.add_walls(&mut model, &maze);
        let ghost after_walls = model;
        let ghost (aw_mapped, aw_base): (Seq<(usize, Option<usize>)>, Option<usize>) = choose|
            mapped: Seq<(usize, Option<usize>)>,
            base: Option<usize>,
        |
            #[trigger] spec_add_walls_post(
                self.spec_room_params().invert,
                self.spec_wall_kinds(),
                after_walls,
                maze,
                mapped,
                base,
                after_walls.total_grid_size.x as int / GRID_DIM as int,
                after_walls.total_grid_size.y as int / GRID_DIM as int,
            );
        let tgen = crate::passes::TerrainGen::new(&self.terrain_params, &maze);
        tgen.generate(&mut model);
        let ghost after_terrain = model;

        // the caller's extra tiles (transition features and the like)
        let extra_count: usize = tiles_to_add.len();
        let mut e: usize = 0;
        while e < extra_count
            invariant
                model.wf(),
                model.spec_width() == width,
                model.spec_height() == height,
                model.model.spec_walls() == after_terrain.model.spec_walls(),
                model.model.spec_terrain() == after_terrain.model.spec_terrain(),
                model.model.spec_cells_w() == after_terrain.model.spec_cells_w(),
                model.model.spec_cells_h() == after_terrain.model.spec_cells_h(),
                model.total_grid_size == after_terrain.total_grid_size,
                extra_count == tiles_to_add@.len(),
                0 <= e <= extra_count,
            decreases extra_count - e,
        {
            let tile: Tile = tiles_to_add[e].0.clone();
            model.model.add(tile, tiles_to_add[e].1, tiles_to_add[e].2);
            e = e + 1;
        }

        // derive wall and terrain border tiles over the whole grid
        proof {
            assert(2 * width as int <= i32::MAX as int && 2 * height as int <= i32::MAX as int)
                by (nonlinear_arith)
                requires
                    2 <= width as int,
                    2 <= height as int,
                    width as int * height as int <= i32::MAX as int,
            ;
        }
        let mut y: i32 = 0;
        while y < height
            invariant
                model.wf(),
                model.spec_width() == width,
                model.spec_height() == height,
                model.model.spec_walls() == after_terrain.model.spec_walls(),
                model.model.spec_terrain() == after_terrain.model.spec_terrain(),
                model.model.spec_cells_w() == after_terrain.model.spec_cells_w(),
                model.model.spec_cells_h() == after_terrain.model.spec_cells_h(),
                model.total_grid_size == after_terrain.total_grid_size,
                self.wf(),
                2 * width as int <= i32::MAX as int,
                2 * height as int <= i32::MAX as int,
                0 <= y,
            decreases height + GRID_DIM - y,
        {
            let mut x: i32 = 0;
            while x < width
                invariant
                    model.wf(),
                    model.spec_width() == width,
                    model.spec_height() == height,
                    model.model.spec_walls() == after_terrain.model.spec_walls(),
                    model.model.spec_terrain() == after_terrain.model.spec_terrain(),
                    model.model.spec_cells_w() == after_terrain.model.spec_cells_w(),
                    model.model.spec_cells_h() == after_terrain.model.spec_cells_h(),
                    model.total_grid_size == after_terrain.total_grid_size,
                    self.wf(),
                    2 * width as int <= i32::MAX as int,
                    2 * height as int <= i32::MAX as int,
                    0 <= x,
                    0 <= y < height,
                decreases width + GRID_DIM - x,
            {
                model.model.check_add_wall_border(&self.wall_kinds.kinds, x, y);
                model.model.check_add_terrain(&self.terrain_params.kinds, x, y);
                model.model.check_add_terrain_border(&self.terrain_params.kinds, x, y);
                x = x + GRID_DIM;
            }
            y = y + GRID_DIM;
        }

        // snapshot the layers: the later passes query them for occupancy
        let layers = match self.create_layers(width, height, &model.model) {
            Ok(l) => l,
            Err(_) => {
                proof {
                    assert(false);
                }
                unreached()
            },
        };

        let fgen = crate::passes::FeatureGen::new(&layers, &self.feature_params, &maze);
        match fgen.generate(&mut model) {
            Ok(()) => (),
            Err(_) => {
                proof {
                    assert(false);
                }
            },
        }

        let pgen = crate::passes::PropGen::new(&layers, &self.prop_params, &maze);
        let props = match pgen.generate(&mut model, params.props.passes) {
            Ok(p) => p,
            Err(_) => {
                proof {
                    assert(false);
                }
                unreached()
            },
        };

        let egen = crate::passes::EncounterGen::new(&layers, &self.encounter_params, &maze);
        let encounters = match egen.generate(&mut model, params.encounters.passes) {
            Ok(p) => p,
            Err(_) => {
                proof {
                    assert(false);
                }
                unreached()
            },
        };

        // the final layer snapshot includes everything the passes added
        let layers = match self.create_layers(width, height, &model.model) {
            Ok(l) => l,
            Err(_) => {
                proof {
                    assert(false);
                }
                unreached()
            },
        };

        let ghost final_model = model;
        let result = GeneratorOutput { layers, props, encounters };
        proof {
            assert(spec_generated(
                self.spec_room_params().invert,
                self.spec_wall_kinds(),
                self.spec_terrain_kinds(),
                final_model,
                maze,
                aw_mapped,
                aw_base,
                result,
                width as int,
                height as int,
                transitions@,
            )) by {

                let invert = self.spec_room_params().invert;
                let wk = self.spec_wall_kinds();
                let tk_tbl = self.spec_terrain_kinds();
                let tgx = final_model.total_grid_size.x as int / GRID_DIM as int;
                let tgy = final_model.total_grid_size.y as int / GRID_DIM as int;
                assert(final_model.total_grid_size == tg && after_walls.total_grid_size == tg
                    && after_terrain.total_grid_size == tg && m0.total_grid_size == tg);

                // the wall pass's cell map still describes the final wall grid
                assert(final_model.model.spec_walls() == after_walls.model.spec_walls());
                lemma_add_walls_post_frame(invert, wk, after_walls, final_model, maze, aw_mapped,
                    aw_base, tgx, tgy);

                // the maze covers the region grid and keeps the anchors open
                assert(maze.spec_width() == width as int / (tg.x as int));
                assert(maze.spec_height() == height as int / (tg.y as int));
                assert forall|i: int|
                    0 <= i < transitions@.len() && (#[trigger] transitions@[i]).from.x >= 0
                        && transitions@[i].from.y >= 0 && (transitions@[i].from.x as int / (
                    tg.x as int)) < maze.spec_width() && (transitions@[i].from.y as int / (
                    tg.y as int)) < maze.spec_height() implies maze.spec_kind_at(
                    transitions@[i].from.x as int / (tg.x as int),
                    transitions@[i].from.y as int / (tg.y as int),
                ) != TileKind::Wall by {
                    let rx = transitions@[i].from.x as int / (tg.x as int);
                    let ry = transitions@[i].from.y as int / (tg.y as int);
                    assert(spec_anchor_recorded_at(anchor_locs, rx, ry));
                    let l = choose|l: int|
                        0 <= l < anchor_locs.len() && (#[trigger] anchor_locs[l]).x == rx
                            && anchor_locs[l].y == ry;
                    assert(0 <= rx && 0 <= ry) by (nonlinear_arith)
                        requires
                            transitions@[i].from.x >= 0,
                            transitions@[i].from.y >= 0,
                            tg.x > 0,
                            tg.y > 0,
                            rx == transitions@[i].from.x as int / (tg.x as int),
                            ry == transitions@[i].from.y as int / (tg.y as int),
                    ;
                    assert(anchor_locs[l].spec_in_bounds(maze.spec_width(), maze.spec_height()));
                    assert(maze.spec_kind_at(anchor_locs[l].x as int, anchor_locs[l].y as int)
                        != TileKind::Wall);
                }

                // one global terrain kind on open ground, none on walls
                lemma_terrain_cells_transfer(final_model.model, after_terrain.model);
                lemma_terrain_cells_transfer(after_walls.model, m0.model);
                if total_weight(tk_tbl) == 0 {
                    assert(after_terrain == after_walls);
                    assert(after_walls.model.spec_terrain() == m0.model.spec_terrain());
                    assert forall|cx: int, cy: int|
                        #[trigger] final_model.model.spec_terrain_cell(cx, cy) is None by {
                        assert(final_model.model.spec_terrain_cell(cx, cy)
                            == after_terrain.model.spec_terrain_cell(cx, cy));
                        assert(after_walls.model.spec_terrain_cell(cx, cy)
                            == m0.model.spec_terrain_cell(cx, cy));
                    }
                } else {
                    assert(tk_tbl == self.terrain_params.kinds@);
                    crate::weighted_list::lemma_total_weight_nonneg(tk_tbl);
                    assert(exists|tk: usize|
                        tk < tk_tbl.len() && #[trigger] crate::passes::terrain_filled(
                            after_walls,
                            after_terrain,
                            tk,
                        ));
                    let tk = choose|tk: usize|
                        tk < tk_tbl.len() && #[trigger] crate::passes::terrain_filled(
                            after_walls,
                            after_terrain,
                            tk,
                        );
                    lemma_wall_cells_transfer(after_walls.model, final_model.model);
                    assert forall|cx: int, cy: int|
                        0 <= cx < final_model.model.spec_cells_w() && 0 <= cy
                            < final_model.model.spec_cells_h()
                            implies #[trigger] final_model.model.spec_terrain_cell(cx, cy) == (
                    if !final_model.model.spec_is_wall_cell(cx, cy) {
                        Some(tk)
                    } else {
                        None::<usize>
                    }) by {
                        assert(final_model.model.spec_terrain_cell(cx, cy)
                            == after_terrain.model.spec_terrain_cell(cx, cy));
                        assert(after_terrain.model.spec_terrain_cell(cx, cy) == (
                        if !after_walls.model.spec_is_wall_cell(cx, cy) {
                            Some(tk)
                        } else {
                            after_walls.model.spec_terrain_cell(cx, cy)
                        }));
                        assert(after_walls.model.spec_terrain_cell(cx, cy)
                            == m0.model.spec_terrain_cell(cx, cy));
                        assert(after_walls.model.spec_wall_cell(cx, cy)
                            == final_model.model.spec_wall_cell(cx, cy));
                    }
                    assert(spec_terrain_global(final_model.model, tk));
                }

                assert(spec_generated(invert, wk, tk_tbl, final_model, maze, aw_mapped,
                    aw_base, result, width as int, height as int, transitions@));
            }
            assert(spec_output_generated(
                self.spec_room_params().invert,
                self.spec_wall_kinds(),
                self.spec_terrain_kinds(),
                result,
                width as int,
                height as int,
                transitions@,
            ));
        }
        Ok(result)
    }
}

/// Everything a block carve leaves untouched: the layer placements, the
/// terrain memo, the dimensions and the random-independent structure.  Only
/// the wall cells, the random state and (for corridor cells) the overfill
/// memo may change.
pub open spec fn carve_frame(pre: GenModel, cur: GenModel) -> bool {
    &&& cur.model.spec_layers() == pre.model.spec_layers()
    &&& cur.model.spec_terrain() == pre.model.spec_terrain()
    &&& cur.model.spec_width() == pre.model.spec_width()
    &&& cur.model.spec_height() == pre.model.spec_height()
    &&& cur.model.spec_cells_w() == pre.model.spec_cells_w()
    &&& cur.model.spec_cells_h() == pre.model.spec_cells_h()
    &&& cur.total_grid_size == pre.total_grid_size
    &&& cur.spec_width() == pre.spec_width()
    &&& cur.spec_height() == pre.spec_height()
}

/// The tile stack that the recorded placements produce at cell `(x, y)`:
/// the tiles placed exactly there, oldest first.
pub open spec fn stack_of(placements: Seq<(Point, Tile)>, x: int, y: int) -> Seq<Tile>
    decreases placements.len(),
{
    if placements.len() == 0 {
        Seq::empty()
    } else {
        let rest = stack_of(placements.drop_last(), x, y);
        if placements.last().0.x == x && placements.last().0.y == y {
            rest.push(placements.last().1)
        } else {
            rest
        }
    }
}

/// One more placement extends exactly its own cell's stack.
pub proof fn lemma_stack_of_take_succ(placements: Seq<(Point, Tile)>, j: int, x: int, y: int)
    requires
        0 <= j < placements.len(),
    ensures
        stack_of(placements.take(j + 1), x, y) == (if placements[j].0.x == x && placements[j].0.y
            == y {
            stack_of(placements.take(j), x, y).push(placements[j].1)
        } else {
            stack_of(placements.take(j), x, y)
        }),
{
    assert(placements.take(j + 1).drop_last() =~= placements.take(j));
    assert(placements.take(j + 1).last() == placements[j]);
}

/// Whether block cell `(i, j)` of an `nx` by `ny` block is carved: the
/// interior always; the border strip along edge `e` (1 north, 2 east,
/// 3 south, 4 west) only when edge `e` is not rough; a corner only when both
/// adjacent edges are not rough.
pub open spec fn spec_carved(
    i: int,
    j: int,
    nx: int,
    ny: int,
    neighbors: Seq<Option<TileKind>>,
    choice: Option<u32>,
) -> bool {
    let r1 = spec_is_rough_edge(neighbors, 1, choice);
    let r2 = spec_is_rough_edge(neighbors, 2, choice);
    let r3 = spec_is_rough_edge(neighbors, 3, choice);
    let r4 = spec_is_rough_edge(neighbors, 4, choice);
    ||| (1 <= i <= nx - 2 && 1 <= j <= ny - 2)
    ||| (1 <= i <= nx - 2 && j == 0 && !r1)
    ||| (i == nx - 1 && 1 <= j <= ny - 2 && !r2)
    ||| (1 <= i <= nx - 2 && j == ny - 1 && !r3)
    ||| (i == 0 && 1 <= j <= ny - 2 && !r4)
    ||| (i == nx - 1 && j == 0 && !r1 && !r2)
    ||| (i == nx - 1 && j == ny - 1 && !r2 && !r3)
    ||| (i == 0 && j == ny - 1 && !r3 && !r4)
    ||| (i == 0 && j == 0 && !r4 && !r1)
}

/// The block cells carved when the border strips have been carved up to
/// (exclusive) column `p1` (north), row `p2` (east), column `p3` (south) and
/// row `p4` (west), the corners up to `k1`..`k4`, and the interior through
/// the rows before `jp` plus row `jp` up to column `ip`.
pub open spec fn spec_carved_progress(
    i: int,
    j: int,
    nx: int,
    ny: int,
    neighbors: Seq<Option<TileKind>>,
    choice: Option<u32>,
    p1: int,
    p2: int,
    p3: int,
    p4: int,
    k1: bool,
    k2: bool,
    k3: bool,
    k4: bool,
    jp: int,
    ip: int,
) -> bool {
    let r1 = spec_is_rough_edge(neighbors, 1, choice);
    let r2 = spec_is_rough_edge(neighbors, 2, choice);
    let r3 = spec_is_rough_edge(neighbors, 3, choice);
    let r4 = spec_is_rough_edge(neighbors, 4, choice);
    ||| (j == 0 && 1 <= i < p1 && !r1)
    ||| (i == nx - 1 && 1 <= j < p2 && !r2)
    ||| (j == ny - 1 && 1 <= i < p3 && !r3)
    ||| (i == 0 && 1 <= j < p4 && !r4)
    ||| (k1 && i == nx - 1 && j == 0 && !r1 && !r2)
    ||| (k2 && i == nx - 1 && j == ny - 1 && !r2 && !r3)
    ||| (k3 && i == 0 && j == ny - 1 && !r3 && !r4)
    ||| (k4 && i == 0 && j == 0 && !r4 && !r1)
    ||| (1 <= j < jp && 1 <= i <= nx - 2)
    ||| (j == jp && 1 <= i < ip && 1 <= jp <= ny - 2)
}

/// Mid-carve state of one block: every cell the progress covers holds
/// `(elev, wall_kind)`, every other cell of the block is as it was.
pub open spec fn block_progress(
    mid: GenModel,
    cur: GenModel,
    bx: int,
    by: int,
    nx: int,
    ny: int,
    neighbors: Seq<Option<TileKind>>,
    choice: Option<u32>,
    elev: u8,
    wall_kind: Option<usize>,
    p1: int,
    p2: int,
    p3: int,
    p4: int,
    k1: bool,
    k2: bool,
    k3: bool,
    k4: bool,
    jp: int,
    ip: int,
) -> bool {
    forall|a: int, b: int|
        0 <= a < nx && 0 <= b < ny && bx + a < cur.model.spec_cells_w() && by + b
            < cur.model.spec_cells_h() ==> #[trigger] cur.model.spec_wall_cell(bx + a, by + b)
            == (if spec_carved_progress(a, b, nx, ny, neighbors, choice, p1, p2, p3, p4, k1, k2,
            k3, k4, jp, ip) {
            (elev, wall_kind)
        } else {
            mid.model.spec_wall_cell(bx + a, by + b)
        })
}

/// What one block carve does to the wall cells, for the edge choice it
/// rolled: within the block (cells `(bx..bx+nx, by..by+ny)`, the block base
/// at `offset`, `nx` and `ny` its size in cells) everything `spec_carved`
/// selects holds `(elev, wall_kind)` and everything else is untouched;
/// outside the block nothing changed.
pub open spec fn spec_carve_wall_post(
    pre: GenModel,
    post: GenModel,
    neighbors: Seq<Option<TileKind>>,
    offset: Point,
    max: Point,
    elev: u8,
    wall_kind: Option<usize>,
    choice: Option<u32>,
) -> bool {
    let g = GRID_DIM as int;
    let bx = offset.x as int / g;
    let by = offset.y as int / g;
    let nx = max.x as int / g;
    let ny = max.y as int / g;
    &&& forall|i: int, j: int|
        0 <= i < nx && 0 <= j < ny && bx + i < post.model.spec_cells_w() && by + j
            < post.model.spec_cells_h() ==> #[trigger] post.model.spec_wall_cell(bx + i, by + j)
            == (if spec_carved(i, j, nx, ny, neighbors, choice) {
            (elev, wall_kind)
        } else {
            pre.model.spec_wall_cell(bx + i, by + j)
        })
    &&& forall|a: int, b: int|
        !(bx <= a < bx + nx && by <= b < by + ny) ==> #[trigger] post.model.spec_wall_cell(a, b)
            == pre.model.spec_wall_cell(a, b)
}

/// What carving leaves untouched within one block carve, beside the wall
/// cells outside the block.
pub open spec fn carve_block_frame(
    mid: GenModel,
    cur: GenModel,
    bx: int,
    by: int,
    nx: int,
    ny: int,
) -> bool {
    &&& cur.wf()
    &&& carve_frame(mid, cur)
    &&& cur.region_overfill_edges@ == mid.region_overfill_edges@
    &&& cur.rand == mid.rand
    &&& forall|a: int, b: int|
        !(bx <= a < bx + nx && by <= b < by + ny) ==> #[trigger] cur.model.spec_wall_cell(a, b)
            == mid.model.spec_wall_cell(a, b)
}

/// An aligned base plus a whole number of grid steps lands `i` cells past
/// the base's cell.
pub proof fn lemma_aligned_cell(off: int, i: int, g: int)
    requires
        g > 0,
        off >= 0,
        off % g == 0,
        0 <= i,
    ensures
        (off + i * g) / g == off / g + i,
        0 <= off + i * g,
{
    assert((off + i * g) / g == off / g + i && 0 <= off + i * g) by (nonlinear_arith)
        requires
            g > 0,
            off >= 0,
            off % g == 0,
            0 <= i,
    ;
}

/// A multiple of a grid-aligned length is grid-aligned.
pub proof fn lemma_mul_keeps_mod_zero(a: int, b: int, g: int)
    requires
        g > 0,
        0 <= a,
        0 <= b,
        b % g == 0,
    ensures
        (a * b) % g == 0,
{
    crate::gen_model::lemma_tile_coords_round_trip(g, b);
    assert(a * b == (a * (b / g)) * g) by (nonlinear_arith)
        requires
            b == (b / g) * g,
    ;
    assert(((a * (b / g)) * g) % g == 0) by (nonlinear_arith)
        requires
            g > 0,
            0 <= a * (b / g),
    ;
    assert(0 <= a * (b / g)) by (nonlinear_arith)
        requires
            0 <= a,
            0 <= b,
            g > 0,
            b == (b / g) * g,
    ;
}

/// Sets the wall cell `(ci, cj)` of the block based at `offset` to
/// `(elev, wall_kind)`, touching nothing else; a cell off the grid is
/// silently dropped.
fn set_block_cell(
    model: &mut GenModel,
    offset: Point,
    max: Point,
    ci: i32,
    cj: i32,
    elev: u8,
    wall_kind: Option<usize>,
)
    requires
        old(model).wf(),
        0 <= offset.x,
        0 <= offset.y,
        offset.x as int % GRID_DIM as int == 0,
        offset.y as int % GRID_DIM as int == 0,
        0 <= ci,
        0 <= cj,
        offset.x as int + (ci as int + 1) * GRID_DIM as int <= i32::MAX as int,
        offset.y as int + (cj as int + 1) * GRID_DIM as int <= i32::MAX as int,
    ensures
        final(model).wf(),
        carve_frame(*old(model), *final(model)),
        final(model).region_overfill_edges@ == old(model).region_overfill_edges@,
        final(model).rand == old(model).rand,
        ({
            let g = GRID_DIM as int;
            let cx = offset.x as int / g + ci as int;
            let cy = offset.y as int / g + cj as int;
            &&& (cx < old(model).model.spec_cells_w() && cy < old(model).model.spec_cells_h()
                ==> final(model).model.spec_wall_cell(cx, cy) == (elev, wall_kind))
            &&& forall|a: int, b: int|
                !(a == cx && b == cy) ==> #[trigger] final(model).model.spec_wall_cell(a, b)
                    == old(model).model.spec_wall_cell(a, b)
        }),
{
    proof {
        lemma_aligned_cell(offset.x as int, ci as int, GRID_DIM as int);
        lemma_aligned_cell(offset.y as int, cj as int, GRID_DIM as int);
        assert(ci as int * GRID_DIM as int <= i32::MAX as int && cj as int * GRID_DIM as int
            <= i32::MAX as int && (ci as int + 1) * GRID_DIM as int == ci as int
            * GRID_DIM as int + GRID_DIM as int && (cj as int + 1) * GRID_DIM as int == cj as int
            * GRID_DIM as int + GRID_DIM as int) by (nonlinear_arith)
            requires
                0 <= ci,
                0 <= cj,
                0 <= offset.x,
                0 <= offset.y,
                offset.x as int + (ci as int + 1) * GRID_DIM as int <= i32::MAX as int,
                offset.y as int + (cj as int + 1) * GRID_DIM as int <= i32::MAX as int,
                GRID_DIM == 2,
        ;
    }
    model.model.set_wall(offset.x + ci * GRID_DIM, offset.y + cj * GRID_DIM, elev, wall_kind);
}

/// Carves the four corners of one block, each only when both adjacent
/// borders were carved, completing the border phase of the block carve.
#[verifier::rlimit(100)]
fn carve_block_corners(
    model: &mut GenModel,
    offset: Point,
    max: Point,
    rough1: bool,
    rough2: bool,
    rough3: bool,
    rough4: bool,
    edge_choice: Option<u32>,
    elev: u8,
    wall_kind: Option<usize>,
    Ghost(mid): Ghost<GenModel>,
    Ghost(nb): Ghost<Seq<Option<TileKind>>>,
)
    requires
        old(model).wf(),
        0 <= offset.x,
        0 <= offset.y,
        offset.x as int % GRID_DIM as int == 0,
        offset.y as int % GRID_DIM as int == 0,
        max.x as int % GRID_DIM as int == 0,
        max.y as int % GRID_DIM as int == 0,
        GRID_DIM <= max.x,
        GRID_DIM <= max.y,
        offset.x as int + max.x as int <= i32::MAX as int,
        offset.y as int + max.y as int <= i32::MAX as int,
        rough1 == spec_is_rough_edge(nb, 1, edge_choice),
        rough2 == spec_is_rough_edge(nb, 2, edge_choice),
        rough3 == spec_is_rough_edge(nb, 3, edge_choice),
        rough4 == spec_is_rough_edge(nb, 4, edge_choice),
        carve_block_frame(mid, *old(model), offset.x as int / GRID_DIM as int,
            offset.y as int / GRID_DIM as int, max.x as int / GRID_DIM as int,
            max.y as int / GRID_DIM as int),
        block_progress(mid, *old(model), offset.x as int / GRID_DIM as int,
            offset.y as int / GRID_DIM as int, max.x as int / GRID_DIM as int,
            max.y as int / GRID_DIM as int, nb, edge_choice, elev, wall_kind,
            max.x as int / GRID_DIM as int - 1, max.y as int / GRID_DIM as int - 1,
            max.x as int / GRID_DIM as int - 1, max.y as int / GRID_DIM as int - 1, false, false,
            false, false, 1, 1),
    ensures
        final(model).wf(),
        carve_block_frame(mid, *final(model), offset.x as int / GRID_DIM as int,
            offset.y as int / GRID_DIM as int, max.x as int / GRID_DIM as int,
            max.y as int / GRID_DIM as int),
        block_progress(mid, *final(model), offset.x as int / GRID_DIM as int,
            offset.y as int / GRID_DIM as int, max.x as int / GRID_DIM as int,
            max.y as int / GRID_DIM as int, nb, edge_choice, elev, wall_kind,
            max.x as int / GRID_DIM as int - 1, max.y as int / GRID_DIM as int - 1,
            max.x as int / GRID_DIM as int - 1, max.y as int / GRID_DIM as int - 1, true, true,
            true, true, 1, 1),
{
    let g: i32 = GRID_DIM;
    let nx: i32 = max.x / g;
    let ny: i32 = max.y / g;
    proof {
        crate::gen_model::lemma_tile_coords_round_trip(g as int, max.x as int);
        crate::gen_model::lemma_tile_coords_round_trip(g as int, max.y as int);
        assert(1 <= nx && 1 <= ny) by (nonlinear_arith)
            requires
                nx == max.x as int / 2,
                ny == max.y as int / 2,
                2 <= max.x,
                2 <= max.y,
        ;
    }
    let ghost bx = offset.x as int / GRID_DIM as int;
    let ghost by = offset.y as int / GRID_DIM as int;
    if !rough1 && !rough2 {
        set_block_cell(model, offset, max, nx - 1, 0, elev, wall_kind);
    }
    proof {
        assert(block_progress(mid, *model, bx, by, nx as int, ny as int, nb, edge_choice, elev,
            wall_kind, nx as int - 1, ny as int - 1, nx as int - 1, ny as int - 1, true, false,
            false, false, 1, 1));
    }
    if !rough2 && !rough3 {
        set_block_cell(model, offset, max, nx - 1, ny - 1, elev, wall_kind);
    }
    proof {
        assert(block_progress(mid, *model, bx, by, nx as int, ny as int, nb, edge_choice, elev,
            wall_kind, nx as int - 1, ny as int - 1, nx as int - 1, ny as int - 1, true, true,
            false, false, 1, 1));
    }
    if !rough3 && !rough4 {
        set_block_cell(model, offset, max, 0, ny - 1, elev, wall_kind);
    }
    proof {
        assert(block_progress(mid, *model, bx, by, nx as int, ny as int, nb, edge_choice, elev,
            wall_kind, nx as int - 1, ny as int - 1, nx as int - 1, ny as int - 1, true, true,
            true, false, 1, 1));
    }
    if !rough4 && !rough1 {
        set_block_cell(model, offset, max, 0, 0, elev, wall_kind);
    }
    proof {
        assert(block_progress(mid, *model, bx, by, nx as int, ny as int, nb, edge_choice, elev,
            wall_kind, nx as int - 1, ny as int - 1, nx as int - 1, ny as int - 1, true, true,
            true, true, 1, 1));
    }
}

/// Completed block progress is exactly the carved set: converts the final
/// carve state of one block into the block carve's postcondition.
#[verifier::rlimit(100)]
pub proof fn lemma_carve_post_from_progress(
    pre: GenModel,
    mid: GenModel,
    cur: GenModel,
    nb: Seq<Option<TileKind>>,
    offset: Point,
    max: Point,
    elev: u8,
    wall_kind: Option<usize>,
    choice: Option<u32>,
)
    requires
        mid.model == pre.model,
        GRID_DIM <= max.x,
        GRID_DIM <= max.y,
        max.x as int % GRID_DIM as int == 0,
        max.y as int % GRID_DIM as int == 0,
        carve_block_frame(mid, cur, offset.x as int / GRID_DIM as int,
            offset.y as int / GRID_DIM as int, max.x as int / GRID_DIM as int,
            max.y as int / GRID_DIM as int),
        block_progress(mid, cur, offset.x as int / GRID_DIM as int,
            offset.y as int / GRID_DIM as int, max.x as int / GRID_DIM as int,
            max.y as int / GRID_DIM as int, nb, choice, elev, wall_kind,
            max.x as int / GRID_DIM as int - 1, max.y as int / GRID_DIM as int - 1,
            max.x as int / GRID_DIM as int - 1, max.y as int / GRID_DIM as int - 1, true, true,
            true, true, max.y as int / GRID_DIM as int - 1, 1),
    ensures
        spec_carve_wall_post(pre, cur, nb, offset, max, elev, wall_kind, choice),
{
    let g = GRID_DIM as int;
    let bx = offset.x as int / g;
    let by = offset.y as int / g;
    let nx = max.x as int / g;
    let ny = max.y as int / g;
    assert forall|i: int, j: int|
        0 <= i < nx && 0 <= j < ny && bx + i < cur.model.spec_cells_w() && by + j
            < cur.model.spec_cells_h() implies #[trigger] cur.model.spec_wall_cell(bx + i, by + j)
        == (if spec_carved(i, j, nx, ny, nb, choice) {
        (elev, wall_kind)
    } else {
        pre.model.spec_wall_cell(bx + i, by + j)
    }) by {
        assert(spec_carved(i, j, nx, ny, nb, choice) == spec_carved_progress(i, j, nx, ny, nb,
            choice, nx - 1, ny - 1, nx - 1, ny - 1, true, true, true, true, ny - 1, 1));
        assert(cur.model.spec_wall_cell(bx + i, by + j) == (
        if spec_carved_progress(i, j, nx, ny, nb, choice, nx - 1, ny - 1, nx - 1, ny - 1, true,
            true, true, true, ny - 1, 1) {
            (elev, wall_kind)
        } else {
            mid.model.spec_wall_cell(bx + i, by + j)
        }));
    }
}

/// Row-major visit order over the region grid: whether region cell
/// `(rcx, rcy)` of a `w`-wide grid was handled before position `(rx, ry)`.
pub open spec fn spec_visited(rcx: int, rcy: int, w: int, rx: int, ry: int) -> bool {
    ||| (0 <= rcy && rcy < ry && 0 <= rcx && rcx < w)
    ||| (rcy == ry && 0 <= rcx && rcx < rx)
}

/// Cell `(cx, cy)` lies in the interior of its block: at least one cell away
/// from every block border, for blocks `tgx` by `tgy` cells.
pub open spec fn spec_block_interior(cx: int, cy: int, tgx: int, tgy: int) -> bool {
    &&& 1 <= cx % tgx <= tgx - 2
    &&& 1 <= cy % tgy <= tgy - 2
}

/// What the wall pass leaves in the wall grid, for the per-region memo
/// `mapped` and the global draw `base` it made.  Every cell whose block has
/// no maze region (wall cells of the maze, and ground beyond it) holds the
/// base fill: open in invert mode, the one drawn kind at elevation 1
/// otherwise.  Every interior cell of a region's block holds the region
/// fill: the region's memoized kind at elevation 1 in invert mode, open
/// ground otherwise — so all interior tiles of one region share one kind.
/// (Block borders follow the rough-edge policy; `carve_wall`'s contract
/// states them per block.)
pub open spec fn spec_add_walls_post(
    invert: bool,
    wall_kinds: Seq<(crate::resources::WallKind, u32)>,
    post: GenModel,
    maze: Maze,
    mapped: Seq<(usize, Option<usize>)>,
    base: Option<usize>,
    tgx: int,
    tgy: int,
) -> bool {
    let base_cell = if invert {
        (0u8, None::<usize>)
    } else {
        (1u8, base)
    };
    &&& tgx == post.total_grid_size.x as int / GRID_DIM as int
    &&& tgy == post.total_grid_size.y as int / GRID_DIM as int
    &&& (invert ==> base is None)
    &&& (!invert ==> ((base is None <==> total_weight(wall_kinds) == 0) && (base matches Some(i)
        ==> i < wall_kinds.len() && wall_kinds[i as int].1 > 0)))
    &&& (forall|r: int|
        match #[trigger] spec_wall_kind_memo(mapped, r) {
            Some(k) => invert && (k is None <==> total_weight(wall_kinds) == 0) && (
            k matches Some(idx) ==> idx < wall_kinds.len() && wall_kinds[idx as int].1 > 0),
            None => true,
        })
    &&& (forall|cx: int, cy: int|
        #![trigger post.model.spec_wall_cell(cx, cy)]
        #![trigger spec_block_interior(cx, cy, tgx, tgy)]
        0 <= cx < post.model.spec_cells_w() && 0 <= cy < post.model.spec_cells_h() ==> (
        match maze.spec_kind_at(cx / tgx, cy / tgy).spec_region() {
            None => post.model.spec_wall_cell(cx, cy) == base_cell,
            Some(region) => spec_block_interior(cx, cy, tgx, tgy) ==> (if invert {
                spec_wall_kind_memo(mapped, region as int) is Some
                    && post.model.spec_wall_cell(cx, cy) == (
                    1u8,
                    spec_wall_kind_memo(mapped, region as int).unwrap(),
                )
            } else {
                post.model.spec_wall_cell(cx, cy) == (0u8, None::<usize>)
            }),
        }))
}

/// A cell belongs to block column `r` exactly when it lies in that block's
/// cell range, and its block-local coordinate is its remainder.
pub proof fn lemma_cell_block(a: int, r: int, tg: int)
    requires
        1 <= tg,
        0 <= a,
    ensures
        (a / tg == r) <==> (r * tg <= a < r * tg + tg),
        (r + 1) * tg == r * tg + tg,
        a % tg == a - (a / tg) * tg,
        0 <= a / tg,
{
    assert(((a / tg == r) <==> (r * tg <= a < r * tg + tg)) && (r + 1) * tg == r * tg + tg && a
        % tg == a - (a / tg) * tg && 0 <= a / tg) by (nonlinear_arith)
        requires
            1 <= tg,
            0 <= a,
    ;
}

/// The block of region cell `rx` starts at cell column `rx * (total / g)`.
pub proof fn lemma_block_base(rx: int, total: int, g: int)
    requires
        g > 0,
        0 <= rx,
        0 <= total,
        total % g == 0,
    ensures
        (rx * total) / g == rx * (total / g),
        0 <= rx * (total / g),
        0 <= rx * total,
{
    crate::gen_model::lemma_tile_coords_round_trip(g, total);
    assert(rx * total == (rx * (total / g)) * g && 0 <= rx * (total / g) && 0 <= rx * total)
        by (nonlinear_arith)
        requires
            total == (total / g) * g,
            0 <= rx,
            0 <= total,
            g > 0,
    ;
    lemma_aligned_cell(0, rx * (total / g), g);
}

/// One region-cell step of the wall pass preserves the pass's cell
/// characterization: the base fill outside visited region blocks, the
/// memoized region fill on visited block interiors.
#[verifier::rlimit(100)]
pub proof fn lemma_add_walls_step(
    gen: AreaGenerator,
    entry: GenModel,
    pre: GenModel,
    post: GenModel,
    maze: Maze,
    pre_mapped: Seq<(usize, Option<usize>)>,
    mapped: Seq<(usize, Option<usize>)>,
    nb: Seq<Option<TileKind>>,
    offset: Point,
    max: Point,
    elev: u8,
    wall_kind: Option<usize>,
    base_cell: (u8, Option<usize>),
    invert: bool,
    region: usize,
    rx: int,
    ry: int,
    cw: int,
    ch: int,
    tgx: int,
    tgy: int,
    mw: int,
)
    requires
        entry.model == pre.model,
        tgx == pre.total_grid_size.x as int / GRID_DIM as int,
        tgy == pre.total_grid_size.y as int / GRID_DIM as int,
        mw == maze.spec_width(),
        pre.wf(),
        post.wf(),
        maze.wf(),
        cw == pre.model.spec_cells_w(),
        ch == pre.model.spec_cells_h(),
        post.model.spec_cells_w() == cw,
        post.model.spec_cells_h() == ch,
        post.total_grid_size == pre.total_grid_size,
        0 <= rx < maze.spec_width(),
        0 <= ry < maze.spec_height(),
        maze.spec_kind_at(rx, ry).spec_region() == Some(region),
        offset.x as int == rx * pre.total_grid_size.x as int,
        offset.y as int == ry * pre.total_grid_size.y as int,
        max.x == pre.total_grid_size.x,
        max.y == pre.total_grid_size.y,
        exists|choice: Option<u32>|
            #[trigger] spec_carve_wall_post(pre, post, nb, offset, max, elev, wall_kind, choice),
        invert ==> elev == 1 && spec_wall_kind_memo(mapped, region as int) == Some(wall_kind) && (
        mapped == pre_mapped || (spec_wall_kind_memo(pre_mapped, region as int) is None && mapped
            == pre_mapped.push((region, wall_kind)))),
        !invert ==> elev == 0 && wall_kind is None && mapped == pre_mapped,
        invert ==> ((wall_kind is None <==> total_weight(gen.spec_wall_kinds()) == 0) && (
        wall_kind matches Some(idx) ==> idx < gen.spec_wall_kinds().len()
            && gen.spec_wall_kinds()[idx as int].1 > 0)),
        forall|r: int|
            match #[trigger] spec_wall_kind_memo(pre_mapped, r) {
                Some(k) => invert && (k is None <==> total_weight(gen.spec_wall_kinds()) == 0)
                    && (k matches Some(idx) ==> idx < gen.spec_wall_kinds().len()
                    && gen.spec_wall_kinds()[idx as int].1 > 0),
                None => true,
            },
        forall|a: int, b: int|
            #![trigger entry.model.spec_wall_cell(a, b)]
            0 <= a < cw && 0 <= b < ch && (maze.spec_kind_at(
                a / tgx,
                b / tgy,
            ).spec_region() is None || !spec_visited(a / tgx, b / tgy, mw, rx, ry))
                ==> entry.model.spec_wall_cell(a, b) == base_cell,
        forall|a: int, b: int|
            #![trigger spec_block_interior(a, b, tgx, tgy)]
            #![trigger entry.model.spec_wall_cell(a, b)]
            0 <= a < cw && 0 <= b < ch && spec_visited(a / tgx, b / tgy, mw, rx, ry)
                && spec_block_interior(a, b, tgx, tgy) ==> (match maze.spec_kind_at(
                a / tgx,
                b / tgy,
            ).spec_region() {
                Some(r2) => if invert {
                    spec_wall_kind_memo(pre_mapped, r2 as int) is Some
                        && entry.model.spec_wall_cell(a, b) == (
                        1u8,
                        spec_wall_kind_memo(pre_mapped, r2 as int).unwrap(),
                    )
                } else {
                    entry.model.spec_wall_cell(a, b) == (0u8, None::<usize>)
                },
                None => true,
            }),
    ensures
        forall|r: int|
            match #[trigger] spec_wall_kind_memo(mapped, r) {
                Some(k) => invert && (k is None <==> total_weight(gen.spec_wall_kinds()) == 0)
                    && (k matches Some(idx) ==> idx < gen.spec_wall_kinds().len()
                    && gen.spec_wall_kinds()[idx as int].1 > 0),
                None => true,
            },
        forall|a: int, b: int|
            #![trigger post.model.spec_wall_cell(a, b)]
            0 <= a < cw && 0 <= b < ch && (maze.spec_kind_at(
                a / tgx,
                b / tgy,
            ).spec_region() is None || !spec_visited(a / tgx, b / tgy, mw, rx + 1, ry))
                ==> post.model.spec_wall_cell(a, b) == base_cell,
        forall|a: int, b: int|
            #![trigger spec_block_interior(a, b, tgx, tgy)]
            #![trigger post.model.spec_wall_cell(a, b)]
            0 <= a < cw && 0 <= b < ch && spec_visited(a / tgx, b / tgy, mw, rx + 1, ry)
                && spec_block_interior(a, b, tgx, tgy) ==> (match maze.spec_kind_at(
                a / tgx,
                b / tgy,
            ).spec_region() {
                Some(r2) => if invert {
                    spec_wall_kind_memo(mapped, r2 as int) is Some
                        && post.model.spec_wall_cell(a, b) == (
                        1u8,
                        spec_wall_kind_memo(mapped, r2 as int).unwrap(),
                    )
                } else {
                    post.model.spec_wall_cell(a, b) == (0u8, None::<usize>)
                },
                None => true,
            }),
{
    let g = GRID_DIM as int;
    let total_x = pre.total_grid_size.x as int;
    let total_y = pre.total_grid_size.y as int;
    assert(1 <= tgx && 1 <= tgy) by (nonlinear_arith)
        requires
            tgx == total_x / 2,
            tgy == total_y / 2,
            0 < total_x,
            0 < total_y,
            total_x % 2 == 0,
            total_y % 2 == 0,
            GRID_DIM == 2,
    ;
    lemma_block_base(rx, total_x, g);
    lemma_block_base(ry, total_y, g);
    let bx = offset.x as int / g;
    let by = offset.y as int / g;
    let nx = max.x as int / g;
    let ny = max.y as int / g;
    assert(bx == rx * tgx && by == ry * tgy && nx == tgx && ny == tgy);
    let choice = choose|choice: Option<u32>|
        #[trigger] spec_carve_wall_post(pre, post, nb, offset, max, elev, wall_kind, choice);

    // the memo keeps every earlier region's kind and constrains the new one
    assert forall|r: int|
        match #[trigger] spec_wall_kind_memo(mapped, r) {
            Some(k) => invert && (k is None <==> total_weight(gen.spec_wall_kinds()) == 0) && (
            k matches Some(idx) ==> idx < gen.spec_wall_kinds().len()
                && gen.spec_wall_kinds()[idx as int].1 > 0),
            None => true,
        } by {
        if mapped != pre_mapped {
            lemma_wall_kind_push(pre_mapped, r, (region, wall_kind));
        }
    }

    // cells outside visited blocks keep the base fill
    assert forall|a: int, b: int|
        #![trigger post.model.spec_wall_cell(a, b)]
        0 <= a < cw && 0 <= b < ch && (maze.spec_kind_at(a / tgx, b / tgy).spec_region() is None
            || !spec_visited(a / tgx, b / tgy, mw, rx + 1, ry)) implies
        post.model.spec_wall_cell(a, b) == base_cell by {
        lemma_cell_block(a, rx, tgx);
        lemma_cell_block(b, ry, tgy);
        if a / tgx == rx && b / tgy == ry {
            assert(maze.spec_kind_at(a / tgx, b / tgy).spec_region() == Some(region));
            assert(spec_visited(a / tgx, b / tgy, mw, rx + 1, ry));
            assert(false);
        } else {
            assert(!(bx <= a < bx + nx && by <= b < by + ny));
            assert(post.model.spec_wall_cell(a, b) == entry.model.spec_wall_cell(a, b));
            assert(!spec_visited(a / tgx, b / tgy, mw, rx + 1, ry)
                ==> !spec_visited(a / tgx, b / tgy, mw, rx, ry));
        }
    }

    // visited block interiors carry their region's fill
    assert forall|a: int, b: int|
        #![trigger spec_block_interior(a, b, tgx, tgy)]
            #![trigger post.model.spec_wall_cell(a, b)]
        0 <= a < cw && 0 <= b < ch && spec_visited(a / tgx, b / tgy, mw, rx + 1, ry) && (
        maze.spec_kind_at(a / tgx, b / tgy).spec_region() is Some) && spec_block_interior(a, b,
            tgx, tgy) implies (
    match maze.spec_kind_at(a / tgx, b / tgy).spec_region() {
        Some(r2) => if invert {
            spec_wall_kind_memo(mapped, r2 as int) is Some && post.model.spec_wall_cell(a, b) == (
                                1u8,
                                spec_wall_kind_memo(mapped, r2 as int).unwrap(),
                            )
        } else {
            post.model.spec_wall_cell(a, b) == (0u8, None::<usize>)
        },
        None => true,
    }) by {
        lemma_cell_block(a, rx, tgx);
        lemma_cell_block(b, ry, tgy);
        let r2 = maze.spec_kind_at(a / tgx, b / tgy).spec_region().unwrap();
        if a / tgx == rx && b / tgy == ry {
            // the block just carved: its interior holds (elev, wall_kind)
            assert(r2 == region);
            let i = a - bx;
            let j = b - by;
            assert(0 <= i < nx && 0 <= j < ny);
            assert(a % tgx == i && b % tgy == j);
            assert(spec_carved(i, j, nx, ny, nb, choice));
            assert(post.model.spec_wall_cell(bx + i, by + j) == (elev, wall_kind));
            assert(post.model.spec_wall_cell(a, b) == (elev, wall_kind));
            if invert {
                assert(spec_wall_kind_memo(mapped, region as int) == Some(wall_kind));
                assert(post.model.spec_wall_cell(a, b) == (1u8, wall_kind));
            }
        } else {
            // an earlier block: untouched by this carve, its memo entry kept
            assert(!(bx <= a < bx + nx && by <= b < by + ny));
            assert(post.model.spec_wall_cell(a, b) == pre.model.spec_wall_cell(a, b));
            assert(spec_visited(a / tgx, b / tgy, mw, rx, ry));
            if invert {
                if mapped != pre_mapped {
                    lemma_wall_kind_push(pre_mapped, r2 as int, (region, wall_kind));
                }
                assert(spec_wall_kind_memo(mapped, r2 as int) == spec_wall_kind_memo(
                    pre_mapped,
                    r2 as int,
                ));
            }
        }
    }
}

/// Every in-grid cell carries terrain kind `tk` on open ground and no
/// terrain on walls: the mark the terrain pass leaves.
pub open spec fn spec_terrain_global(m: crate::tiles_model::TilesModel, tk: usize) -> bool {
    forall|cx: int, cy: int|
        0 <= cx < m.spec_cells_w() && 0 <= cy < m.spec_cells_h()
            ==> #[trigger] m.spec_terrain_cell(cx, cy) == (if !m.spec_is_wall_cell(cx, cy) {
            Some(tk)
        } else {
            None::<usize>
        })
}

/// Some recorded anchor point has exactly these region coordinates.
pub open spec fn spec_anchor_recorded_at(locs: Seq<Point>, rx: int, ry: int) -> bool {
    exists|l: int| 0 <= l < locs.len() && (#[trigger] locs[l]).x == rx && locs[l].y == ry
}

pub proof fn lemma_recorded_push(locs: Seq<Point>, rx: int, ry: int, q: Point)
    requires
        spec_anchor_recorded_at(locs, rx, ry),
    ensures
        spec_anchor_recorded_at(locs.push(q), rx, ry),
{
    let l = choose|l: int| 0 <= l < locs.len() && (#[trigger] locs[l]).x == rx && locs[l].y == ry;
    assert(locs.push(q)[l] == locs[l]);
}

/// The wall pass's cell map carries over to any model with the same wall
/// grid and mapping.
pub proof fn lemma_add_walls_post_frame(
    invert: bool,
    wall_kinds: Seq<(crate::resources::WallKind, u32)>,
    gm1: GenModel,
    gm2: GenModel,
    maze: Maze,
    mapped: Seq<(usize, Option<usize>)>,
    base: Option<usize>,
    tgx: int,
    tgy: int,
)
    requires
        spec_add_walls_post(invert, wall_kinds, gm1, maze, mapped, base, tgx, tgy),
        gm2.model.spec_walls() == gm1.model.spec_walls(),
        gm2.model.spec_cells_w() == gm1.model.spec_cells_w(),
        gm2.model.spec_cells_h() == gm1.model.spec_cells_h(),
        gm2.total_grid_size == gm1.total_grid_size,
    ensures
        spec_add_walls_post(invert, wall_kinds, gm2, maze, mapped, base, tgx, tgy),
{
    let base_cell = if invert {
        (0u8, None::<usize>)
    } else {
        (1u8, base)
    };
    assert forall|cx: int, cy: int|
        #![trigger gm2.model.spec_wall_cell(cx, cy)]
        #![trigger spec_block_interior(cx, cy, tgx, tgy)]
        0 <= cx < gm2.model.spec_cells_w() && 0 <= cy < gm2.model.spec_cells_h() implies (
    match maze.spec_kind_at(cx / tgx, cy / tgy).spec_region() {
        None => gm2.model.spec_wall_cell(cx, cy) == base_cell,
        Some(region) => spec_block_interior(cx, cy, tgx, tgy) ==> (if invert {
            spec_wall_kind_memo(mapped, region as int) is Some && gm2.model.spec_wall_cell(cx, cy)
                == (1u8, spec_wall_kind_memo(mapped, region as int).unwrap())
        } else {
            gm2.model.spec_wall_cell(cx, cy) == (0u8, None::<usize>)
        }),
    }) by {
        assert(gm2.model.spec_wall_cell(cx, cy) == gm1.model.spec_wall_cell(cx, cy));
    }
}

/// Two tile models with the same wall grid agree on every wall cell.
pub proof fn lemma_wall_cells_transfer(
    m1: crate::tiles_model::TilesModel,
    m2: crate::tiles_model::TilesModel,
)
    requires
        m1.spec_walls() == m2.spec_walls(),
        m1.spec_cells_w() == m2.spec_cells_w(),
        m1.spec_cells_h() == m2.spec_cells_h(),
    ensures
        forall|cx: int, cy: int| #[trigger] m1.spec_wall_cell(cx, cy) == m2.spec_wall_cell(cx, cy),
{
}

/// Two tile models with the same terrain grid agree on every terrain cell.
pub proof fn lemma_terrain_cells_transfer(
    m1: crate::tiles_model::TilesModel,
    m2: crate::tiles_model::TilesModel,
)
    requires
        m1.spec_terrain() == m2.spec_terrain(),
        m1.spec_cells_w() == m2.spec_cells_w(),
        m1.spec_cells_h() == m2.spec_cells_h(),
    ensures
        forall|cx: int, cy: int|
            #[trigger] m1.spec_terrain_cell(cx, cy) == m2.spec_terrain_cell(cx, cy),
{
}

/// There exist a generation model, maze, memo and base draw certifying the
/// output, as `spec_generated` states.
pub open spec fn spec_output_generated(
    invert: bool,
    wall_kinds: Seq<(crate::resources::WallKind, u32)>,
    terrain_kinds: Seq<(crate::resources::TerrainKind, u32)>,
    out: GeneratorOutput,
    width: int,
    height: int,
    transitions: Seq<TransitionBuilder>,
) -> bool {
    exists|gm: GenModel, mz: Maze, mapped: Seq<(usize, Option<usize>)>, base: Option<usize>|
        #[trigger] spec_generated(
            invert,
            wall_kinds,
            terrain_kinds,
            gm,
            mz,
            mapped,
            base,
            out,
            width,
            height,
            transitions,
        )
}

/// What one successful `generate` call certifies about its output: there are
/// a generation model, a maze, a wall-kind memo and a base draw such that
/// the maze covers the area's region grid and keeps every recorded
/// transition anchor open; the model's wall grid is exactly the wall pass's
/// cell map over that maze; its terrain is one global kind on open ground
/// (or absent when no kind could be drawn); and the returned layers are,
/// layer for layer and cell for cell, the clipped image of the model's
/// accumulated placements.
pub open spec fn spec_generated(
    invert: bool,
    wall_kinds: Seq<(crate::resources::WallKind, u32)>,
    terrain_kinds: Seq<(crate::resources::TerrainKind, u32)>,
    gm: GenModel,
    maze: Maze,
    mapped: Seq<(usize, Option<usize>)>,
    base: Option<usize>,
    out: GeneratorOutput,
    width: int,
    height: int,
    transitions: Seq<TransitionBuilder>,
) -> bool {
    &&& gm.wf()
    &&& gm.spec_width() == width
    &&& gm.spec_height() == height
    &&& maze.wf()
    &&& maze.spec_width() == width / gm.total_grid_size.x as int
    &&& maze.spec_height() == height / gm.total_grid_size.y as int
    &&& spec_add_walls_post(invert, wall_kinds, gm, maze, mapped, base,
        gm.total_grid_size.x as int / GRID_DIM as int,
        gm.total_grid_size.y as int / GRID_DIM as int)
    &&& (forall|i: int|
        0 <= i < transitions.len() && (#[trigger] transitions[i]).from.x >= 0
            && transitions[i].from.y >= 0 && (transitions[i].from.x as int
            / (gm.total_grid_size.x as int)) < maze.spec_width() && (transitions[i].from.y as int
            / (gm.total_grid_size.y as int)) < maze.spec_height() ==> maze.spec_kind_at(
            transitions[i].from.x as int / (gm.total_grid_size.x as int),
            transitions[i].from.y as int / (gm.total_grid_size.y as int),
        ) != TileKind::Wall)
    &&& (total_weight(terrain_kinds) == 0 ==> forall|cx: int, cy: int|
        #[trigger] gm.model.spec_terrain_cell(cx, cy) is None)
    &&& (total_weight(terrain_kinds) > 0 ==> exists|tk: usize|
        tk < terrain_kinds.len() && #[trigger] spec_terrain_global(gm.model, tk))
    &&& out.layers@.len() == gm.model.spec_layers().len()
    &&& (forall|k: int|
        0 <= k < out.layers@.len() ==> (#[trigger] out.layers@[k]).spec_id()
            == gm.model.spec_layers()[k].id@)
    &&& (forall|k: int, x: int, y: int|
        0 <= k < out.layers@.len() && 0 <= x < width && 0 <= y < height
            ==> #[trigger] out.layers@[k].spec_tiles_at(x, y) == stack_of(
            gm.model.spec_layers()[k].placements@,
            x,
            y,
        ))
}

} // verus!
