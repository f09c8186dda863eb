//! Generator parameter objects and their construction from raw builders.
//!
//! Every named reference in a builder is resolved against the owning module
//! here, at construction time; an id the module cannot resolve fails the
//! whole construction with `UnresolvedReference` naming the id and the table
//! that was searched.  Generation itself never performs fallible lookups.

use vstd::prelude::*;
use crate::errors::GenError;
use crate::maze::RoomParams;
use crate::module::Module;
use crate::registry::spec_find;
use crate::resources::{Encounter, EntitySize, Feature, Prop, TerrainKind, WallKind};
use crate::weighted_list::{WeightedList, total_weight};

verus! {

/// Raw weighted reference list for the terrain pass.
pub struct TerrainParamsBuilder {
    pub kinds: Vec<(String, u32)>,
}

/// Raw weighted reference list for the prop pass.
pub struct PropParamsBuilder {
    pub props: Vec<(String, u32)>,
}

/// Raw weighted reference list for the encounter pass.
pub struct EncounterParamsBuilder {
    pub encounters: Vec<(String, u32)>,
}

/// Raw weighted reference list for the feature pass, with its placement
/// attempt count.
pub struct FeatureParamsBuilder {
    pub features: Vec<(String, u32)>,
    pub placement_attempts: u32,
}

/// One transition kind a generated area may offer: its id, the entity size
/// whose footprint the transition reserves, and the destination area.
pub struct TransitionKindBuilder {
    pub id: String,
    pub size: usize,
    pub to_area: Option<String>,
}

/// Raw transition kinds.
pub struct TransitionParamsBuilder {
    pub kinds: Vec<TransitionKindBuilder>,
}

/// Resolved terrain parameters.
pub struct TerrainParams {
    pub kinds: WeightedList<TerrainKind>,
}

/// Resolved prop parameters.
pub struct PropParams {
    pub props: WeightedList<Prop>,
}

/// Resolved encounter parameters.
pub struct EncounterParams {
    pub encounters: WeightedList<Encounter>,
}

/// Resolved feature parameters.
pub struct FeatureParams {
    pub features: WeightedList<Feature>,
    pub placement_attempts: u32,
}

/// A resolved transition kind.
pub struct TransitionKind {
    pub id: String,
    pub size: EntitySize,
    pub to_area: Option<String>,
}

/// Resolved transition parameters.
pub struct TransitionParams {
    pub kinds: Vec<TransitionKind>,
}

/// The resolved weighted wall-kind table.
pub struct WallKinds {
    pub kinds: WeightedList<WallKind>,
}

impl TerrainParams {
    /// Resolves every referenced terrain kind.  Succeeds exactly when every
    /// id resolves and the weight total is representable; a failed lookup
    /// surfaces as `UnresolvedReference` naming the id and the "Terrain"
    /// table, an unrepresentable total as `InvalidData`.
    pub fn new(builder: TerrainParamsBuilder, module: &Module) -> (r: Result<
        TerrainParams,
        GenError,
    >)
        ensures
            match r {
                Ok(p) => {
                    &&& p.kinds.wf()
                    &&& p.kinds@.len() == builder.kinds@.len()
                    &&& forall|i: int|
                        0 <= i < builder.kinds@.len() ==> spec_find(
                            module.spec_terrain_kinds(),
                            (#[trigger] builder.kinds@[i]).0@,
                        ) == Some(p.kinds@[i].0) && p.kinds@[i].1 == builder.kinds@[i].1
                    &&& total_weight(builder.kinds@) <= u32::MAX
                },
                Err(e) => {
                    ||| exists|i: int|
                        0 <= i < builder.kinds@.len() && spec_find(
                            module.spec_terrain_kinds(),
                            (#[trigger] builder.kinds@[i]).0@,
                        ) is None && e.spec_is_unresolved("Terrain"@, builder.kinds@[i].0@)
                    ||| (e == GenError::InvalidData && total_weight(builder.kinds@) > u32::MAX)
                },
            },
            (forall|i: int|
                0 <= i < builder.kinds@.len() ==> spec_find(
                    module.spec_terrain_kinds(),
                    (#[trigger] builder.kinds@[i]).0@,
                ) is Some) && total_weight(builder.kinds@) <= u32::MAX ==> r is Ok,
    {
        let mut resolved: Vec<(TerrainKind, u32)> = Vec::new();
        let n: usize = builder.kinds.len();
        let mut i: usize = 0;
        while i < n
            invariant
                n == builder.kinds@.len(),
                0 <= i <= n,
                resolved@.len() == i,
                forall|j: int|
                    0 <= j < i ==> spec_find(
                        module.spec_terrain_kinds(),
                        (#[trigger] builder.kinds@[j]).0@,
                    ) == Some(resolved@[j].0) && resolved@[j].1 == builder.kinds@[j].1,
            decreases n - i,
        {
            let entry = &builder.kinds[i];
            match module.terrain_kind(entry.0.as_str()) {
                Some(kind) => {
                    resolved.push((kind.clone(), entry.1));
                },
                None => {
                    return Err(
                        GenError::UnresolvedReference {
                            kind: "Terrain".to_owned(),
                            id: entry.0.clone(),
                        },
                    );
                },
            }
            i = i + 1;
        }
        proof {
            crate::weighted_list::lemma_total_weight_congruent(resolved@, builder.kinds@);
        }
        match WeightedList::new(resolved) {
            Ok(kinds) => Ok(TerrainParams { kinds }),
            Err(e) => Err(e),
        }
    }
}

impl PropParams {
    /// Resolves every referenced prop; a failed lookup surfaces as
    /// `UnresolvedReference` naming the id and the "Prop" table.
    pub fn with_module(builder: PropParamsBuilder, module: &Module) -> (r: Result<
        PropParams,
        GenError,
    >)
        ensures
            match r {
                Ok(p) => {
                    &&& p.props.wf()
                    &&& p.props@.len() == builder.props@.len()
                    &&& forall|i: int|
                        0 <= i < builder.props@.len() ==> spec_find(
                            module.spec_props(),
                            (#[trigger] builder.props@[i]).0@,
                        ) == Some(p.props@[i].0) && p.props@[i].1 == builder.props@[i].1
                    &&& total_weight(builder.props@) <= u32::MAX
                },
                Err(e) => {
                    ||| exists|i: int|
                        0 <= i < builder.props@.len() && spec_find(
                            module.spec_props(),
                            (#[trigger] builder.props@[i]).0@,
                        ) is None && e.spec_is_unresolved("Prop"@, builder.props@[i].0@)
                    ||| (e == GenError::InvalidData && total_weight(builder.props@) > u32::MAX)
                },
            },
            (forall|i: int|
                0 <= i < builder.props@.len() ==> spec_find(
                    module.spec_props(),
                    (#[trigger] builder.props@[i]).0@,
                ) is Some) && total_weight(builder.props@) <= u32::MAX ==> r is Ok,
    {
        let mut resolved: Vec<(Prop, u32)> = Vec::new();
        let n: usize = builder.props.len();
        let mut i: usize = 0;
        while i < n
            invariant
                n == builder.props@.len(),
                0 <= i <= n,
                resolved@.len() == i,
                forall|j: int|
                    0 <= j < i ==> spec_find(
                        module.spec_props(),
                        (#[trigger] builder.props@[j]).0@,
                    ) == Some(resolved@[j].0) && resolved@[j].1 == builder.props@[j].1,
            decreases n - i,
        {
            let entry = &builder.props[i];
            match module.prop(entry.0.as_str()) {
                Some(p) => {
                    resolved.push((p.clone(), entry.1));
                },
                None => {
                    return Err(
                        GenError::UnresolvedReference {
                            kind: "Prop".to_owned(),
                            id: entry.0.clone(),
                        },
                    );
                },
            }
            i = i + 1;
        }
        proof {
            crate::weighted_list::lemma_total_weight_congruent(resolved@, builder.props@);
        }
        match WeightedList::new(resolved) {
            Ok(props) => Ok(PropParams { props }),
            Err(e) => Err(e),
        }
    }
}

impl EncounterParams {
    /// Resolves every referenced encounter; a failed lookup surfaces as
    /// `UnresolvedReference` naming the id and the "Encounter" table.
    pub fn with_module(builder: EncounterParamsBuilder, module: &Module) -> (r: Result<
        EncounterParams,
        GenError,
    >)
        ensures
            match r {
                Ok(p) => {
                    &&& p.encounters.wf()
                    &&& p.encounters@.len() == builder.encounters@.len()
                    &&& forall|i: int|
                        0 <= i < builder.encounters@.len() ==> spec_find(
                            module.spec_encounters(),
                            (#[trigger] builder.encounters@[i]).0@,
                        ) == Some(p.encounters@[i].0) && p.encounters@[i].1
                            == builder.encounters@[i].1
                    &&& total_weight(builder.encounters@) <= u32::MAX
                },
                Err(e) => {
                    ||| exists|i: int|
                        0 <= i < builder.encounters@.len() && spec_find(
                            module.spec_encounters(),
                            (#[trigger] builder.encounters@[i]).0@,
                        ) is None && e.spec_is_unresolved("Encounter"@, builder.encounters@[i].0@)
                    ||| (e == GenError::InvalidData && total_weight(builder.encounters@)
                        > u32::MAX)
                },
            },
            (forall|i: int|
                0 <= i < builder.encounters@.len() ==> spec_find(
                    module.spec_encounters(),
                    (#[trigger] builder.encounters@[i]).0@,
                ) is Some) && total_weight(builder.encounters@) <= u32::MAX ==> r is Ok,
    {
        let mut resolved: Vec<(Encounter, u32)> = Vec::new();
        let n: usize = builder.encounters.len();
        let mut i: usize = 0;
        while i < n
            invariant
                n == builder.encounters@.len(),
                0 <= i <= n,
                resolved@.len() == i,
                forall|j: int|
                    0 <= j < i ==> spec_find(
                        module.spec_encounters(),
                        (#[trigger] builder.encounters@[j]).0@,
                    ) == Some(resolved@[j].0) && resolved@[j].1 == builder.encounters@[j].1,
            decreases n - i,
        {
            let entry = &builder.encounters[i];
            match module.encounter(entry.0.as_str()) {
                Some(p) => {
                    resolved.push((p.clone(), entry.1));
                },
                None => {
                    return Err(
                        GenError::UnresolvedReference {
                            kind: "Encounter".to_owned(),
                            id: entry.0.clone(),
                        },
                    );
                },
            }
            i = i + 1;
        }
        proof {
            crate::weighted_list::lemma_total_weight_congruent(resolved@, builder.encounters@);
        }
        match WeightedList::new(resolved) {
            Ok(encounters) => Ok(EncounterParams { encounters }),
            Err(e) => Err(e),
        }
    }
}

impl FeatureParams {
    /// Resolves every referenced feature; a failed lookup surfaces as
    /// `UnresolvedReference` naming the id and the "Feature" table.
    pub fn new(builder: FeatureParamsBuilder, module: &Module) -> (r: Result<
        FeatureParams,
        GenError,
    >)
        ensures
            match r {
                Ok(p) => {
                    &&& p.features.wf()
                    &&& p.placement_attempts == builder.placement_attempts
                    &&& p.features@.len() == builder.features@.len()
                    &&& forall|i: int|
                        0 <= i < builder.features@.len() ==> spec_find(
                            module.spec_features(),
                            (#[trigger] builder.features@[i]).0@,
                        ) == Some(p.features@[i].0) && p.features@[i].1 == builder.features@[i].1
                    &&& total_weight(builder.features@) <= u32::MAX
                },
                Err(e) => {
                    ||| exists|i: int|
                        0 <= i < builder.features@.len() && spec_find(
                            module.spec_features(),
                            (#[trigger] builder.features@[i]).0@,
                        ) is None && e.spec_is_unresolved("Feature"@, builder.features@[i].0@)
                    ||| (e == GenError::InvalidData && total_weight(builder.features@) > u32::MAX)
                },
            },
            (forall|i: int|
                0 <= i < builder.features@.len() ==> spec_find(
                    module.spec_features(),
                    (#[trigger] builder.features@[i]).0@,
                ) is Some) && total_weight(builder.features@) <= u32::MAX ==> r is Ok,
    {
        let mut resolved: Vec<(Feature, u32)> = Vec::new();
        let n: usize = builder.features.len();
        let mut i: usize = 0;
        while i < n
            invariant
                n == builder.features@.len(),
                0 <= i <= n,
                resolved@.len() == i,
                forall|j: int|
                    0 <= j < i ==> spec_find(
                        module.spec_features(),
                        (#[trigger] builder.features@[j]).0@,
                    ) == Some(resolved@[j].0) && resolved@[j].1 == builder.features@[j].1,
            decreases n - i,
        {
            let entry = &builder.features[i];
            match module.feature(entry.0.as_str()) {
                Some(p) => {
                    resolved.push((p.clone(), entry.1));
                },
                None => {
                    return Err(
                        GenError::UnresolvedReference {
                            kind: "Feature".to_owned(),
                            id: entry.0.clone(),
                        },
                    );
                },
            }
            i = i + 1;
        }
        proof {
            crate::weighted_list::lemma_total_weight_congruent(resolved@, builder.features@);
        }
        match WeightedList::new(resolved) {
            Ok(features) => Ok(
                FeatureParams { features, placement_attempts: builder.placement_attempts },
            ),
            Err(e) => Err(e),
        }
    }
}

impl TransitionParams {
    /// Resolves the entity size of every transition kind; a failed lookup
    /// surfaces as `UnresolvedReference` naming the kind's id and the "Size"
    /// table.
    pub fn new(builder: TransitionParamsBuilder, module: &Module) -> (r: Result<
        TransitionParams,
        GenError,
    >)
        ensures
            match r {
                Ok(p) => {
                    &&& p.kinds@.len() == builder.kinds@.len()
                    &&& forall|i: int|
                        0 <= i < builder.kinds@.len() ==> crate::module::spec_find_size(
                            module.spec_sizes(),
                            (#[trigger] builder.kinds@[i]).size as int,
                        ) == Some(p.kinds@[i].size) && p.kinds@[i].id@ == builder.kinds@[i].id@
                },
                Err(e) => exists|i: int|
                    0 <= i < builder.kinds@.len() && crate::module::spec_find_size(
                        module.spec_sizes(),
                        (#[trigger] builder.kinds@[i]).size as int,
                    ) is None && e.spec_is_unresolved("Size"@, builder.kinds@[i].id@),
            },
    {
        let mut kinds: Vec<TransitionKind> = Vec::new();
        let n: usize = builder.kinds.len();
        let mut i: usize = 0;
        while i < n
            invariant
                n == builder.kinds@.len(),
                0 <= i <= n,
                kinds@.len() == i,
                forall|j: int|
                    0 <= j < i ==> crate::module::spec_find_size(
                        module.spec_sizes(),
                        (#[trigger] builder.kinds@[j]).size as int,
                    ) == Some(kinds@[j].size) && kinds@[j].id@ == builder.kinds@[j].id@,
            decreases n - i,
        {
            let entry = &builder.kinds[i];
            match module.get_entity_size(entry.size) {
                Some(size) => {
                    let to_area: Option<String> = match &entry.to_area {
                        Some(a) => Some(a.clone()),
                        None => None,
                    };
                    kinds.push(TransitionKind { id: entry.id.clone(), size, to_area });
                },
                None => {
                    return Err(
                        GenError::UnresolvedReference {
                            kind: "Size".to_owned(),
                            id: entry.id.clone(),
                        },
                    );
                },
            }
            i = i + 1;
        }
        Ok(TransitionParams { kinds })
    }
}

impl WallKinds {
    /// Resolves the weighted wall-kind table; a failed lookup surfaces as
    /// `UnresolvedReference` naming the id and the "WallKind" table.
    pub fn new(entries: Vec<(String, u32)>, module: &Module) -> (r: Result<WallKinds, GenError>)
        ensures
            match r {
                Ok(p) => {
                    &&& p.kinds.wf()
                    &&& p.kinds@.len() == entries@.len()
                    &&& forall|i: int|
                        0 <= i < entries@.len() ==> spec_find(
                            module.spec_wall_kinds(),
                            (#[trigger] entries@[i]).0@,
                        ) == Some(p.kinds@[i].0) && p.kinds@[i].1 == entries@[i].1
                    &&& total_weight(entries@) <= u32::MAX
                },
                Err(e) => {
                    ||| exists|i: int|
                        0 <= i < entries@.len() && spec_find(
                            module.spec_wall_kinds(),
                            (#[trigger] entries@[i]).0@,
                        ) is None && e.spec_is_unresolved("WallKind"@, entries@[i].0@)
                    ||| (e == GenError::InvalidData && total_weight(entries@) > u32::MAX)
                },
            },
            (forall|i: int|
                0 <= i < entries@.len() ==> spec_find(
                    module.spec_wall_kinds(),
                    (#[trigger] entries@[i]).0@,
                ) is Some) && total_weight(entries@) <= u32::MAX ==> r is Ok,
    {
        let mut resolved: Vec<(WallKind, u32)> = Vec::new();
        let n: usize = entries.len();
        let mut i: usize = 0;
        while i < n
            invariant
                n == entries@.len(),
                0 <= i <= n,
                resolved@.len() == i,
                forall|j: int|
                    0 <= j < i ==> spec_find(
                        module.spec_wall_kinds(),
                        (#[trigger] entries@[j]).0@,
                    ) == Some(resolved@[j].0) && resolved@[j].1 == entries@[j].1,
            decreases n - i,
        {
            let entry = &entries[i];
            match module.wall_kind(entry.0.as_str()) {
                Some(k) => {
                    resolved.push((k.clone(), entry.1));
                },
                None => {
                    return Err(
                        GenError::UnresolvedReference {
                            kind: "WallKind".to_owned(),
                            id: entry.0.clone(),
                        },
                    );
                },
            }
            i = i + 1;
        }
        proof {
            crate::weighted_list::lemma_total_weight_congruent(resolved@, entries@);
        }
        match WeightedList::new(resolved) {
            Ok(kinds) => Ok(WallKinds { kinds }),
            Err(e) => Err(e),
        }
    }

    /// Draws one wall kind index with weight-proportional probability; no
    /// selection exactly when the weight total is zero, and otherwise the
    /// index the current random state determines.
    pub fn pick_index(&self, rand: &mut crate::rng::ReproducibleRandom) -> (r: Option<usize>)
        requires
            self.kinds.wf(),
        ensures
            r is None <==> total_weight(self.kinds@) == 0,
            total_weight(self.kinds@) == 0 ==> *final(rand) == *old(rand),
            total_weight(self.kinds@) > 0 ==> {
                let roll = crate::rng::draw_value(
                    old(rand).spec_state(),
                    0,
                    total_weight(self.kinds@) as u32,
                );
                &&& r == Some(crate::weighted_list::weighted_index(self.kinds@, roll as int)
                    as usize)
                &&& final(rand).spec_state() == crate::rng::next_state(old(rand).spec_state())
                &&& final(rand).spec_seed() == old(rand).spec_seed()
            },
            r matches Some(i) ==> i < self.kinds@.len() && self.kinds@[i as int].1 > 0,
    {
        self.kinds.pick_index(rand)
    }
}

/// The raw builder for a whole area generator: everything `AreaGenerator::new`
/// resolves at construction time.
pub struct GeneratorBuilder {
    pub id: String,
    /// Coarse maze cell size, in placement-grid units per axis.
    pub grid_width: i32,
    pub grid_height: i32,
    pub wall_kinds: Vec<(String, u32)>,
    pub rooms: RoomParams,
    pub terrain: TerrainParamsBuilder,
    pub props: PropParamsBuilder,
    pub encounters: EncounterParamsBuilder,
    pub features: FeatureParamsBuilder,
    pub transitions: TransitionParamsBuilder,
}

/// Per-call pass counts for a repeated content pass.
#[derive(Clone, Copy, PartialEq, Eq, Structural, Debug)]
pub struct PassParams {
    pub passes: u32,
}

/// One transition requested for a generated area: which transition kind, and
/// the destination area it leads to.
pub struct TransitionAreaParams {
    pub kind: String,
    pub to: String,
}

/// The per-call generation parameters handed to `generate`.
pub struct GeneratorParams {
    pub transitions: Vec<TransitionAreaParams>,
    pub props: PassParams,
    pub encounters: PassParams,
}

/// A transition anchor established before maze carving: where it enters the
/// area and, if known, which area it leads to.
pub struct TransitionBuilder {
    pub from: crate::geom::Point,
    pub to_area: Option<String>,
}

} // verus!
