//! The resource module: every named entity the generator and the game state
//! resolve against, registered once at startup.
//!
//! Reading resource files from disk is the loading layer's job; it hands the
//! already-deserialized builder collections to `Module::init`, which keeps
//! the first occurrence of each id, as the file reader does for duplicate
//! keys.

use vstd::prelude::*;
use crate::registry::{Registry, spec_find, dedup_first};
use crate::resources::{
    Actor, Area, Class, Encounter, EntitySize, Feature, Game, Item, ItemAdjective, Prop, Race,
    TerrainKind, Tile, WallKind,
};

verus! {

/// The entity size stored under numeric id `id`: the first entry with that
/// key.
pub open spec fn find_size_from(s: Seq<(usize, EntitySize)>, id: int, i: int) -> Option<EntitySize>
    decreases s.len() - i,
{
    if i < 0 || i >= s.len() {
        None
    } else if s[i].0 == id {
        Some(s[i].1)
    } else {
        find_size_from(s, id, i + 1)
    }
}

pub open spec fn spec_find_size(s: Seq<(usize, EntitySize)>, id: int) -> Option<EntitySize> {
    find_size_from(s, id, 0)
}

/// The already-deserialized builder collections that the loading layer hands
/// to `Module::init`, one id/value list per resource kind, in file order.
pub struct ModuleBuilder {
    pub actor_builders: Vec<(String, Actor)>,
    pub area_builders: Vec<(String, Area)>,
    pub class_builders: Vec<(String, Class)>,
    pub item_builders: Vec<(String, Item)>,
    pub item_adjectives: Vec<(String, ItemAdjective)>,
    pub race_builders: Vec<(String, Race)>,
    pub size_builders: Vec<(usize, EntitySize)>,
    pub tile_builders: Vec<(String, Tile)>,
    pub wall_kind_builders: Vec<(String, WallKind)>,
    pub terrain_kind_builders: Vec<(String, TerrainKind)>,
    pub prop_builders: Vec<(String, Prop)>,
    pub encounter_builders: Vec<(String, Encounter)>,
    pub feature_builders: Vec<(String, Feature)>,
}

/// The resolved resource module.
pub struct Module {
    game: Option<Game>,
    actors: Registry<Actor>,
    areas: Registry<Area>,
    classes: Registry<Class>,
    items: Registry<Item>,
    item_adjectives: Registry<ItemAdjective>,
    races: Registry<Race>,
    sizes: Vec<(usize, EntitySize)>,
    tiles: Registry<Tile>,
    wall_kinds: Registry<WallKind>,
    terrain_kinds: Registry<TerrainKind>,
    props: Registry<Prop>,
    encounters: Registry<Encounter>,
    features: Registry<Feature>,
}

impl Module {
    pub closed spec fn spec_game(&self) -> Option<Game> {
        self.game
    }

    pub closed spec fn spec_actors(&self) -> Seq<(String, Actor)> {
        self.actors@
    }

    pub closed spec fn spec_areas(&self) -> Seq<(String, Area)> {
        self.areas@
    }

    pub closed spec fn spec_classes(&self) -> Seq<(String, Class)> {
        self.classes@
    }

    pub closed spec fn spec_items(&self) -> Seq<(String, Item)> {
        self.items@
    }

    pub closed spec fn spec_item_adjectives(&self) -> Seq<(String, ItemAdjective)> {
        self.item_adjectives@
    }

    pub closed spec fn spec_races(&self) -> Seq<(String, Race)> {
        self.races@
    }

    pub closed spec fn spec_sizes(&self) -> Seq<(usize, EntitySize)> {
        self.sizes@
    }

    pub closed spec fn spec_tiles(&self) -> Seq<(String, Tile)> {
        self.tiles@
    }

    pub closed spec fn spec_wall_kinds(&self) -> Seq<(String, WallKind)> {
        self.wall_kinds@
    }

    pub closed spec fn spec_terrain_kinds(&self) -> Seq<(String, TerrainKind)> {
        self.terrain_kinds@
    }

    pub closed spec fn spec_props(&self) -> Seq<(String, Prop)> {
        self.props@
    }

    pub closed spec fn spec_encounters(&self) -> Seq<(String, Encounter)> {
        self.encounters@
    }

    pub closed spec fn spec_features(&self) -> Seq<(String, Feature)> {
        self.features@
    }

    /// Assembles the module from builder collections, keeping the first
    /// occurrence of each id within a kind.  The entity-size table is kept
    /// verbatim, and `get_entity_size` returns the first entry under a
    /// numeric id: the first registration of a size wins, like every other
    /// table here.
    pub fn init(builder_set: ModuleBuilder, game: Game) -> (m: Module)
        ensures
            m.spec_game() == Some(game),
            m.spec_actors() == dedup_first(builder_set.actor_builders@),
            m.spec_areas() == dedup_first(builder_set.area_builders@),
            m.spec_classes() == dedup_first(builder_set.class_builders@),
            m.spec_items() == dedup_first(builder_set.item_builders@),
            m.spec_item_adjectives() == dedup_first(builder_set.item_adjectives@),
            m.spec_races() == dedup_first(builder_set.race_builders@),
            m.spec_sizes() == builder_set.size_builders@,
            m.spec_tiles() == dedup_first(builder_set.tile_builders@),
            m.spec_wall_kinds() == dedup_first(builder_set.wall_kind_builders@),
            m.spec_terrain_kinds() == dedup_first(builder_set.terrain_kind_builders@),
            m.spec_props() == dedup_first(builder_set.prop_builders@),
            m.spec_encounters() == dedup_first(builder_set.encounter_builders@),
            m.spec_features() == dedup_first(builder_set.feature_builders@),
    {
        Module {
            game: Some(game),
            actors: Registry::from_pairs(builder_set.actor_builders),
            areas: Registry::from_pairs(builder_set.area_builders),
            classes: Registry::from_pairs(builder_set.class_builders),
            items: Registry::from_pairs(builder_set.item_builders),
            item_adjectives: Registry::from_pairs(builder_set.item_adjectives),
            races: Registry::from_pairs(builder_set.race_builders),
            sizes: builder_set.size_builders,
            tiles: Registry::from_pairs(builder_set.tile_builders),
            wall_kinds: Registry::from_pairs(builder_set.wall_kind_builders),
            terrain_kinds: Registry::from_pairs(builder_set.terrain_kind_builders),
            props: Registry::from_pairs(builder_set.prop_builders),
            encounters: Registry::from_pairs(builder_set.encounter_builders),
            features: Registry::from_pairs(builder_set.feature_builders),
        }
    }

    pub fn get_actor(&self, id: &str) -> (r: Option<&Actor>)
        ensures
            match r {
                Some(t) => spec_find(self.spec_actors(), id@) == Some(*t),
                None => spec_find(self.spec_actors(), id@) is None,
            },
    {
        self.actors.get(id)
    }

    pub fn get_area(&self, id: &str) -> (r: Option<&Area>)
        ensures
            match r {
                Some(t) => spec_find(self.spec_areas(), id@) == Some(*t),
                None => spec_find(self.spec_areas(), id@) is None,
            },
    {
        self.areas.get(id)
    }

    pub fn get_class(&self, id: &str) -> (r: Option<&Class>)
        ensures
            match r {
                Some(t) => spec_find(self.spec_classes(), id@) == Some(*t),
                None => spec_find(self.spec_classes(), id@) is None,
            },
    {
        self.classes.get(id)
    }

    pub fn get_race(&self, id: &str) -> (r: Option<&Race>)
        ensures
            match r {
                Some(t) => spec_find(self.spec_races(), id@) == Some(*t),
                None => spec_find(self.spec_races(), id@) is None,
            },
    {
        self.races.get(id)
    }

    pub fn get_tile(&self, id: &str) -> (r: Option<&Tile>)
        ensures
            match r {
                Some(t) => spec_find(self.spec_tiles(), id@) == Some(*t),
                None => spec_find(self.spec_tiles(), id@) is None,
            },
    {
        self.tiles.get(id)
    }

    pub fn get_item(&self, id: &str) -> (r: Option<&Item>)
        ensures
            match r {
                Some(t) => spec_find(self.spec_items(), id@) == Some(*t),
                None => spec_find(self.spec_items(), id@) is None,
            },
    {
        self.items.get(id)
    }

    /// All registered tiles, in registration order.
    pub fn get_all_tiles(&self) -> (r: Vec<&Tile>)
        ensures
            r@.len() == self.spec_tiles().len(),
            forall|i: int|
                0 <= i < r@.len() ==> *(#[trigger] r@[i]) == self.spec_tiles()[i].1,
    {
        self.tiles.values()
    }

    /// The entity size registered under numeric id `id`.
    pub fn get_entity_size(&self, id: usize) -> (r: Option<EntitySize>)
        ensures
            r == spec_find_size(self.spec_sizes(), id as int),
    {
        let n: usize = self.sizes.len();
        let ghost s = self.sizes@;
        let mut i: usize = 0;
        while i < n
            invariant
                s == self.sizes@,
                n == s.len(),
                0 <= i <= n,
                find_size_from(s, id as int, 0) == find_size_from(s, id as int, i as int),
            decreases n - i,
        {
            if self.sizes[i].0 == id {
                return Some(self.sizes[i].1);
            }
            i = i + 1;
        }
        None
    }

    /// All registered entity sizes, in registration order.
    pub fn get_all_entity_sizes(&self) -> (r: Vec<EntitySize>)
        ensures
            r@.len() == self.spec_sizes().len(),
            forall|i: int| 0 <= i < r@.len() ==> #[trigger] r@[i] == self.spec_sizes()[i].1,
    {
        let n: usize = self.sizes.len();
        let mut out: Vec<EntitySize> = Vec::new();
        let mut i: usize = 0;
        while i < n
            invariant
                n == self.spec_sizes().len(),
                0 <= i <= n,
                out@.len() == i,
                forall|j: int| 0 <= j < i ==> #[trigger] out@[j] == self.spec_sizes()[j].1,
            decreases n - i,
        {
            out.push(self.sizes[i].1);
            i = i + 1;
        }
        out
    }

    /// The campaign header, if the module was initialized with one.
    pub fn game(&self) -> (r: Option<&Game>)
        ensures
            match r {
                Some(g) => self.spec_game() == Some(*g),
                None => self.spec_game() is None,
            },
    {
        match &self.game {
            Some(g) => Some(g),
            None => None,
        }
    }

    /// The campaign header.  The module owes a game definition to every
    /// caller that got the module from `init`.
    pub fn get_game(&self) -> (r: &Game)
        requires
            self.spec_game() is Some,
        ensures
            Some(*r) == self.spec_game(),
    {
        match &self.game {
            Some(g) => g,
            None => {
                proof {
                    assert(false);
                }
                unreached()
            },
        }
    }

    pub fn wall_kind(&self, id: &str) -> (r: Option<&WallKind>)
        ensures
            match r {
                Some(t) => spec_find(self.spec_wall_kinds(), id@) == Some(*t),
                None => spec_find(self.spec_wall_kinds(), id@) is None,
            },
    {
        self.wall_kinds.get(id)
    }

    pub fn terrain_kind(&self, id: &str) -> (r: Option<&TerrainKind>)
        ensures
            match r {
                Some(t) => spec_find(self.spec_terrain_kinds(), id@) == Some(*t),
                None => spec_find(self.spec_terrain_kinds(), id@) is None,
            },
    {
        self.terrain_kinds.get(id)
    }

    pub fn prop(&self, id: &str) -> (r: Option<&Prop>)
        ensures
            match r {
                Some(t) => spec_find(self.spec_props(), id@) == Some(*t),
                None => spec_find(self.spec_props(), id@) is None,
            },
    {
        self.props.get(id)
    }

    pub fn encounter(&self, id: &str) -> (r: Option<&Encounter>)
        ensures
            match r {
                Some(t) => spec_find(self.spec_encounters(), id@) == Some(*t),
                None => spec_find(self.spec_encounters(), id@) is None,
            },
    {
        self.encounters.get(id)
    }

    pub fn feature(&self, id: &str) -> (r: Option<&Feature>)
        ensures
            match r {
                Some(t) => spec_find(self.spec_features(), id@) == Some(*t),
                None => spec_find(self.spec_features(), id@) is None,
            },
    {
        self.features.get(id)
    }
}

impl Default for Module {
    /// An empty module: no game, no resources.
    fn default() -> (m: Module)
        ensures
            m.spec_game() is None,
            m.spec_actors().len() == 0,
            m.spec_areas().len() == 0,
            m.spec_classes().len() == 0,
            m.spec_items().len() == 0,
            m.spec_item_adjectives().len() == 0,
            m.spec_races().len() == 0,
            m.spec_sizes().len() == 0,
            m.spec_tiles().len() == 0,
            m.spec_wall_kinds().len() == 0,
            m.spec_terrain_kinds().len() == 0,
            m.spec_props().len() == 0,
            m.spec_encounters().len() == 0,
            m.spec_features().len() == 0,
    {
        Module {
            game: None,
            actors: Registry::new(),
            areas: Registry::new(),
            classes: Registry::new(),
            items: Registry::new(),
            item_adjectives: Registry::new(),
            races: Registry::new(),
            sizes: Vec::new(),
            tiles: Registry::new(),
            wall_kinds: Registry::new(),
            terrain_kinds: Registry::new(),
            props: Registry::new(),
            encounters: Registry::new(),
            features: Registry::new(),
        }
    }
}

} // verus!
