use sulis::geom::Point;
use sulis::module::{Module, ModuleBuilder};
use sulis::resources::{EntitySize, Game, Tile};

fn empty_builder() -> ModuleBuilder {
    ModuleBuilder {
        actor_builders: Vec::new(),
        area_builders: Vec::new(),
        class_builders: Vec::new(),
        item_builders: Vec::new(),
        item_adjectives: Vec::new(),
        race_builders: Vec::new(),
        size_builders: Vec::new(),
        tile_builders: Vec::new(),
        wall_kind_builders: Vec::new(),
        terrain_kind_builders: Vec::new(),
        prop_builders: Vec::new(),
        encounter_builders: Vec::new(),
        feature_builders: Vec::new(),
    }
}

fn grass_tile(id: &str, width: i32) -> Tile {
    Tile { id: id.to_string(), layer: "terrain".to_string(), width, height: 1, impass: false }
}

fn demo_game() -> Game {
    Game { starting_area: "start".to_string(), starting_location: Point { x: 1, y: 1 } }
}

#[test]
fn duplicate_resource_ids_keep_the_first() {
    let mut b = empty_builder();
    b.tile_builders.push(("grass".to_string(), grass_tile("grass", 3)));
    b.tile_builders.push(("grass".to_string(), grass_tile("grass", 9)));
    b.tile_builders.push(("dirt".to_string(), grass_tile("dirt", 1)));
    let module = Module::init(b, demo_game());
    let t = module.get_tile("grass").unwrap();
    assert_eq!(t.width, 3);
    assert_eq!(module.get_all_tiles().len(), 2);
}

#[test]
fn unknown_ids_resolve_to_nothing() {
    let module = Module::init(empty_builder(), demo_game());
    assert!(module.get_tile("nope").is_none());
    assert!(module.get_actor("nope").is_none());
    assert!(module.get_area("nope").is_none());
    assert!(module.get_class("nope").is_none());
    assert!(module.get_race("nope").is_none());
    assert!(module.wall_kind("nope").is_none());
    assert!(module.prop("nope").is_none());
    assert!(module.encounter("nope").is_none());
    assert!(module.feature("nope").is_none());
}

#[test]
fn entity_sizes_are_found_by_numeric_id() {
    let mut b = empty_builder();
    b.size_builders.push((2, EntitySize { size: 2, width: 2, height: 2 }));
    b.size_builders.push((3, EntitySize { size: 3, width: 3, height: 3 }));
    let module = Module::init(b, demo_game());
    assert_eq!(module.get_entity_size(3).unwrap().width, 3);
    assert!(module.get_entity_size(7).is_none());
    assert_eq!(module.get_all_entity_sizes().len(), 2);
}

#[test]
fn initialized_module_owns_the_game() {
    let module = Module::init(empty_builder(), demo_game());
    assert_eq!(module.get_game().starting_area, "start");
}

#[test]
fn default_module_is_empty() {
    let module = Module::default();
    assert!(module.get_tile("anything").is_none());
    assert!(module.get_all_tiles().is_empty());
    assert!(module.get_all_entity_sizes().is_empty());
}
