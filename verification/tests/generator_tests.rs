use sulis::area_generator::{is_rough_edge, AreaGenerator, WallKindMemo};
use sulis::gen_model::GenModel;
use sulis::maze::TileKind;
use sulis::errors::GenError;
use sulis::geom::Point;
use sulis::maze::RoomParams;
use sulis::module::{Module, ModuleBuilder};
use sulis::params::{
    EncounterParamsBuilder, FeatureParamsBuilder, GeneratorBuilder, GeneratorParams, PassParams,
    PropParamsBuilder, TerrainParamsBuilder, TransitionAreaParams, TransitionBuilder,
    TransitionKindBuilder, TransitionParamsBuilder,
};
use sulis::resources::{
    Encounter, EntitySize, Feature, Game, Prop, TerrainKind, Tile, WallKind,
};
use sulis::rng::ReproducibleRandom;

fn tile(id: &str, layer: &str) -> Tile {
    Tile { id: id.to_string(), layer: layer.to_string(), width: 1, height: 1, impass: false }
}

fn blocking_tile(id: &str, layer: &str) -> Tile {
    Tile { id: id.to_string(), layer: layer.to_string(), width: 1, height: 1, impass: true }
}

fn demo_module() -> Module {
    let builder = ModuleBuilder {
        actor_builders: Vec::new(),
        area_builders: Vec::new(),
        class_builders: Vec::new(),
        item_builders: Vec::new(),
        item_adjectives: Vec::new(),
        race_builders: Vec::new(),
        size_builders: vec![(1, EntitySize { size: 1, width: 2, height: 2 })],
        tile_builders: Vec::new(),
        wall_kind_builders: vec![(
            "stone".to_string(),
            WallKind {
                id: "stone".to_string(),
                fill_tile: blocking_tile("stone_fill", "wall"),
                border_tile: blocking_tile("stone_border", "wall"),
            },
        )],
        terrain_kind_builders: vec![(
            "grass".to_string(),
            TerrainKind {
                id: "grass".to_string(),
                base_tile: tile("grass_base", "terrain"),
                border_tile: tile("grass_border", "terrain"),
            },
        )],
        prop_builders: vec![(
            "barrel".to_string(),
            Prop { id: "barrel".to_string(), width: 1, height: 1 },
        )],
        encounter_builders: vec![(
            "wolves".to_string(),
            Encounter { id: "wolves".to_string(), width: 2, height: 2 },
        )],
        feature_builders: vec![(
            "boulder".to_string(),
            Feature {
                id: "boulder".to_string(),
                tile: tile("boulder_tile", "feature"),
                width: 1,
                height: 1,
            },
        )],
    };
    let game = Game { starting_area: "start".to_string(), starting_location: Point { x: 1, y: 1 } };
    Module::init(builder, game)
}

fn demo_builder(invert: bool, min_rooms: u32, max_rooms: u32) -> GeneratorBuilder {
    GeneratorBuilder {
        id: "cavern".to_string(),
        grid_width: 4,
        grid_height: 4,
        wall_kinds: vec![("stone".to_string(), 1)],
        rooms: RoomParams {
            min_rooms,
            max_rooms,
            min_size: Point { x: 1, y: 1 },
            max_size: Point { x: 2, y: 2 },
            invert,
            room_edge_overfill_chance: 40,
            corridor_edge_overfill_chance: 40,
        },
        terrain: TerrainParamsBuilder { kinds: vec![("grass".to_string(), 1)] },
        props: PropParamsBuilder { props: vec![("barrel".to_string(), 1)] },
        encounters: EncounterParamsBuilder { encounters: vec![("wolves".to_string(), 1)] },
        features: FeatureParamsBuilder {
            features: vec![("boulder".to_string(), 1)],
            placement_attempts: 4,
        },
        transitions: TransitionParamsBuilder {
            kinds: vec![TransitionKindBuilder {
                id: "stairs".to_string(),
                size: 1,
                to_area: None,
            }],
        },
    }
}

fn demo_params() -> GeneratorParams {
    GeneratorParams {
        transitions: Vec::new(),
        props: PassParams { passes: 3 },
        encounters: PassParams { passes: 2 },
    }
}

#[test]
fn unresolved_prop_reference_fails_construction() {
    let module = demo_module();
    let mut builder = demo_builder(false, 0, 2);
    builder.props = PropParamsBuilder { props: vec![("ghost_chair".to_string(), 1)] };
    let err = AreaGenerator::new(builder, &module).err().unwrap();
    assert_eq!(
        err,
        GenError::UnresolvedReference { kind: "Prop".to_string(), id: "ghost_chair".to_string() }
    );
}

#[test]
fn unresolved_wall_kind_reference_fails_construction() {
    let module = demo_module();
    let mut builder = demo_builder(false, 0, 2);
    builder.wall_kinds = vec![("marble".to_string(), 2)];
    let err = AreaGenerator::new(builder, &module).err().unwrap();
    assert_eq!(
        err,
        GenError::UnresolvedReference { kind: "WallKind".to_string(), id: "marble".to_string() }
    );
}

#[test]
fn two_by_two_grid_without_rooms_is_all_wall_kind_zero() {
    // a 16x16 area with 8-tile coarse cells gives a 2x2 region grid; with no
    // rooms every maze cell stays wall and gets the single wall kind
    let module = demo_module();
    let mut builder = demo_builder(false, 0, 0);
    builder.terrain = TerrainParamsBuilder { kinds: Vec::new() };
    builder.props = PropParamsBuilder { props: Vec::new() };
    builder.encounters = EncounterParamsBuilder { encounters: Vec::new() };
    builder.features = FeatureParamsBuilder { features: Vec::new(), placement_attempts: 0 };
    let gen = AreaGenerator::new(builder, &module).unwrap();
    let out = gen
        .generate(16, 16, ReproducibleRandom::new(11), &demo_params(), &Vec::new(), Vec::new())
        .unwrap();
    assert_eq!(out.layers.len(), 1);
    let wall_layer = &out.layers[0];
    assert_eq!(wall_layer.id, "wall");
    // no cell index exceeds width * height - 1
    assert_eq!(wall_layer.stack_count(), 256);
    // every placement-grid cell carries the wall kind's fill tile
    let mut y = 0;
    while y < 16 {
        let mut x = 0;
        while x < 16 {
            let stack = wall_layer.tiles_at(x, y);
            assert!(
                stack.iter().any(|t| t.id == "stone_fill"),
                "missing fill at {},{}",
                x,
                y
            );
            x += 2;
        }
        y += 2;
    }
}

#[test]
fn generation_is_deterministic_for_a_seed() {
    let module = demo_module();
    let ga = AreaGenerator::new(demo_builder(false, 1, 3), &module).unwrap();
    let gb = AreaGenerator::new(demo_builder(false, 1, 3), &module).unwrap();
    let a = ga
        .generate(32, 24, ReproducibleRandom::new(555), &demo_params(), &Vec::new(), Vec::new())
        .unwrap();
    let b = gb
        .generate(32, 24, ReproducibleRandom::new(555), &demo_params(), &Vec::new(), Vec::new())
        .unwrap();
    assert_eq!(a.layers.len(), b.layers.len());
    for (la, lb) in a.layers.iter().zip(b.layers.iter()) {
        assert_eq!(la.id, lb.id);
        assert_eq!(la.stack_count(), lb.stack_count());
        for y in 0..24 {
            for x in 0..32 {
                let sa: Vec<&str> = la.tiles_at(x, y).iter().map(|t| t.id.as_str()).collect();
                let sb: Vec<&str> = lb.tiles_at(x, y).iter().map(|t| t.id.as_str()).collect();
                assert_eq!(sa, sb);
            }
        }
    }
    assert_eq!(a.props.len(), b.props.len());
    for (pa, pb) in a.props.iter().zip(b.props.iter()) {
        assert_eq!((pa.id.as_str(), pa.x, pa.y), (pb.id.as_str(), pb.x, pb.y));
    }
    assert_eq!(a.encounters.len(), b.encounters.len());
    for (ea, eb) in a.encounters.iter().zip(b.encounters.iter()) {
        assert_eq!((ea.id.as_str(), ea.x, ea.y), (eb.id.as_str(), eb.x, eb.y));
    }
}

#[test]
fn placements_stay_inside_the_area() {
    let module = demo_module();
    let gen = AreaGenerator::new(demo_builder(true, 1, 4), &module).unwrap();
    for seed in 0..10u64 {
        let out = gen
            .generate(
                24,
                16,
                ReproducibleRandom::new(seed),
                &demo_params(),
                &Vec::new(),
                Vec::new(),
            )
            .unwrap();
        for layer in &out.layers {
            assert_eq!(layer.width(), 24);
            assert_eq!(layer.height(), 16);
            assert_eq!(layer.stack_count(), 24 * 16);
        }
        for p in &out.props {
            assert!((0..24).contains(&p.x) && (0..16).contains(&p.y));
        }
        for e in &out.encounters {
            assert!((0..24).contains(&e.x) && (0..16).contains(&e.y));
        }
    }
}

#[test]
fn out_of_bounds_extra_tiles_are_clipped() {
    let module = demo_module();
    let gen = AreaGenerator::new(demo_builder(false, 0, 0), &module).unwrap();
    let extra = vec![
        (tile("marker", "marks"), 3, 3),
        (tile("marker", "marks"), -2, 5),
        (tile("marker", "marks"), 5, 99),
    ];
    let out = gen
        .generate(16, 16, ReproducibleRandom::new(8), &demo_params(), &Vec::new(), extra)
        .unwrap();
    let marks = out.layers.iter().find(|l| l.id == "marks").unwrap();
    let mut placed = 0;
    for y in 0..16 {
        for x in 0..16 {
            placed += marks.tiles_at(x, y).iter().filter(|t| t.id == "marker").count();
        }
    }
    // only the in-bounds placement survives; the others are silently dropped
    assert_eq!(placed, 1);
    assert_eq!(marks.tiles_at(3, 3).len(), 1);
}

#[test]
fn transition_anchor_cells_stay_open() {
    let module = demo_module();
    let gen = AreaGenerator::new(demo_builder(false, 1, 3), &module).unwrap();
    let anchors = vec![
        TransitionBuilder { from: Point { x: 2, y: 2 }, to_area: None },
        TransitionBuilder { from: Point { x: 20, y: 12 }, to_area: None },
    ];
    for seed in 0..10u64 {
        let out = gen.generate(
            24,
            16,
            ReproducibleRandom::new(seed),
            &demo_params(),
            &anchors,
            Vec::new(),
        );
        assert!(out.is_ok(), "seed {}", seed);
    }
}

#[test]
fn requested_transitions_are_placed_inside_with_margin() {
    let module = demo_module();
    let gen = AreaGenerator::new(demo_builder(false, 0, 1), &module).unwrap();
    let mut rand = ReproducibleRandom::new(31);
    let params = GeneratorParams {
        transitions: vec![
            TransitionAreaParams { kind: "stairs".to_string(), to: "elsewhere".to_string() },
            TransitionAreaParams { kind: "stairs".to_string(), to: "below".to_string() },
        ],
        props: PassParams { passes: 0 },
        encounters: PassParams { passes: 0 },
    };
    let placed = gen.generate_transitions(20, 20, &mut rand, &params).unwrap();
    assert_eq!(placed.len(), 2);
    for t in &placed {
        assert!(t.from.x >= 1 && t.from.x + t.width < 20);
        assert!(t.from.y >= 1 && t.from.y + t.height < 20);
    }
    assert_eq!(placed[0].to, "elsewhere");
    assert_eq!(placed[1].to, "below");
}

#[test]
fn unknown_transition_kind_is_an_unresolved_reference() {
    let module = demo_module();
    let gen = AreaGenerator::new(demo_builder(false, 0, 1), &module).unwrap();
    let mut rand = ReproducibleRandom::new(31);
    let params = GeneratorParams {
        transitions: vec![TransitionAreaParams {
            kind: "portal".to_string(),
            to: "elsewhere".to_string(),
        }],
        props: PassParams { passes: 0 },
        encounters: PassParams { passes: 0 },
    };
    let err = gen.generate_transitions(20, 20, &mut rand, &params).unwrap_err();
    assert_eq!(
        err,
        GenError::UnresolvedReference { kind: "Transition".to_string(), id: "portal".to_string() }
    );
}

#[test]
fn oversized_transition_fails_generation() {
    let module = demo_module();
    let gen = AreaGenerator::new(demo_builder(false, 0, 1), &module).unwrap();
    let mut rand = ReproducibleRandom::new(31);
    let params = GeneratorParams {
        transitions: vec![TransitionAreaParams {
            kind: "stairs".to_string(),
            to: "elsewhere".to_string(),
        }],
        props: PassParams { passes: 0 },
        encounters: PassParams { passes: 0 },
    };
    // the stairs footprint is 2x2; a 4x4 area leaves no room inside the margin
    let r = gen.generate_transitions(4, 4, &mut rand, &params);
    assert_eq!(r.unwrap_err(), GenError::GenerationFailed);
}

#[test]
fn unusable_dimensions_are_invalid_data() {
    let module = demo_module();
    let gen = AreaGenerator::new(demo_builder(false, 0, 1), &module).unwrap();
    let r = gen.generate(
        1,
        16,
        ReproducibleRandom::new(1),
        &demo_params(),
        &Vec::new(),
        Vec::new(),
    );
    assert_eq!(r.err().unwrap(), GenError::InvalidData);
    // an area narrower than one coarse cell is unusable too
    let r2 = gen.generate(
        6,
        16,
        ReproducibleRandom::new(1),
        &demo_params(),
        &Vec::new(),
        Vec::new(),
    );
    assert_eq!(r2.err().unwrap(), GenError::InvalidData);
}

#[test]
fn wall_kind_is_memoized_per_region() {
    // in invert mode the first pick for a region is recorded and every later
    // pick for the same region returns exactly the recorded kind
    let module = demo_module();
    let gen = AreaGenerator::new(demo_builder(true, 0, 1), &module).unwrap();
    let mut model = GenModel::new(32, 32, ReproducibleRandom::new(64), 4, 4);
    let mut mapped = WallKindMemo::new();
    let first = gen.pick_wall_kind(&mut model, true, 7, &mut mapped);
    assert_eq!(first.0, 1);
    for _ in 0..5 {
        let again = gen.pick_wall_kind(&mut model, true, 7, &mut mapped);
        assert_eq!(again, first);
    }
    // a different region picks independently but is then stable too
    let other = gen.pick_wall_kind(&mut model, true, 9, &mut mapped);
    assert_eq!(gen.pick_wall_kind(&mut model, true, 9, &mut mapped), other);
    // outside invert mode carving always clears
    assert_eq!(gen.pick_wall_kind(&mut model, false, 7, &mut mapped), (0, None));
}

#[test]
fn adjacent_corridor_cells_never_roughen_their_shared_edge() {
    let corridor = Some(TileKind::Corridor(3));
    let wall = Some(TileKind::Wall);
    // two corridor cells of one region side by side: the west cell sees the
    // east cell through edge 2, the east cell sees the west cell through
    // edge 4; neither boundary edge borders wall, so neither is rough,
    // whatever edge either side rolled
    let west_cell = [corridor, wall, corridor, wall, wall];
    let east_cell = [corridor, wall, wall, wall, corridor];
    for choice in [None, Some(1), Some(2), Some(3), Some(4)] {
        assert!(!is_rough_edge(&west_cell, 2, choice));
        assert!(!is_rough_edge(&east_cell, 4, choice));
    }
    // against an actual wall the memoized edge decides, one edge per region
    assert!(is_rough_edge(&west_cell, 1, Some(1)));
    assert!(!is_rough_edge(&west_cell, 1, Some(3)));
    assert!(!is_rough_edge(&west_cell, 1, None));
}

#[test]
fn open_ground_places_a_prop_every_pass() {
    // invert mode with no rooms leaves the whole area open, so every prop
    // and encounter pass lands
    let module = demo_module();
    let gen = AreaGenerator::new(demo_builder(true, 0, 0), &module).unwrap();
    let out = gen
        .generate(24, 16, ReproducibleRandom::new(9), &demo_params(), &Vec::new(), Vec::new())
        .unwrap();
    assert_eq!(out.props.len(), 3);
    assert_eq!(out.encounters.len(), 2);
    for p in &out.props {
        assert_eq!(p.id, "barrel");
    }
    for e in &out.encounters {
        assert_eq!(e.id, "wolves");
    }
}

#[test]
fn props_avoid_impassable_snapshot_ground() {
    // invert mode with rooms raises wall blocks whose tiles are impassable
    // in the occupancy snapshot; placed props and encounters never stand on
    // them
    let module = demo_module();
    let gen = AreaGenerator::new(demo_builder(true, 2, 4), &module).unwrap();
    for seed in 0..8u64 {
        let out = gen
            .generate(
                24,
                16,
                ReproducibleRandom::new(seed),
                &demo_params(),
                &Vec::new(),
                Vec::new(),
            )
            .unwrap();
        let wall_layer = out.layers.iter().find(|l| l.id == "wall");
        if let Some(wall) = wall_layer {
            for p in &out.props {
                assert!(
                    !wall.tiles_at(p.x, p.y).iter().any(|t| t.impass),
                    "prop on impassable ground at {},{} (seed {})",
                    p.x,
                    p.y,
                    seed
                );
            }
        }
    }
}
