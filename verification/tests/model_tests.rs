use sulis::errors::GenError;
use sulis::gen_model::GenModel;
use sulis::layer::Layer;
use sulis::resources::Tile;
use sulis::rng::ReproducibleRandom;
use sulis::tiles_model::TilesModel;

#[test]
fn region_coordinate_mapping_round_trips() {
    let model = GenModel::new(32, 24, ReproducibleRandom::new(0), 4, 3);
    assert_eq!(model.total_grid_size.x, 8);
    assert_eq!(model.total_grid_size.y, 6);
    assert_eq!(model.region_size(), (4, 4));
    for ry in 0..4 {
        for rx in 0..4 {
            let (x, y) = model.from_region_coords(rx, ry);
            assert_eq!(model.to_region_coords(x, y), (rx, ry));
        }
    }
    // tile coordinates map to the cell that contains them
    assert_eq!(model.to_region_coords(7, 5), (0, 0));
    assert_eq!(model.to_region_coords(8, 6), (1, 1));
}

#[test]
fn wall_cells_are_set_and_cleared_per_cell() {
    let mut m = TilesModel::new(12, 10);
    assert!(!m.is_wall(4, 4));
    m.set_wall(4, 4, 1, Some(0));
    assert!(m.is_wall(4, 4));
    assert!(m.is_wall(5, 5));  // same 2x2 cell
    assert!(!m.is_wall(6, 4));
    assert_eq!(m.wall_cell(2, 2), (1, Some(0)));
    m.set_wall(4, 4, 0, None);
    assert!(!m.is_wall(4, 4));
    // out-of-area positions are silently dropped and count as open
    m.set_wall(-3, 4, 1, Some(0));
    m.set_wall(400, 4, 1, Some(0));
    assert!(!m.is_wall(-3, 4));
    assert!(!m.is_wall(400, 4));
}

#[test]
fn terrain_cells_memoize_per_cell() {
    let mut m = TilesModel::new(8, 8);
    assert_eq!(m.terrain_cell(1, 1), None);
    m.set_terrain(1, 1, Some(2));
    assert_eq!(m.terrain_cell(1, 1), Some(2));
    assert_eq!(m.terrain_cell(0, 1), None);
    m.set_terrain(99, 1, Some(2));
    assert_eq!(m.terrain_cell(99, 1), None);
}

#[test]
fn tile_layers_keep_insertion_order() {
    let mut m = TilesModel::new(8, 8);
    let grass = Tile { id: "g".to_string(), layer: "terrain".to_string(), width: 1, height: 1, impass: false };
    let rock = Tile { id: "r".to_string(), layer: "wall".to_string(), width: 1, height: 1, impass: true };
    let grass2 = Tile { id: "g2".to_string(), layer: "terrain".to_string(), width: 1, height: 1, impass: false };
    m.add(grass, 0, 0);
    m.add(rock, 2, 2);
    m.add(grass2, 4, 4);
    assert_eq!(m.layer_count(), 2);
    assert_eq!(m.layer(0).id, "terrain");
    assert_eq!(m.layer(1).id, "wall");
    assert_eq!(m.layer(0).placements.len(), 2);
    assert_eq!(m.layer(1).placements.len(), 1);
}

#[test]
fn layer_construction_checks_dimensions() {
    let stacks: Vec<Vec<Tile>> = (0..12).map(|_| Vec::new()).collect();
    let l = Layer::new(4, 3, "floor".to_string(), stacks).unwrap();
    assert_eq!(l.width(), 4);
    assert_eq!(l.height(), 3);
    assert_eq!(l.stack_count(), 12);
    assert!(!l.is_occupied(1, 1));
    assert!(l.is_occupied(-1, 0));
    assert!(l.is_occupied(4, 0));

    let wrong: Vec<Vec<Tile>> = (0..5).map(|_| Vec::new()).collect();
    match Layer::new(4, 3, "floor".to_string(), wrong) {
        Err(e) => assert_eq!(e, GenError::InvalidData),
        Ok(_) => panic!("mismatched stack count was accepted"),
    }
    let none: Vec<Vec<Tile>> = Vec::new();
    match Layer::new(0, 3, "floor".to_string(), none) {
        Err(e) => assert_eq!(e, GenError::InvalidData),
        Ok(_) => panic!("zero width was accepted"),
    }
}
