use sulis::errors::GenError;
use sulis::geom::Point;
use sulis::maze::{Maze, RoomParams, TileKind};
use sulis::rng::ReproducibleRandom;

fn carve_params() -> RoomParams {
    RoomParams {
        min_rooms: 2,
        max_rooms: 4,
        min_size: Point { x: 2, y: 2 },
        max_size: Point { x: 4, y: 4 },
        invert: false,
        room_edge_overfill_chance: 30,
        corridor_edge_overfill_chance: 40,
    }
}

#[test]
fn new_maze_is_all_wall() {
    let maze = Maze::new(6, 5);
    for y in 0..5 {
        for x in 0..6 {
            assert_eq!(maze.region(x, y), None);
            assert_eq!(maze.kind_at(x, y), TileKind::Wall);
        }
    }
    assert_eq!(maze.kind_at(-1, 0), TileKind::Wall);
    assert_eq!(maze.kind_at(0, 99), TileKind::Wall);
}

#[test]
fn anchors_stay_open_after_generation() {
    // every in-grid anchor must end up walkable, never wall
    let anchors = vec![Point { x: 0, y: 0 }, Point { x: 9, y: 7 }, Point { x: 4, y: 3 }];
    for seed in 0..20u64 {
        let mut maze = Maze::new(10, 8);
        let mut rand = ReproducibleRandom::new(seed);
        maze.generate(&carve_params(), &mut rand, &anchors).unwrap();
        for p in &anchors {
            assert_ne!(maze.kind_at(p.x, p.y), TileKind::Wall, "seed {}", seed);
            assert!(maze.region(p.x, p.y).is_some());
        }
    }
}

#[test]
fn unusable_params_are_rejected_before_carving() {
    let mut params = carve_params();
    params.min_rooms = 5;
    params.max_rooms = 2;
    let mut maze = Maze::new(10, 8);
    let mut rand = ReproducibleRandom::new(1);
    assert_eq!(maze.generate(&params, &mut rand, &Vec::new()), Err(GenError::InvalidData));
}

#[test]
fn impossible_room_demand_fails_generation() {
    // rooms larger than the grid can never be placed
    let mut params = carve_params();
    params.min_rooms = 3;
    params.max_rooms = 3;
    params.min_size = Point { x: 50, y: 50 };
    params.max_size = Point { x: 60, y: 60 };
    let mut maze = Maze::new(6, 6);
    let mut rand = ReproducibleRandom::new(2);
    assert_eq!(maze.generate(&params, &mut rand, &Vec::new()), Err(GenError::GenerationFailed));
}

#[test]
fn zero_room_minimum_always_succeeds() {
    let mut params = carve_params();
    params.min_rooms = 0;
    let mut maze = Maze::new(4, 4);
    let mut rand = ReproducibleRandom::new(3);
    assert_eq!(maze.generate(&params, &mut rand, &Vec::new()), Ok(()));
}

#[test]
fn neighbors_reports_the_cross() {
    let mut maze = Maze::new(3, 3);
    let mut rand = ReproducibleRandom::new(4);
    let anchors = vec![Point { x: 1, y: 1 }];
    let mut params = carve_params();
    params.min_rooms = 0;
    params.max_rooms = 0;
    maze.generate(&params, &mut rand, &anchors).unwrap();
    let n = maze.neighbors(1, 1);
    assert_eq!(n[0], Some(maze.kind_at(1, 1)));
    assert_eq!(n[1], Some(maze.kind_at(1, 0)));
    assert_eq!(n[2], Some(maze.kind_at(2, 1)));
    assert_eq!(n[3], Some(maze.kind_at(1, 2)));
    assert_eq!(n[4], Some(maze.kind_at(0, 1)));
    // out of grid is None
    let edge = maze.neighbors(0, 0);
    assert_eq!(edge[1], None);
    assert_eq!(edge[4], None);
}

#[test]
fn maze_carving_is_deterministic() {
    let anchors = vec![Point { x: 2, y: 2 }];
    let mut a = Maze::new(12, 9);
    let mut b = Maze::new(12, 9);
    let mut ra = ReproducibleRandom::new(777);
    let mut rb = ReproducibleRandom::new(777);
    a.generate(&carve_params(), &mut ra, &anchors).unwrap();
    b.generate(&carve_params(), &mut rb, &anchors).unwrap();
    for y in 0..9 {
        for x in 0..12 {
            assert_eq!(a.kind_at(x, y), b.kind_at(x, y));
        }
    }
}
