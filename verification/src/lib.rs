//! Procedural area generation: a maze/region model over a coarse grid, a
//! tile-layer model over a fine grid, weighted random selection, and the
//! ordered generation passes (walls, terrain, features, props, encounters,
//! transitions) that turn a parameter set and a seeded random stream into a
//! finished tile layout, together with the module registry that resolves
//! named resources and the game-state bookkeeping built on top of the
//! generated areas.

pub mod abilities_bar;
pub mod area_generator;
pub mod area_state;
pub mod errors;
pub mod game_state;
pub mod gen_model;
pub mod geom;
pub mod layer;
pub mod maze;
pub mod module;
pub mod params;
pub mod passes;
pub mod registry;
pub mod resources;
pub mod rng;
pub mod tiles_model;
pub mod weighted_list;
