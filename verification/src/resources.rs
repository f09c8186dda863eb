//! Resolved resource objects: the entities that module lookups hand out and
//! that the generation passes place.  All fields are plain values; the
//! loading layer deserializes files into these before the library sees them.

use vstd::prelude::*;
use crate::geom::Point;

verus! {

/// A drawable tile: it belongs to a named layer, covers a `width` by
/// `height` block of grid cells, and may block what stands on it.
#[derive(Debug)]
pub struct Tile {
    pub id: String,
    pub layer: String,
    pub width: i32,
    pub height: i32,
    /// Ground carrying this tile cannot be stood on or built on.
    pub impass: bool,
}

impl Clone for Tile {
    fn clone(&self) -> (r: Tile)
        ensures
            r == *self,
    {
        Tile {
            id: self.id.clone(),
            layer: self.layer.clone(),
            width: self.width,
            height: self.height,
            impass: self.impass,
        }
    }
}

/// A wall style: the tile that fills wall cells and the tile drawn where a
/// wall borders open ground.
#[derive(Debug)]
pub struct WallKind {
    pub id: String,
    pub fill_tile: Tile,
    pub border_tile: Tile,
}

impl Clone for WallKind {
    fn clone(&self) -> (r: WallKind)
        ensures
            r == *self,
    {
        WallKind {
            id: self.id.clone(),
            fill_tile: self.fill_tile.clone(),
            border_tile: self.border_tile.clone(),
        }
    }
}

/// A terrain style: the tile that covers open cells of this terrain and the
/// tile drawn where it borders different terrain.
#[derive(Debug)]
pub struct TerrainKind {
    pub id: String,
    pub base_tile: Tile,
    pub border_tile: Tile,
}

impl Clone for TerrainKind {
    fn clone(&self) -> (r: TerrainKind)
        ensures
            r == *self,
    {
        TerrainKind {
            id: self.id.clone(),
            base_tile: self.base_tile.clone(),
            border_tile: self.border_tile.clone(),
        }
    }
}

/// A placeable prop with its footprint in tiles.
#[derive(Debug)]
pub struct Prop {
    pub id: String,
    pub width: i32,
    pub height: i32,
}

impl Clone for Prop {
    fn clone(&self) -> (r: Prop)
        ensures
            r == *self,
    {
        Prop { id: self.id.clone(), width: self.width, height: self.height }
    }
}

/// A placeable encounter area with its footprint in tiles.
#[derive(Debug)]
pub struct Encounter {
    pub id: String,
    pub width: i32,
    pub height: i32,
}

impl Clone for Encounter {
    fn clone(&self) -> (r: Encounter)
        ensures
            r == *self,
    {
        Encounter { id: self.id.clone(), width: self.width, height: self.height }
    }
}

/// A decorative feature: one tile stamped over a footprint of open ground.
#[derive(Debug)]
pub struct Feature {
    pub id: String,
    pub tile: Tile,
    pub width: i32,
    pub height: i32,
}

impl Clone for Feature {
    fn clone(&self) -> (r: Feature)
        ensures
            r == *self,
    {
        Feature {
            id: self.id.clone(),
            tile: self.tile.clone(),
            width: self.width,
            height: self.height,
        }
    }
}

/// A footprint size for entities and transitions, registered under a
/// numeric id.
#[derive(Clone, Copy, PartialEq, Eq, Structural, Debug)]
pub struct EntitySize {
    pub size: usize,
    pub width: i32,
    pub height: i32,
}

/// An ability an actor can activate.
#[derive(Debug)]
pub struct Ability {
    pub id: String,
    pub name: String,
}

impl Clone for Ability {
    fn clone(&self) -> (r: Ability)
        ensures
            r == *self,
    {
        Ability { id: self.id.clone(), name: self.name.clone() }
    }
}

/// An actor template: a creature or character definition.
#[derive(Debug)]
pub struct Actor {
    pub id: String,
    pub name: String,
    pub abilities: Vec<Ability>,
}

/// A named race.
#[derive(Debug)]
pub struct Race {
    pub id: String,
    pub name: String,
}

/// A named class.
#[derive(Debug)]
pub struct Class {
    pub id: String,
    pub name: String,
}

/// A named item.
#[derive(Debug)]
pub struct Item {
    pub id: String,
    pub name: String,
}

/// A named item adjective.
#[derive(Debug)]
pub struct ItemAdjective {
    pub id: String,
    pub name: String,
}

/// What causes a trigger in an area to fire.
#[derive(Clone, Copy, PartialEq, Eq, Structural, Debug)]
pub enum TriggerKind {
    OnCampaignStart,
    OnAreaLoad,
    OnPlayerEnter,
}

/// A scripted trigger attached to an area.
#[derive(Debug)]
pub struct Trigger {
    pub kind: TriggerKind,
    /// The script reference fired when the trigger activates.
    pub on_activate: String,
}

impl Clone for Trigger {
    fn clone(&self) -> (r: Trigger)
        ensures
            r == *self,
    {
        Trigger { kind: self.kind, on_activate: self.on_activate.clone() }
    }
}

/// A static area definition: dimensions, a passability grid in row-major
/// order, and the triggers that belong to the area.
#[derive(Debug)]
pub struct Area {
    pub id: String,
    pub width: i32,
    pub height: i32,
    /// `passable[x + y * width]` is true when the cell can be stood on.
    pub passable: Vec<bool>,
    pub triggers: Vec<Trigger>,
}

impl Clone for Area {
    fn clone(&self) -> (r: Area)
        ensures
            area_equiv(r, *self),
    {
        let mut passable: Vec<bool> = Vec::new();
        let n: usize = self.passable.len();
        let mut i: usize = 0;
        while i < n
            invariant
                n == self.passable@.len(),
                0 <= i <= n,
                passable@ =~= self.passable@.take(i as int),
            decreases n - i,
        {
            passable.push(self.passable[i]);
            i = i + 1;
        }
        proof {
            assert(passable@ =~= self.passable@);
        }
        let mut triggers: Vec<Trigger> = Vec::new();
        let m: usize = self.triggers.len();
        let mut j: usize = 0;
        while j < m
            invariant
                m == self.triggers@.len(),
                0 <= j <= m,
                triggers@ =~= self.triggers@.take(j as int),
            decreases m - j,
        {
            triggers.push(self.triggers[j].clone());
            j = j + 1;
        }
        proof {
            assert(triggers@ =~= self.triggers@);
        }
        Area {
            id: self.id.clone(),
            width: self.width,
            height: self.height,
            passable,
            triggers,
        }
    }
}

/// Two area values with the same id, dimensions, passability and triggers.
/// (A clone of an area is equivalent, not identical: vector fields are
/// compared by contents.)
pub open spec fn area_equiv(a: Area, b: Area) -> bool {
    &&& a.id == b.id
    &&& a.width == b.width
    &&& a.height == b.height
    &&& a.passable@ == b.passable@
    &&& a.triggers@ == b.triggers@
}

impl Area {
    /// A structurally usable area: positive dimensions, a passability entry
    /// for every cell.
    pub open spec fn wf(&self) -> bool {
        &&& 0 < self.width
        &&& 0 < self.height
        &&& (self.width as int) * (self.height as int) <= i32::MAX as int
        &&& self.passable@.len() == (self.width as int) * (self.height as int)
    }
}

/// The campaign header: where a new game starts.
#[derive(Debug)]
pub struct Game {
    pub starting_area: String,
    pub starting_location: Point,
}

impl Clone for Game {
    fn clone(&self) -> (r: Game)
        ensures
            r == *self,
    {
        Game { starting_area: self.starting_area.clone(), starting_location: self.starting_location }
    }
}

} // verus!
