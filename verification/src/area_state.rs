//! Runtime state models for areas, entities, turn order and animations: the
//! bookkeeping layer built on top of generated areas.

use vstd::prelude::*;
use crate::geom::Point;
use crate::resources::{Actor, Area};

verus! {

/// A position within a named area, carrying the area's bounds so validity
/// is a property of the location alone.
pub struct Location {
    pub x: i32,
    pub y: i32,
    pub area_id: String,
    pub area_width: i32,
    pub area_height: i32,
}

impl Clone for Location {
    fn clone(&self) -> (r: Location)
        ensures
            r == *self,
    {
        Location {
            x: self.x,
            y: self.y,
            area_id: self.area_id.clone(),
            area_width: self.area_width,
            area_height: self.area_height,
        }
    }
}

impl Location {
    /// A location at `(x, y)` in `area`.
    pub fn new(x: i32, y: i32, area: &Area) -> (r: Location)
        ensures
            r.x == x,
            r.y == y,
            r.area_id@ == area.id@,
            r.area_width == area.width,
            r.area_height == area.height,
    {
        Location {
            x,
            y,
            area_id: area.id.clone(),
            area_width: area.width,
            area_height: area.height,
        }
    }

    /// A location at point `p` in `area`.
    pub fn from_point(p: &Point, area: &Area) -> (r: Location)
        ensures
            r.x == p.x,
            r.y == p.y,
            r.area_id@ == area.id@,
            r.area_width == area.width,
            r.area_height == area.height,
    {
        Location::new(p.x, p.y, area)
    }

    /// Whether `(x, y)` lies inside this location's area.
    pub open spec fn spec_coords_valid(&self, x: int, y: int) -> bool {
        0 <= x < self.area_width && 0 <= y < self.area_height
    }

    pub fn coords_valid(&self, x: i32, y: i32) -> (r: bool)
        ensures
            r == self.spec_coords_valid(x as int, y as int),
    {
        0 <= x && x < self.area_width && 0 <= y && y < self.area_height
    }
}

/// A fresh turn's action points.
pub const BASE_AP: u32 = 6;

/// The live state of one ability on an actor.
#[derive(Clone, Copy, PartialEq, Eq, Structural, Debug)]
pub struct AbilityState {
    pub remaining_duration_rounds: u32,
}

/// The live state of an actor: its template, its action points and the
/// state of each ability it owns.
pub struct ActorState {
    pub actor: Actor,
    pub ap: u32,
    /// Action points one square of movement costs.
    pub move_ap_cost: u32,
    pub ability_states: Vec<(String, AbilityState)>,
}

/// The ability state stored under `id`, scanning from entry `i`.
pub open spec fn ability_state_from(
    s: Seq<(String, AbilityState)>,
    id: Seq<char>,
    i: int,
) -> Option<AbilityState>
    decreases s.len() - i,
{
    if i < 0 || i >= s.len() {
        None
    } else if s[i].0@ == id {
        Some(s[i].1)
    } else {
        ability_state_from(s, id, i + 1)
    }
}

/// The ability state stored under `id`.
pub open spec fn spec_ability_state(s: Seq<(String, AbilityState)>, id: Seq<char>) -> Option<
    AbilityState,
> {
    ability_state_from(s, id, 0)
}

impl ActorState {
    /// The state of the ability named `id`, if this actor owns it.
    pub fn ability_state(&self, id: &str) -> (r: Option<AbilityState>)
        ensures
            r == spec_ability_state(self.ability_states@, id@),
    {
        let ghost s = self.ability_states@;
        let n: usize = self.ability_states.len();
        let key: String = id.to_owned();
        let mut i: usize = 0;
        while i < n
            invariant
                s == self.ability_states@,
                n == s.len(),
                0 <= i <= n,
                key@ == id@,
                ability_state_from(s, id@, 0) == ability_state_from(s, id@, i as int),
            decreases n - i,
        {
            if self.ability_states[i].0 == key {
                return Some(self.ability_states[i].1);
            }
            i = i + 1;
        }
        None
    }

    /// An ability can be activated when the actor owns it, it is off
    /// cooldown, and the actor has any action points left.
    pub open spec fn spec_can_activate(&self, id: Seq<char>) -> bool {
        match spec_ability_state(self.ability_states@, id) {
            Some(st) => st.remaining_duration_rounds == 0 && self.ap > 0,
            None => false,
        }
    }

    pub fn can_activate(&self, id: &str) -> (r: bool)
        ensures
            r == self.spec_can_activate(id@),
    {
        match self.ability_state(id) {
            Some(st) => st.remaining_duration_rounds == 0 && self.ap > 0,
            None => false,
        }
    }
}

/// The live state of one entity on the map.
pub struct EntityState {
    pub actor: ActorState,
    pub party_member: bool,
    pub location: Location,
    pub size_w: i32,
    pub size_h: i32,
}

impl EntityState {
    pub fn is_party_member(&self) -> (r: bool)
        ensures
            r == self.party_member,
    {
        self.party_member
    }

    pub fn set_party_member(&mut self, member: bool)
        ensures
            *final(self) == (EntityState { party_member: member, ..*old(self) }),
    {
        self.party_member = member;
    }
}

/// Turn order: whether turn mode is active and whose turn it is (an entity
/// index).
#[derive(Clone, Copy, PartialEq, Eq, Structural, Debug)]
pub struct TurnTimer {
    pub active: bool,
    pub current: Option<usize>,
}

impl TurnTimer {
    pub fn is_active(&self) -> (r: bool)
        ensures
            r == self.active,
    {
        self.active
    }

    pub fn current(&self) -> (r: Option<usize>)
        ensures
            r == self.current,
    {
        self.current
    }
}

/// The live state of one loaded area: its static definition, the entities
/// standing in it, its turn timer and its trigger bookkeeping.
pub struct AreaState {
    pub area: Area,
    pub turn_timer: TurnTimer,
    pub on_load_fired: bool,
    pub populated: bool,
}

impl AreaState {
    /// Fresh state over a static area definition: turn mode off, triggers
    /// not fired, nothing populated yet.
    pub fn new(area: Area) -> (r: AreaState)
        ensures
            r.area == area,
            r.turn_timer == (TurnTimer { active: false, current: None::<usize> }),
            !r.on_load_fired,
            !r.populated,
    {
        AreaState {
            area,
            turn_timer: TurnTimer { active: false, current: None },
            on_load_fired: false,
            populated: false,
        }
    }

    /// Marks the area's one-time content (spawned encounters and props) as
    /// placed.
    pub fn populate(&mut self)
        ensures
            *final(self) == (AreaState { populated: true, ..*old(self) }),
    {
        self.populated = true;
    }

    pub fn turn_timer(&self) -> (r: TurnTimer)
        ensures
            r == self.turn_timer,
    {
        self.turn_timer
    }
}

/// One running animation: who owns it, whether it blocks input, whether it
/// was marked for removal, how long it still runs, and the path it moves
/// its owner along (empty for non-movement animations).
pub struct Animation {
    pub owner: usize,
    pub blocking: bool,
    pub marked: bool,
    pub remaining_millis: u32,
    pub path: Vec<Point>,
}

impl Animation {
    /// A movement animation along `path`.
    pub fn move_anim(owner: usize, path: Vec<Point>, duration_millis: u32) -> (r: Animation)
        ensures
            r.owner == owner,
            r.blocking,
            !r.marked,
            r.remaining_millis == duration_millis,
            r.path == path,
    {
        Animation { owner, blocking: true, marked: false, remaining_millis: duration_millis, path }
    }

    pub fn is_blocking(&self) -> (r: bool)
        ensures
            r == self.blocking,
    {
        self.blocking
    }

    pub fn get_owner(&self) -> (r: usize)
        ensures
            r == self.owner,
    {
        self.owner
    }

    pub fn mark_for_removal(&mut self)
        ensures
            *final(self) == (Animation { marked: true, ..*old(self) }),
    {
        self.marked = true;
    }

    /// Advances the animation by `millis` and says whether it should be
    /// retained: an animation survives until its time runs out or it is
    /// marked for removal.
    pub fn update(&mut self, millis: u32) -> (r: bool)
        ensures
            final(self).remaining_millis as int == (if old(self).remaining_millis >= millis {
                old(self).remaining_millis - millis
            } else {
                0
            }),
            final(self).owner == old(self).owner,
            final(self).blocking == old(self).blocking,
            final(self).marked == old(self).marked,
            final(self).path == old(self).path,
            r == (!final(self).marked && final(self).remaining_millis > 0),
    {
        if self.remaining_millis >= millis {
            self.remaining_millis = self.remaining_millis - millis;
        } else {
            self.remaining_millis = 0;
        }
        !self.marked && self.remaining_millis > 0
    }
}

} // verus!
