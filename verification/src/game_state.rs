//! The running game's bookkeeping: the loaded areas, the party and the
//! current selection, queued interface callbacks, animations, and the
//! decisions around movement and area transitions.
//!
//! Entities are identified by their index in the state's entity arena; an
//! entity's `location.area_id` says which area it stands in.  Script
//! execution and pathfinding are outside collaborators: scripts to run are
//! queued as plain invocation records, and movement decisions take the path
//! the caller's pathfinder found.

use vstd::prelude::*;
use crate::area_state::{Animation, AreaState, EntityState, Location};
use crate::errors::GenError;
use crate::geom::Point;
use crate::module::Module;
use crate::resources::{Actor, Area, Game, Trigger, TriggerKind, area_equiv};

verus! {

/// A queued interface callback: a trigger's script reference with the
/// entities it concerns.
pub struct UICallback {
    pub on_trigger: String,
    pub parent: usize,
    pub target: usize,
}

/// The outcome of an attack, as scripts see it.
#[derive(Clone, Copy, PartialEq, Eq, Structural, Debug)]
pub enum HitKind {
    Miss,
    Graze,
    Hit,
    Crit,
}

/// A script call recorded for the scripting layer to execute: which script,
/// which function, and the entities involved.
pub struct ScriptInvocation {
    pub script: String,
    pub func: String,
    pub parent: usize,
    pub target: Option<usize>,
    pub targets: Vec<usize>,
    pub selected_point: Option<Point>,
    pub hit_kind: Option<HitKind>,
}

/// What the running game does next when the current screen ends.
#[derive(Debug)]
pub enum NextGameStep {
    Exit,
    NewCampaign { pc_actor: String },
    LoadCampaign { save_id: String },
    MainMenu,
}

/// A rectangle of area cells is passable: inside the area and every cell
/// stand-able.
pub open spec fn spec_rect_passable(area: Area, x: int, y: int, w: int, h: int) -> bool {
    &&& 0 <= x
    &&& 0 <= y
    &&& x + w <= area.width
    &&& y + h <= area.height
    &&& forall|dx: int, dy: int|
        0 <= dx < w && 0 <= dy < h ==> #[trigger] area.passable@[(x + dx) + (y + dy)
            * area.width] == true
}

/// No entity standing in the area named `area_id` overlaps the rectangle.
pub open spec fn spec_rect_entity_free(
    entities: Seq<EntityState>,
    area_id: Seq<char>,
    x: int,
    y: int,
    w: int,
    h: int,
) -> bool {
    forall|i: int|
        0 <= i < entities.len() && (#[trigger] entities[i]).location.area_id@ == area_id ==> !(
        entities[i].location.x < x + w && x < entities[i].location.x + entities[i].size_w
            && entities[i].location.y < y + h && y < entities[i].location.y + entities[i].size_h)
}

/// The selection one `select_party_members` call produces from the first
/// `k` party members: each party member, in party order, repeated once per
/// occurrence among the requested members.
pub open spec fn select_take(party: Seq<usize>, members: Seq<usize>, k: int) -> Seq<usize>
    decreases k,
{
    if k <= 0 || k > party.len() {
        Seq::empty()
    } else {
        select_take(party, members, k - 1) + matches_take(party[k - 1], members, members.len() as int)
    }
}

/// The occurrences of `p` among the first `k` requested members, each
/// contributing one copy of `p`.
pub open spec fn matches_take(p: usize, members: Seq<usize>, k: int) -> Seq<usize>
    decreases k,
{
    if k <= 0 || k > members.len() {
        Seq::empty()
    } else {
        matches_take(p, members, k - 1) + (if members[k - 1] == p {
            seq![p]
        } else {
            Seq::empty()
        })
    }
}

/// The interface callbacks that the first `k` triggers of kind `kind`
/// produce.
pub open spec fn ui_cbs_take(
    callbacks: Seq<Trigger>,
    kind: TriggerKind,
    parent: usize,
    target: usize,
    k: int,
) -> Seq<UICallback>
    decreases k,
{
    if k <= 0 || k > callbacks.len() {
        Seq::empty()
    } else {
        ui_cbs_take(callbacks, kind, parent, target, k - 1) + (if callbacks[k - 1].kind == kind {
            seq![
                UICallback { on_trigger: callbacks[k - 1].on_activate, parent, target },
            ]
        } else {
            Seq::empty()
        })
    }
}

/// Party member `k` stands in the destination area, within the bounded
/// search window of the target, either exactly on the target or on a
/// passable spot (its footprint clamped to at least one cell).
pub open spec fn spec_member_placed(g: GameState, dest: int, x: int, y: int, k: int) -> bool {
    let area = g.spec_areas()[dest].area;
    let ent = g.spec_entities()[g.spec_party()[k] as int];
    let w: int = if ent.size_w > 0 {
        ent.size_w as int
    } else {
        1
    };
    let h: int = if ent.size_h > 0 {
        ent.size_h as int
    } else {
        1
    };
    &&& ent.location.area_id@ == area.id@
    &&& ent.location.area_width == area.width
    &&& ent.location.area_height == area.height
    &&& x - 9 <= ent.location.x <= x + 9
    &&& y - 9 <= ent.location.y <= y + 9
    &&& ((ent.location.x == x && ent.location.y == y) || spec_rect_passable(
        area,
        ent.location.x as int,
        ent.location.y as int,
        w,
        h,
    ))
}

/// The area move went through: the destination is the current area, the
/// target was inside it, a clear of blocking animations is pending, and
/// every party member stands near the target as `spec_member_placed` says.
pub open spec fn spec_transition_applied(old: GameState, new: GameState, x: int, y: int) -> bool {
    let dest = new.spec_current_area();
    let area = new.spec_areas()[dest].area;
    &&& 0 <= dest < new.spec_areas().len()
    &&& 0 <= x < area.width
    &&& 0 <= y < area.height
    &&& new.spec_clear_anims()
    &&& new.spec_party() == old.spec_party()
    &&& new.spec_selected() == old.spec_selected()
    &&& new.spec_entities().len() == old.spec_entities().len()
    &&& forall|k: int|
        0 <= k < new.spec_party().len() ==> #[trigger] spec_member_placed(new, dest, x, y, k)
}

/// One frame's advance of a single animation: its clock runs down by
/// `millis`, stopping at zero.
pub open spec fn spec_advance(a: Animation, millis: u32) -> Animation {
    Animation {
        remaining_millis: if a.remaining_millis >= millis {
            (a.remaining_millis - millis) as u32
        } else {
            0u32
        },
        ..a
    }
}

/// An animation survives a frame while it is unmarked and has time left.
pub open spec fn spec_anim_live(a: Animation) -> bool {
    !a.marked && a.remaining_millis > 0
}

/// A pending clear request marks a blocking animation for removal.
pub open spec fn spec_mark_blocking(a: Animation) -> Animation {
    if a.blocking {
        Animation { marked: true, ..a }
    } else {
        a
    }
}

/// The animation list one update frame produces from `anims`: every
/// animation advances once, those whose update returned false are dropped
/// (order kept), and — when the clear flag was pending — the surviving
/// blocking ones come out marked, to disappear on the next frame.
pub open spec fn spec_updated_anims(anims: Seq<Animation>, millis: u32, clear: bool) -> Seq<
    Animation,
>
    decreases anims.len(),
{
    if anims.len() == 0 {
        Seq::empty()
    } else {
        let rest = spec_updated_anims(anims.drop_last(), millis, clear);
        let a = spec_advance(anims.last(), millis);
        if spec_anim_live(a) {
            rest.push(
                if clear {
                    spec_mark_blocking(a)
                } else {
                    a
                },
            )
        } else {
            rest
        }
    }
}

pub proof fn lemma_updated_take_succ(anims: Seq<Animation>, j: int, millis: u32, clear: bool)
    requires
        0 <= j < anims.len(),
    ensures
        spec_updated_anims(anims.take(j + 1), millis, clear) == ({
            let rest = spec_updated_anims(anims.take(j), millis, clear);
            let a = spec_advance(anims[j], millis);
            if spec_anim_live(a) {
                rest.push(
                    if clear {
                        spec_mark_blocking(a)
                    } else {
                        a
                    },
                )
            } else {
                rest
            }
        }),
{
    assert(anims.take(j + 1).drop_last() =~= anims.take(j));
    assert(anims.take(j + 1).last() == anims[j]);
}

/// Every animation an update frame leaves behind has time left, is marked
/// only by a pending clear (and then only if blocking), and — under a
/// pending clear — every surviving blocking one is marked.
pub proof fn lemma_updated_anims_live(anims: Seq<Animation>, millis: u32, clear: bool)
    ensures
        forall|i: int|
            0 <= i < spec_updated_anims(anims, millis, clear).len() ==> {
                let a = #[trigger] spec_updated_anims(anims, millis, clear)[i];
                &&& a.remaining_millis > 0
                &&& (a.marked ==> clear && a.blocking)
                &&& (clear && a.blocking ==> a.marked)
            },
    decreases anims.len(),
{
    if anims.len() > 0 {
        lemma_updated_anims_live(anims.drop_last(), millis, clear);
        let rest = spec_updated_anims(anims.drop_last(), millis, clear);
        assert forall|i: int|
            0 <= i < spec_updated_anims(anims, millis, clear).len() implies {
            let a = #[trigger] spec_updated_anims(anims, millis, clear)[i];
            &&& a.remaining_millis > 0
            &&& (a.marked ==> clear && a.blocking)
            &&& (clear && a.blocking ==> a.marked)
        } by {
            if i < rest.len() {
                assert(spec_updated_anims(anims, millis, clear)[i] == rest[i]);
            }
        }
    }
}

/// The running game state.
pub struct GameState {
    pub entities: Vec<EntityState>,
    pub areas: Vec<AreaState>,
    pub current_area: usize,
    pub party: Vec<usize>,
    pub selected: Vec<usize>,
    pub party_listeners: Vec<String>,
    /// One entry per party or selection change, for the interface layer's
    /// listeners: the first selected member at the time of the change.
    pub party_notifications: Vec<Option<usize>>,
    pub ui_callbacks: Vec<UICallback>,
    pub modal_locked: bool,
    pub clear_anims: bool,
    pub animations: Vec<Animation>,
    pub anims_to_add: Vec<Animation>,
    pub script_queue: Vec<ScriptInvocation>,
}

impl GameState {
    pub open spec fn spec_entities(&self) -> Seq<EntityState> {
        self.entities@
    }

    pub open spec fn spec_areas(&self) -> Seq<AreaState> {
        self.areas@
    }

    pub open spec fn spec_current_area(&self) -> int {
        self.current_area as int
    }

    pub open spec fn spec_party(&self) -> Seq<usize> {
        self.party@
    }

    pub open spec fn spec_selected(&self) -> Seq<usize> {
        self.selected@
    }

    pub open spec fn spec_party_listeners(&self) -> Seq<String> {
        self.party_listeners@
    }

    pub open spec fn spec_party_notifications(&self) -> Seq<Option<usize>> {
        self.party_notifications@
    }

    pub open spec fn spec_ui_callbacks(&self) -> Seq<UICallback> {
        self.ui_callbacks@
    }

    pub open spec fn spec_modal_locked(&self) -> bool {
        self.modal_locked
    }

    pub open spec fn spec_clear_anims(&self) -> bool {
        self.clear_anims
    }

    pub open spec fn spec_animations(&self) -> Seq<Animation> {
        self.animations@
    }

    pub open spec fn spec_anims_to_add(&self) -> Seq<Animation> {
        self.anims_to_add@
    }

    pub open spec fn spec_script_queue(&self) -> Seq<ScriptInvocation> {
        self.script_queue@
    }

    /// Structural soundness: the current area exists, every party and
    /// selection index names an entity, and every loaded area is usable.
    pub open spec fn wf(&self) -> bool {
        &&& self.spec_current_area() < self.spec_areas().len()
        &&& forall|i: int|
            0 <= i < self.spec_party().len() ==> (#[trigger] self.spec_party()[i]) < self.spec_entities().len()
        &&& forall|i: int|
            0 <= i < self.spec_selected().len() ==> (#[trigger] self.spec_selected()[i]) < self.spec_entities().len()
        &&& forall|i: int| 0 <= i < self.spec_areas().len() ==> (#[trigger] self.spec_areas()[i]).area.wf()
    }

    /// Two states with the same entities, areas, party, selection and
    /// current area are equally sound: well-formedness does not depend on
    /// the queues, flags or animations.
    pub proof fn lemma_wf_frame(a: GameState, b: GameState)
        requires
            a.wf(),
            b.spec_party() == a.spec_party(),
            b.spec_selected() == a.spec_selected(),
            b.spec_areas() == a.spec_areas(),
            b.spec_entities().len() == a.spec_entities().len(),
            b.spec_current_area() < b.spec_areas().len(),
        ensures
            b.wf(),
    {
        assert forall|i: int|
            0 <= i < b.spec_party().len() implies (#[trigger] b.spec_party()[i])
            < b.spec_entities().len() by {
            assert((#[trigger] a.spec_party()[i]) < a.spec_entities().len());
        }
        assert forall|i: int|
            0 <= i < b.spec_selected().len() implies (#[trigger] b.spec_selected()[i])
            < b.spec_entities().len() by {
            assert((#[trigger] a.spec_selected()[i]) < a.spec_entities().len());
        }
        assert forall|i: int|
            0 <= i < b.spec_areas().len() implies (#[trigger] b.spec_areas()[i]).area.wf() by {
            assert((#[trigger] a.spec_areas()[i]).area.wf());
        }
    }

    /// Loads the area named `area_id` from the module and sets up its live
    /// state, populated and with its triggers not yet fired.  Fails as
    /// `NotFound` exactly when the module has no such area, and as
    /// `InvalidData` when the stored area definition is unusable.
    pub fn setup_area_state(module: &Module, area_id: &str) -> (r: Result<AreaState, GenError>)
        ensures
            match r {
                Ok(st) => {
                    &&& crate::registry::spec_find(module.spec_areas(), area_id@) matches Some(a)
                        && area_equiv(st.area, a)
                    &&& st.area.wf()
                    &&& st.populated
                    &&& !st.on_load_fired
                },
                Err(e) => {
                    &&& (e == GenError::NotFound <==> crate::registry::spec_find(
                        module.spec_areas(),
                        area_id@,
                    ) is None)
                    &&& (e == GenError::NotFound || e == GenError::InvalidData)
                },
            },
    {
        let area: &Area = match module.get_area(area_id) {
            Some(a) => a,
            None => {
                return Err(GenError::NotFound);
            },
        };
        let usable: bool = 0 < area.width && 0 < area.height && {
            proof {
                assert((area.width as int) * (area.height as int) < i64::MAX as int)
                    by (nonlinear_arith)
                    requires
                        0 < area.width as int <= i32::MAX as int,
                        0 < area.height as int <= i32::MAX as int,
                ;
            }
            (area.width as i64) * (area.height as i64) <= i32::MAX as i64
                && area.passable.len() == (area.width as usize) * (area.height as usize)
        };
        if !usable {
            return Err(GenError::InvalidData);
        }
        let mut st = AreaState::new(area.clone());
        st.populate();
        Ok(st)
    }

    /// Builds the game state for a fresh campaign: the starting area is set
    /// up and the player character placed at the configured starting
    /// location, which must be valid and passable.  The player character is
    /// the whole party and the whole selection.
    pub fn new(pc_actor: Actor, module: &Module) -> (r: Result<GameState, GenError>)
        ensures
            match r {
                Ok(g) => {
                    &&& g.wf()
                    &&& g.spec_entities().len() == 1
                    &&& g.spec_party() =~= seq![0usize]
                    &&& g.spec_selected() =~= seq![0usize]
                    &&& g.spec_areas().len() == 1
                    &&& g.spec_current_area() == 0
                    &&& g.spec_entities()[0].party_member
                    &&& g.spec_ui_callbacks().len() == 0
                    &&& g.spec_script_queue().len() == 0
                    &&& !g.spec_areas()[0].on_load_fired
                    &&& (module.spec_game() matches Some(game)
                        && crate::registry::spec_find(
                        module.spec_areas(),
                        game.starting_area@,
                    ) matches Some(a) && area_equiv(g.spec_areas()[0].area, a)
                        && g.spec_entities()[0].location.x == game.starting_location.x
                        && g.spec_entities()[0].location.y == game.starting_location.y
                        && g.spec_entities()[0].location.area_id@ == a.id@
                        && spec_rect_passable(
                        g.spec_areas()[0].area,
                        game.starting_location.x as int,
                        game.starting_location.y as int,
                        1,
                        1,
                    ))
                },
                Err(e) => e == GenError::NotFound || e == GenError::InvalidData,
            },
    {
        let game: &Game = match module.game() {
            Some(g) => g,
            None => {
                return Err(GenError::NotFound);
            },
        };
        let area_state = match GameState::setup_area_state(module, game.starting_area.as_str()) {
            Ok(st) => st,
            Err(e) => {
                return Err(e);
            },
        };
        let location = Location::from_point(&game.starting_location, &area_state.area);
        if !location.coords_valid(location.x, location.y) {
            return Err(GenError::InvalidData);
        }
        if !rect_passable(&area_state.area, location.x, location.y, 1, 1) {
            return Err(GenError::InvalidData);
        }
        let pc = EntityState {
            actor: crate::area_state::ActorState {
                actor: pc_actor,
                ap: crate::area_state::BASE_AP,
                move_ap_cost: 1,
                ability_states: Vec::new(),
            },
            party_member: true,
            location,
            size_w: 1,
            size_h: 1,
        };
        let mut entities: Vec<EntityState> = Vec::new();
        entities.push(pc);
        let mut areas: Vec<AreaState> = Vec::new();
        areas.push(area_state);
        let mut party: Vec<usize> = Vec::new();
        party.push(0);
        let mut selected: Vec<usize> = Vec::new();
        selected.push(0);
        Ok(
            GameState {
                entities,
                areas,
                current_area: 0,
                party,
                selected,
                party_listeners: Vec::new(),
                party_notifications: Vec::new(),
                ui_callbacks: Vec::new(),
                modal_locked: false,
                clear_anims: false,
                animations: Vec::new(),
                anims_to_add: Vec::new(),
                script_queue: Vec::new(),
            },
        )
    }

    /// Builds the fresh campaign state and fires the campaign-start and
    /// area-load triggers of the starting area, in that order, marking the
    /// starting area's load triggers fired.
    pub fn init(pc_actor: Actor, module: &Module) -> (r: Result<GameState, GenError>)
        ensures
            match r {
                Ok(g) => {
                    &&& g.wf()
                    &&& g.spec_party() =~= seq![0usize]
                    &&& g.spec_selected() =~= seq![0usize]
                    &&& g.spec_entities().len() == 1
                    &&& g.spec_entities()[0].party_member
                    &&& g.spec_areas().len() == 1
                    &&& g.spec_current_area() == 0
                    &&& g.spec_areas()[0].on_load_fired
                    &&& (module.spec_game() matches Some(game)
                        && crate::registry::spec_find(
                        module.spec_areas(),
                        game.starting_area@,
                    ) matches Some(a) && area_equiv(g.spec_areas()[0].area, a)
                        && g.spec_entities()[0].location.x == game.starting_location.x
                        && g.spec_entities()[0].location.y == game.starting_location.y
                        && g.spec_entities()[0].location.area_id@ == a.id@
                        && g.spec_areas()[0].area.wf()
                        && spec_rect_passable(
                        g.spec_areas()[0].area,
                        game.starting_location.x as int,
                        game.starting_location.y as int,
                        1,
                        1,
                    ))
                    &&& g.spec_ui_callbacks() == ui_cbs_take(
                        g.spec_areas()[0].area.triggers@,
                        TriggerKind::OnCampaignStart,
                        0,
                        0,
                        g.spec_areas()[0].area.triggers@.len() as int,
                    ) + ui_cbs_take(
                        g.spec_areas()[0].area.triggers@,
                        TriggerKind::OnAreaLoad,
                        0,
                        0,
                        g.spec_areas()[0].area.triggers@.len() as int,
                    )
                },
                Err(e) => e == GenError::NotFound || e == GenError::InvalidData,
            },
    {
        let mut state = match GameState::new(pc_actor, module) {
            Ok(g) => g,
            Err(e) => {
                return Err(e);
            },
        };
        let pc: usize = state.player();
        let triggers: Vec<Trigger> = clone_triggers(&state.areas[0].area.triggers);
        state.add_ui_callbacks_of_kind(&triggers, TriggerKind::OnCampaignStart, pc, pc);
        state.add_ui_callbacks_of_kind(&triggers, TriggerKind::OnAreaLoad, pc, pc);
        let ghost queued = state;
        let mut first = state.areas.remove(0);
        first.on_load_fired = true;
        state.areas.insert(0, first);
        proof {
            assert(state.areas@ =~= queued.spec_areas().update(0, state.areas@[0]));
            assert(state.spec_ui_callbacks() =~= Seq::<UICallback>::empty() + ui_cbs_take(
                triggers@,
                TriggerKind::OnCampaignStart,
                0,
                0,
                triggers@.len() as int,
            ) + ui_cbs_take(triggers@, TriggerKind::OnAreaLoad, 0, 0, triggers@.len() as int));
            assert forall|i: int|
                0 <= i < state.spec_areas().len() implies (
            #[trigger] state.spec_areas()[i]).area.wf() by {
                assert(queued.spec_areas()[i].area.wf());
            }
        }
        Ok(state)
    }

    /// The player character: the first party member.
    pub fn player(&self) -> (r: usize)
        requires
            self.wf(),
            self.spec_party().len() > 0,
        ensures
            r == self.spec_party()[0],
            r < self.spec_entities().len(),
    {
        self.party[0]
    }

    /// The party, in joining order.
    pub fn party(&self) -> (r: Vec<usize>)
        ensures
            r@ == self.spec_party(),
    {
        copy_indices(&self.party)
    }

    /// The selected party members, in party order.
    pub fn selected(&self) -> (r: Vec<usize>)
        ensures
            r@ == self.spec_selected(),
    {
        copy_indices(&self.selected)
    }

    /// Replaces the selection with the requested members: each party member
    /// stays selected once per occurrence among `members`, in party order,
    /// so the selection can never hold a non-member and never breaks party
    /// order.  The listeners are notified of the new first selected member.
    pub fn select_party_members(&mut self, members: Vec<usize>)
        requires
            old(self).wf(),
        ensures
            final(self).wf(),
            final(self).spec_selected() == select_take(
                old(self).spec_party(),
                members@,
                old(self).spec_party().len() as int,
            ),
            final(self).spec_party_notifications() == old(self).spec_party_notifications().push(
                if final(self).spec_selected().len() > 0 {
                    Some(final(self).spec_selected()[0])
                } else {
                    None::<usize>
                },
            ),
            *final(self) == (GameState {
                selected: final(self).selected,
                party_notifications: final(self).party_notifications,
                ..*old(self)
            }),
    {
        let ghost party_seq = self.party@;
        let ghost members_seq = members@;
        let mut new_selected: Vec<usize> = Vec::new();
        let pn: usize = self.party.len();
        let mn: usize = members.len();
        let mut pi: usize = 0;
        while pi < pn
            invariant
                self.wf(),
                *self == *old(self),
                party_seq == self.party@,
                members_seq == members@,
                pn == party_seq.len(),
                mn == members_seq.len(),
                0 <= pi <= pn,
                new_selected@ == select_take(party_seq, members_seq, pi as int),
                forall|i: int|
                    0 <= i < new_selected@.len() ==> (#[trigger] new_selected@[i])
                        < self.spec_entities().len(),
            decreases pn - pi,
        {
            let p: usize = self.party[pi];
            proof {
                assert((#[trigger] self.spec_party()[pi as int]) < self.spec_entities().len());
                assert(p == self.spec_party()[pi as int]);
            }
            let mut mi: usize = 0;
            while mi < mn
                invariant
                    self.wf(),
                    *self == *old(self),
                    party_seq == self.party@,
                    members_seq == members@,
                    pn == party_seq.len(),
                    mn == members_seq.len(),
                    0 <= pi < pn,
                    p == party_seq[pi as int],
                    p < self.spec_entities().len(),
                    0 <= mi <= mn,
                    new_selected@ == select_take(party_seq, members_seq, pi as int)
                        + matches_take(p, members_seq, mi as int),
                    forall|i: int|
                        0 <= i < new_selected@.len() ==> (#[trigger] new_selected@[i])
                            < self.spec_entities().len(),
                decreases mn - mi,
            {
                if members[mi] == p {
                    new_selected.push(p);
                    proof {
                        assert(new_selected@ =~= select_take(party_seq, members_seq, pi as int)
                            + matches_take(p, members_seq, mi as int + 1));
                    }
                } else {
                    proof {
                        assert(new_selected@ =~= select_take(party_seq, members_seq, pi as int)
                            + matches_take(p, members_seq, mi as int + 1));
                    }
                }
                mi = mi + 1;
            }
            proof {
                assert(new_selected@ =~= select_take(party_seq, members_seq, pi as int + 1));
            }
            pi = pi + 1;
        }
        let notification: Option<usize> = if new_selected.len() > 0 {
            Some(new_selected[0])
        } else {
            None
        };
        let ghost ns = new_selected@;
        self.selected = new_selected;
        self.party_notifications.push(notification);
        proof {
            assert(self.spec_selected() == ns);
            assert forall|i: int|
                0 <= i < self.spec_selected().len() implies (#[trigger] self.spec_selected()[i])
                < self.spec_entities().len() by {
                assert(ns[i] < self.spec_entities().len());
            }
            assert forall|i: int|
                0 <= i < self.spec_party().len() implies (#[trigger] self.spec_party()[i])
                < self.spec_entities().len() by {
                assert((#[trigger] old(self).spec_party()[i]) < old(self).spec_entities().len());
            }
            assert forall|i: int|
                0 <= i < self.spec_areas().len() implies (#[trigger] self.spec_areas()[i]).area.wf() by {
                assert((#[trigger] old(self).spec_areas()[i]).area.wf());
            }
        }
    }

    /// Selects exactly this party member.
    pub fn set_selected_party_member(&mut self, entity: usize)
        requires
            old(self).wf(),
        ensures
            final(self).wf(),
            final(self).spec_selected() == select_take(
                old(self).spec_party(),
                seq![entity],
                old(self).spec_party().len() as int,
            ),
            final(self).spec_party_notifications().len() == old(
                self,
            ).spec_party_notifications().len() + 1,
            *final(self) == (GameState {
                selected: final(self).selected,
                party_notifications: final(self).party_notifications,
                ..*old(self)
            }),
    {
        let members: Vec<usize> = vec![entity];
        proof {
            assert(members@ =~= seq![entity]);
        }
        self.select_party_members(members);
    }

    /// Clears the selection.
    pub fn clear_selected_party_member(&mut self)
        requires
            old(self).wf(),
        ensures
            final(self).wf(),
            final(self).spec_selected() == select_take(
                old(self).spec_party(),
                Seq::<usize>::empty(),
                old(self).spec_party().len() as int,
            ),
            final(self).spec_party_notifications().len() == old(
                self,
            ).spec_party_notifications().len() + 1,
            *final(self) == (GameState {
                selected: final(self).selected,
                party_notifications: final(self).party_notifications,
                ..*old(self)
            }),
    {
        let members: Vec<usize> = Vec::new();
        proof {
            assert(members@ =~= Seq::<usize>::empty());
        }
        self.select_party_members(members);
    }

    /// Adds an entity to the party: it is marked as a party member and,
    /// outside turn mode, gets a fresh turn's action points.
    pub fn add_party_member(&mut self, entity: usize)
        requires
            old(self).wf(),
            entity < old(self).spec_entities().len(),
        ensures
            final(self).wf(),
            final(self).spec_party() == old(self).spec_party().push(entity),
            final(self).spec_entities().len() == old(self).spec_entities().len(),
            final(self).spec_entities()[entity as int].party_member,
            forall|i: int|
                0 <= i < old(self).spec_entities().len() && i != entity
                    ==> final(self).spec_entities()[i] == old(self).spec_entities()[i],
            final(self).spec_selected() == old(self).spec_selected(),
            final(self).spec_areas() == old(self).spec_areas(),
            final(self).spec_party_notifications() == old(self).spec_party_notifications().push(
                if old(self).spec_selected().len() > 0 {
                    Some(old(self).spec_selected()[0])
                } else {
                    None::<usize>
                },
            ),
    {
        let ghost pre_entities = self.entities@;
        let timer_active: bool = self.areas[self.current_area].turn_timer.active;
        let mut e = self.entities.remove(entity);
        e.set_party_member(true);
        if !timer_active {
            e.actor.ap = crate::area_state::BASE_AP;
        }
        self.entities.insert(entity, e);
        proof {
            assert(self.entities@ =~= pre_entities.update(
                entity as int,
                self.entities@[entity as int],
            ));
        }
        self.party.push(entity);
        let notification: Option<usize> = if self.selected.len() > 0 {
            Some(self.selected[0])
        } else {
            None
        };
        self.party_notifications.push(notification);
        proof {
            assert forall|i: int|
                0 <= i < self.spec_party().len() implies (#[trigger] self.spec_party()[i])
                < self.spec_entities().len() by {
                if i < old(self).spec_party().len() {
                    assert((#[trigger] old(self).spec_party()[i])
                        < old(self).spec_entities().len());
                }
            }
            assert forall|i: int|
                0 <= i < self.spec_selected().len() implies (#[trigger] self.spec_selected()[i])
                < self.spec_entities().len() by {
                assert((#[trigger] old(self).spec_selected()[i])
                    < old(self).spec_entities().len());
            }
        }
    }

    /// Registers a party-change listener under its id.
    pub fn add_party_listener(&mut self, listener: String)
        ensures
            final(self).spec_party_listeners() == old(self).spec_party_listeners().push(listener),
            *final(self) == (GameState {
                party_listeners: final(self).party_listeners,
                ..*old(self)
            }),
    {
        self.party_listeners.push(listener);
    }

    /// Queues the activation script of an ability.
    pub fn execute_ability_on_activate(&mut self, parent: usize, ability: &str)
        ensures
            final(self).spec_script_queue().len() == old(self).spec_script_queue().len() + 1,
            forall|i: int|
                0 <= i < old(self).spec_script_queue().len() ==> final(self).spec_script_queue()[i]
                    == old(self).spec_script_queue()[i],
            ({
                let last = final(self).spec_script_queue().last();
                last.script@ == ability@ && last.func@ == "on_activate"@ && last.parent == parent
            }),
            *final(self) == (GameState {
                script_queue: final(self).script_queue,
                ..*old(self)
            }),
    {
        self.script_queue.push(
            ScriptInvocation {
                script: ability.to_owned(),
                func: "on_activate".to_owned(),
                parent,
                target: None,
                targets: Vec::new(),
                selected_point: None,
                hit_kind: None,
            },
        );
    }

    /// Queues an ability script call with its target set.
    pub fn execute_ability_script(
        &mut self,
        parent: usize,
        ability: &str,
        targets: Vec<usize>,
        func: &str,
    )
        ensures
            final(self).spec_script_queue().len() == old(self).spec_script_queue().len() + 1,
            forall|i: int|
                0 <= i < old(self).spec_script_queue().len() ==> final(self).spec_script_queue()[i]
                    == old(self).spec_script_queue()[i],
            ({
                let last = final(self).spec_script_queue().last();
                last.script@ == ability@ && last.func@ == func@ && last.parent == parent
                    && last.targets == targets
            }),
            *final(self) == (GameState {
                script_queue: final(self).script_queue,
                ..*old(self)
            }),
    {
        self.script_queue.push(
            ScriptInvocation {
                script: ability.to_owned(),
                func: func.to_owned(),
                parent,
                target: None,
                targets,
                selected_point: None,
                hit_kind: None,
            },
        );
    }

    /// Queues an ability script call made when a target was selected.
    pub fn execute_ability_on_target_select(
        &mut self,
        parent: usize,
        ability: &str,
        targets: Vec<usize>,
        selected_point: Point,
        func: &str,
        custom_target: Option<usize>,
    )
        ensures
            final(self).spec_script_queue().len() == old(self).spec_script_queue().len() + 1,
            forall|i: int|
                0 <= i < old(self).spec_script_queue().len() ==> final(self).spec_script_queue()[i]
                    == old(self).spec_script_queue()[i],
            ({
                let last = final(self).spec_script_queue().last();
                last.script@ == ability@ && last.func@ == func@ && last.parent == parent
                    && last.targets == targets && last.selected_point == Some(selected_point)
                    && last.target == custom_target
            }),
            *final(self) == (GameState {
                script_queue: final(self).script_queue,
                ..*old(self)
            }),
    {
        self.script_queue.push(
            ScriptInvocation {
                script: ability.to_owned(),
                func: func.to_owned(),
                parent,
                target: custom_target,
                targets,
                selected_point: Some(selected_point),
                hit_kind: None,
            },
        );
    }

    /// Queues an ability script call made after an attack resolved.
    pub fn execute_ability_after_attack(
        &mut self,
        parent: usize,
        ability: &str,
        targets: Vec<usize>,
        kind: HitKind,
        func: &str,
    )
        ensures
            final(self).spec_script_queue().len() == old(self).spec_script_queue().len() + 1,
            forall|i: int|
                0 <= i < old(self).spec_script_queue().len() ==> final(self).spec_script_queue()[i]
                    == old(self).spec_script_queue()[i],
            ({
                let last = final(self).spec_script_queue().last();
                last.script@ == ability@ && last.func@ == func@ && last.parent == parent
                    && last.targets == targets && last.hit_kind == Some(kind)
            }),
            *final(self) == (GameState {
                script_queue: final(self).script_queue,
                ..*old(self)
            }),
    {
        self.script_queue.push(
            ScriptInvocation {
                script: ability.to_owned(),
                func: func.to_owned(),
                parent,
                target: None,
                targets,
                selected_point: None,
                hit_kind: Some(kind),
            },
        );
    }

    /// Queues a trigger script call.
    pub fn execute_trigger_script(
        &mut self,
        script_id: &str,
        func: &str,
        parent: usize,
        target: usize,
    )
        ensures
            final(self).spec_script_queue().len() == old(self).spec_script_queue().len() + 1,
            forall|i: int|
                0 <= i < old(self).spec_script_queue().len() ==> final(self).spec_script_queue()[i]
                    == old(self).spec_script_queue()[i],
            ({
                let last = final(self).spec_script_queue().last();
                last.script@ == script_id@ && last.func@ == func@ && last.parent == parent
                    && last.target == Some(target)
            }),
            *final(self) == (GameState {
                script_queue: final(self).script_queue,
                ..*old(self)
            }),
    {
        self.script_queue.push(
            ScriptInvocation {
                script: script_id.to_owned(),
                func: func.to_owned(),
                parent,
                target: Some(target),
                targets: Vec::new(),
                selected_point: None,
                hit_kind: None,
            },
        );
    }

    /// Pops the next queued script invocation, oldest last in.
    pub fn take_script_invocation(&mut self) -> (r: Option<ScriptInvocation>)
        ensures
            old(self).spec_script_queue().len() == 0 ==> r is None
                && final(self).spec_script_queue() == old(self).spec_script_queue(),
            old(self).spec_script_queue().len() > 0 ==> r == Some(
                old(self).spec_script_queue().last(),
            ) && final(self).spec_script_queue() == old(self).spec_script_queue().drop_last(),
            *final(self) == (GameState {
                script_queue: final(self).script_queue,
                ..*old(self)
            }),
    {
        self.script_queue.pop()
    }

    /// Queues one interface callback.
    pub fn add_ui_callback(&mut self, cb: String, parent: usize, target: usize)
        ensures
            final(self).spec_ui_callbacks() == old(self).spec_ui_callbacks().push(
                UICallback { on_trigger: cb, parent, target },
            ),
            *final(self) == (GameState {
                ui_callbacks: final(self).ui_callbacks,
                ..*old(self)
            }),
    {
        self.ui_callbacks.push(UICallback { on_trigger: cb, parent, target });
    }

    /// Queues one interface callback for every trigger of the given kind, in
    /// trigger order.
    pub fn add_ui_callbacks_of_kind(
        &mut self,
        callbacks: &Vec<Trigger>,
        kind: TriggerKind,
        parent: usize,
        target: usize,
    )
        ensures
            final(self).spec_ui_callbacks() == old(self).spec_ui_callbacks() + ui_cbs_take(
                callbacks@,
                kind,
                parent,
                target,
                callbacks@.len() as int,
            ),
            *final(self) == (GameState {
                ui_callbacks: final(self).ui_callbacks,
                ..*old(self)
            }),
    {
        let ghost cbs = callbacks@;
        let ghost pre = self.ui_callbacks@;
        let n: usize = callbacks.len();
        let mut i: usize = 0;
        proof {
            assert(self.ui_callbacks@ =~= pre + ui_cbs_take(cbs, kind, parent, target, 0));
        }
        while i < n
            invariant
                *self == (GameState { ui_callbacks: self.ui_callbacks, ..*old(self) }),
                pre == old(self).ui_callbacks@,
                cbs == callbacks@,
                n == cbs.len(),
                0 <= i <= n,
                self.ui_callbacks@ == pre + ui_cbs_take(cbs, kind, parent, target, i as int),
            decreases n - i,
        {
            let trig = &callbacks[i];
            if trig.kind == kind {
                self.ui_callbacks.push(
                    UICallback { on_trigger: trig.on_activate.clone(), parent, target },
                );
                proof {
                    assert(self.ui_callbacks@ =~= pre + ui_cbs_take(
                        cbs,
                        kind,
                        parent,
                        target,
                        i as int + 1,
                    ));
                }
            } else {
                proof {
                    assert(self.ui_callbacks@ =~= pre + ui_cbs_take(
                        cbs,
                        kind,
                        parent,
                        target,
                        i as int + 1,
                    ));
                }
            }
            i = i + 1;
        }
    }

    pub fn is_modal_locked(&self) -> (r: bool)
        ensures
            r == self.spec_modal_locked(),
    {
        self.modal_locked
    }

    pub fn set_modal_locked(&mut self, locked: bool)
        ensures
            final(self).spec_modal_locked() == locked,
            *final(self) == (GameState { modal_locked: locked, ..*old(self) }),
    {
        self.modal_locked = locked;
    }

    /// Takes the most recently queued interface callback, if any.
    pub fn check_get_ui_callback(&mut self) -> (r: Option<UICallback>)
        ensures
            old(self).spec_ui_callbacks().len() == 0 ==> r is None
                && final(self).spec_ui_callbacks() == old(self).spec_ui_callbacks(),
            old(self).spec_ui_callbacks().len() > 0 ==> r == Some(
                old(self).spec_ui_callbacks().last(),
            ) && final(self).spec_ui_callbacks() == old(self).spec_ui_callbacks().drop_last(),
            *final(self) == (GameState {
                ui_callbacks: final(self).ui_callbacks,
                ..*old(self)
            }),
    {
        self.ui_callbacks.pop()
    }

    /// Reads and clears the pending clear-animations flag.
    pub fn check_clear_anims(&mut self) -> (r: bool)
        ensures
            r == old(self).spec_clear_anims(),
            final(self).spec_clear_anims() == false,
            *final(self) == (GameState { clear_anims: false, ..*old(self) }),
    {
        let r = self.clear_anims;
        self.clear_anims = false;
        r
    }

    /// Requests that blocking animations be cleared on the next update.
    pub fn set_clear_anims(&mut self)
        ensures
            *final(self) == (GameState { clear_anims: true, ..*old(self) }),
    {
        self.clear_anims = true;
    }

    /// The ids of every loaded area, in load order.
    pub fn area_state_ids(&self) -> (r: Vec<String>)
        ensures
            r@.len() == self.spec_areas().len(),
            forall|i: int| 0 <= i < r@.len() ==> (#[trigger] r@[i])@ == self.spec_areas()[i].area.id@,
    {
        let mut out: Vec<String> = Vec::new();
        let n: usize = self.areas.len();
        let mut i: usize = 0;
        while i < n
            invariant
                n == self.spec_areas().len(),
                0 <= i <= n,
                out@.len() == i,
                forall|j: int|
                    0 <= j < i ==> (#[trigger] out@[j])@ == self.spec_areas()[j].area.id@,
            decreases n - i,
        {
            out.push(self.areas[i].area.id.clone());
            i = i + 1;
        }
        out
    }

    /// The index of the loaded area named `id`, if any.
    pub fn get_area_state(&self, id: &str) -> (r: Option<usize>)
        ensures
            match r {
                Some(i) => i < self.spec_areas().len() && self.spec_areas()[i as int].area.id@
                    == id@,
                None => forall|j: int|
                    0 <= j < self.spec_areas().len() ==> (#[trigger] self.spec_areas()[j]).area.id@
                        != id@,
            },
    {
        let key: String = id.to_owned();
        let n: usize = self.areas.len();
        let mut i: usize = 0;
        while i < n
            invariant
                n == self.spec_areas().len(),
                key@ == id@,
                0 <= i <= n,
                forall|j: int| 0 <= j < i ==> (#[trigger] self.spec_areas()[j]).area.id@ != id@,
            decreases n - i,
        {
            if self.areas[i].area.id == key {
                return Some(i);
            }
            i = i + 1;
        }
        None
    }

    /// The index of the current area.
    pub fn area_state(&self) -> (r: usize)
        ensures
            r == self.spec_current_area(),
    {
        self.current_area
    }

    /// A read-only view of the area at `index`.
    pub fn area(&self, index: usize) -> (r: &AreaState)
        requires
            index < self.spec_areas().len(),
        ensures
            *r == self.spec_areas()[index as int],
    {
        &self.areas[index]
    }

    /// A read-only view of the entity at `index`.
    pub fn entity(&self, index: usize) -> (r: &EntityState)
        requires
            index < self.spec_entities().len(),
        ensures
            *r == self.spec_entities()[index as int],
    {
        &self.entities[index]
    }

    pub fn entity_count(&self) -> (r: usize)
        ensures
            r == self.spec_entities().len(),
    {
        self.entities.len()
    }

    /// True while the current area is in turn mode.
    pub fn is_in_turn_mode(&self) -> (r: bool)
        requires
            self.wf(),
        ensures
            r == self.spec_areas()[self.spec_current_area()].turn_timer.active,
    {
        self.areas[self.current_area].turn_timer.active
    }

    /// True when a party member has the current turn.
    pub fn is_pc_current(&self) -> (r: bool)
        requires
            self.wf(),
        ensures
            r == (match self.spec_areas()[self.spec_current_area()].turn_timer.current {
                Some(e) => e < self.spec_entities().len() && self.spec_entities()[e as int].party_member,
                None => false,
            }),
    {
        match self.areas[self.current_area].turn_timer.current {
            Some(e) => e < self.entities.len() && self.entities[e].party_member,
            None => false,
        }
    }

    /// True when exactly this entity has the current turn.
    pub fn is_current(&self, entity: usize) -> (r: bool)
        requires
            self.wf(),
        ensures
            r == (self.spec_areas()[self.spec_current_area()].turn_timer.current == Some(entity)),
    {
        match self.areas[self.current_area].turn_timer.current {
            Some(e) => e == entity,
            None => false,
        }
    }

    /// True when some animation in flight blocks input on behalf of this
    /// entity.
    pub fn has_blocking_animations(&self, entity: usize) -> (r: bool)
        ensures
            r == exists|i: int|
                0 <= i < self.spec_animations().len() && (#[trigger] self.spec_animations()[i]).blocking
                    && self.spec_animations()[i].owner == entity,
    {
        let n: usize = self.animations.len();
        let mut i: usize = 0;
        while i < n
            invariant
                n == self.spec_animations().len(),
                0 <= i <= n,
                forall|j: int|
                    0 <= j < i ==> !((#[trigger] self.spec_animations()[j]).blocking
                        && self.spec_animations()[j].owner == entity),
            decreases n - i,
        {
            if self.animations[i].is_blocking() && self.animations[i].get_owner() == entity {
                return true;
            }
            i = i + 1;
        }
        false
    }

    /// Marks every blocking animation owned by this entity for removal; all
    /// other animations are untouched.
    pub fn remove_blocking_animations(&mut self, entity: usize)
        ensures
            final(self).spec_animations().len() == old(self).spec_animations().len(),
            forall|i: int|
                0 <= i < old(self).spec_animations().len() ==> final(self).spec_animations()[i]
                    == (if (#[trigger] old(self).spec_animations()[i]).blocking && old(
                        self,
                    ).spec_animations()[i].owner == entity {
                        Animation { marked: true, ..old(self).spec_animations()[i] }
                    } else {
                        old(self).spec_animations()[i]
                    }),
            *final(self) == (GameState {
                animations: final(self).animations,
                ..*old(self)
            }),
    {
        let ghost pre = self.animations@;
        let n: usize = self.animations.len();
        let mut i: usize = 0;
        while i < n
            invariant
                *self == (GameState { animations: self.animations, ..*old(self) }),
                pre == old(self).animations@,
                n == pre.len(),
                self.animations@.len() == n,
                0 <= i <= n,
                forall|j: int|
                    0 <= j < i ==> self.animations@[j] == (if (#[trigger] pre[j]).blocking
                        && pre[j].owner == entity {
                        Animation { marked: true, ..pre[j] }
                    } else {
                        pre[j]
                    }),
                forall|j: int| i <= j < n ==> self.animations@[j] == pre[j],
            decreases n - i,
        {
            if self.animations[i].is_blocking() && self.animations[i].get_owner() == entity {
                let ghost before = self.animations@;
                let mut a = self.animations.remove(i);
                a.mark_for_removal();
                self.animations.insert(i, a);
                proof {
                    assert(self.animations@ =~= before.update(i as int, self.animations@[i as int]));
                }
            }
            i = i + 1;
        }
    }

    /// Queues an animation to join the running set on the next update.
    pub fn add_animation(&mut self, anim: Animation)
        ensures
            final(self).spec_anims_to_add() == old(self).spec_anims_to_add().push(anim),
            *final(self) == (GameState {
                anims_to_add: final(self).anims_to_add,
                ..*old(self)
            }),
    {
        self.anims_to_add.push(anim);
    }

    /// One frame of animation bookkeeping: queued animations join the
    /// running set, every animation advances by `millis` exactly once and is
    /// retained (in order) exactly when its advance says so, and a pending
    /// clear request is consumed, marking the surviving blocking animations
    /// for removal on the next frame.  Returns the entity whose turn it is,
    /// for the caller's turn-taking layer, when turn mode is active.
    pub fn update(&mut self, millis: u32) -> (r: Option<usize>)
        requires
            old(self).wf(),
        ensures
            final(self).wf(),
            final(self).spec_anims_to_add().len() == 0,
            final(self).spec_clear_anims() == false,
            r == (if old(self).spec_areas()[old(self).spec_current_area()].turn_timer.active {
                old(self).spec_areas()[old(self).spec_current_area()].turn_timer.current
            } else {
                None::<usize>
            }),
            final(self).spec_animations() == spec_updated_anims(
                old(self).spec_animations() + old(self).spec_anims_to_add(),
                millis,
                old(self).spec_clear_anims(),
            ),
            final(self).spec_entities() == old(self).spec_entities(),
            final(self).spec_areas() == old(self).spec_areas(),
            final(self).spec_party() == old(self).spec_party(),
            final(self).spec_selected() == old(self).spec_selected(),
            final(self).spec_ui_callbacks() == old(self).spec_ui_callbacks(),
            final(self).spec_script_queue() == old(self).spec_script_queue(),
            final(self).spec_current_area() == old(self).spec_current_area(),
            forall|i: int|
                0 <= i < final(self).spec_animations().len()
                    ==> (#[trigger] final(self).spec_animations()[i]).remaining_millis > 0,
            old(self).spec_clear_anims() ==> forall|i: int|
                0 <= i < final(self).spec_animations().len()
                    && (#[trigger] final(self).spec_animations()[i]).blocking
                    ==> final(self).spec_animations()[i].marked,
    {
        let active: Option<usize> = if self.areas[self.current_area].turn_timer.active {
            self.areas[self.current_area].turn_timer.current
        } else {
            None
        };

        // queued animations join the running set
        let mut pending: Vec<Animation> = Vec::new();
        core::mem::swap(&mut pending, &mut self.anims_to_add);
        self.animations.append(&mut pending);
        let ghost combined = self.animations@;

        // a pending clear request marks the surviving blocking animations,
        // after their advance, so they disappear on the next frame
        let clear: bool = self.check_clear_anims();

        // advance every animation; keep the live ones, in order
        let ghost mid = *self;
        let total_n: usize = self.animations.len();
        let mut survivors: Vec<Animation> = Vec::new();
        let mut j: usize = 0;
        proof {
            assert(combined.take(0) =~= Seq::<Animation>::empty());
        }
        while j < total_n
            invariant
                *self == (GameState { animations: self.animations, ..mid }),
                total_n == combined.len(),
                0 <= j <= total_n,
                j + self.animations@.len() == total_n,
                self.animations@ =~= combined.skip(j as int),
                clear == old(self).spec_clear_anims(),
                survivors@ == spec_updated_anims(combined.take(j as int), millis, clear),
            decreases total_n - j,
        {
            let mut a = self.animations.remove(0);
            proof {
                assert(a == combined[j as int]);
                assert(self.animations@ =~= combined.skip(j as int + 1));
                lemma_updated_take_succ(combined, j as int, millis, clear);
            }
            let retain: bool = a.update(millis);
            proof {
                assert(a == spec_advance(combined[j as int], millis));
            }
            if retain {
                if clear && a.is_blocking() {
                    a.mark_for_removal();
                    proof {
                        assert(a == spec_mark_blocking(spec_advance(combined[j as int], millis)));
                    }
                }
                survivors.push(a);
            }
            j = j + 1;
        }
        self.animations = survivors;
        proof {
            assert(combined.take(total_n as int) =~= combined);
            GameState::lemma_wf_frame(*old(self), *self);
            lemma_updated_anims_live(combined, millis, clear);
        }
        active
    }

    /// Whether a `size_w` by `size_h` footprint can stand at `(x, y)` in the
    /// area at `area_index`: every cell inside and passable, and no entity
    /// standing in that area overlaps the footprint.
    pub fn is_passable_size(
        &self,
        area_index: usize,
        size_w: i32,
        size_h: i32,
        x: i32,
        y: i32,
    ) -> (r: bool)
        requires
            self.wf(),
            area_index < self.spec_areas().len(),
            0 < size_w,
            0 < size_h,
            x as int + size_w as int <= i32::MAX as int,
            y as int + size_h as int <= i32::MAX as int,
        ensures
            r == (spec_rect_passable(
                self.spec_areas()[area_index as int].area,
                x as int,
                y as int,
                size_w as int,
                size_h as int,
            ) && spec_rect_entity_free(
                self.spec_entities(),
                self.spec_areas()[area_index as int].area.id@,
                x as int,
                y as int,
                size_w as int,
                size_h as int,
            )),
    {
        if !rect_passable(&self.areas[area_index].area, x, y, size_w, size_h) {
            return false;
        }
        let ghost aid = self.areas@[area_index as int].area.id@;
        let n: usize = self.entities.len();
        let mut i: usize = 0;
        while i < n
            invariant
                self.wf(),
                area_index < self.spec_areas().len(),
                aid == self.spec_areas()[area_index as int].area.id@,
                n == self.spec_entities().len(),
                0 <= i <= n,
                forall|j: int|
                    0 <= j < i && (#[trigger] self.spec_entities()[j]).location.area_id@ == aid
                        ==> !(self.spec_entities()[j].location.x < x + size_w && x
                        < self.spec_entities()[j].location.x + self.spec_entities()[j].size_w
                        && self.spec_entities()[j].location.y < y + size_h && y
                        < self.spec_entities()[j].location.y + self.spec_entities()[j].size_h),
            decreases n - i,
        {
            let e = &self.entities[i];
            if e.location.area_id == self.areas[area_index].area.id {
                let overlap: bool = (e.location.x as i64) < (x as i64) + (size_w as i64) && (
                x as i64) < (e.location.x as i64) + (e.size_w as i64) && (e.location.y as i64) < (
                y as i64) + (size_h as i64) && (y as i64) < (e.location.y as i64) + (
                e.size_h as i64);
                if overlap {
                    return false;
                }
            }
            i = i + 1;
        }
        true
    }

    /// Whether `p` lies inside the area at `area_index`.
    pub fn check_location(&self, p: &Point, area_index: usize) -> (r: bool)
        requires
            self.wf(),
            area_index < self.spec_areas().len(),
        ensures
            r == (0 <= p.x < self.spec_areas()[area_index as int].area.width && 0 <= p.y
                < self.spec_areas()[area_index as int].area.height),
    {
        let area = &self.areas[area_index].area;
        0 <= p.x && p.x < area.width && 0 <= p.y && p.y < area.height
    }

    /// Searches outward from `location` (in the current area) for a spot
    /// where a `size_w` by `size_h` footprint can stand, and moves the
    /// location there.  Either the location is unchanged — no spot was found
    /// in the search window — or the final location is passable and free of
    /// entities.
    pub fn find_transition_location(&self, location: &mut Location, size_w: i32, size_h: i32)
        requires
            self.wf(),
            0 < size_w,
            0 < size_h,
        ensures
            final(location).area_id == old(location).area_id,
            final(location).area_width == old(location).area_width,
            final(location).area_height == old(location).area_height,
            old(location).x - 9 <= final(location).x <= old(location).x + 9,
            old(location).y - 9 <= final(location).y <= old(location).y + 9,
            (final(location).x == old(location).x && final(location).y == old(location).y) || (
            spec_rect_passable(
                self.spec_areas()[self.spec_current_area()].area,
                final(location).x as int,
                final(location).y as int,
                size_w as int,
                size_h as int,
            ) && spec_rect_entity_free(
                self.spec_entities(),
                self.spec_areas()[self.spec_current_area()].area.id@,
                final(location).x as int,
                final(location).y as int,
                size_w as int,
                size_h as int,
            )),
    {
        let base_x: i64 = location.x as i64;
        let base_y: i64 = location.y as i64;
        let mut search_size: i64 = 0;
        while search_size < 10
            invariant
                self.wf(),
                0 < size_w,
                0 < size_h,
                0 <= search_size <= 10,
                base_x == old(location).x as i64,
                base_y == old(location).y as i64,
                *location == *old(location),
            decreases 10 - search_size,
        {
            let mut dy: i64 = -search_size;
            while dy <= search_size
                invariant
                    self.wf(),
                    0 < size_w,
                    0 < size_h,
                    0 <= search_size <= 9,
                    -search_size <= dy <= search_size + 1,
                    base_x == old(location).x as i64,
                    base_y == old(location).y as i64,
                    *location == *old(location),
                decreases search_size + 1 - dy,
            {
                let mut dx: i64 = -search_size;
                while dx <= search_size
                    invariant
                        self.wf(),
                        0 < size_w,
                        0 < size_h,
                        0 <= search_size <= 9,
                        -search_size <= dx <= search_size + 1,
                        -search_size <= dy <= search_size,
                        base_x == old(location).x as i64,
                        base_y == old(location).y as i64,
                        *location == *old(location),
                    decreases search_size + 1 - dx,
                {
                    let cx: i64 = base_x + dx;
                    let cy: i64 = base_y + dy;
                    let fits: bool = 0 <= cx && cx + (size_w as i64) <= i32::MAX as i64 && 0 <= cy
                        && cy + (size_h as i64) <= i32::MAX as i64;
                    if fits {
                        let cxi: i32 = cx as i32;
                        let cyi: i32 = cy as i32;
                        if self.is_passable_size(self.current_area, size_w, size_h, cxi, cyi) {
                            location.x = cxi;
                            location.y = cyi;
                            return ;
                        }
                    }
                    dx = dx + 1;
                }
                dy = dy + 1;
            }
            search_size = search_size + 1;
        }
    }

    /// Moves the party to `(x, y)` in the named area (loading it from the
    /// module if needed) or within the current area.  Each member lands on a
    /// passable spot found near the target (or on the target itself when
    /// none exists nearby); the destination's area-load triggers fire once,
    /// on first entry.  An unknown or unusable destination leaves everything
    /// unchanged; a target outside the destination changes at most the area
    /// cache (a freshly loaded area stays loaded, as in the running game).
    pub fn transition(&mut self, area_id: &Option<String>, x: i32, y: i32, module: &Module)
        requires
            old(self).wf(),
        ensures
            final(self).wf(),
            final(self).spec_party() == old(self).spec_party(),
            final(self).spec_selected() == old(self).spec_selected(),
            final(self).spec_entities().len() == old(self).spec_entities().len(),
            (area_id matches Some(id) && (forall|j: int|
                0 <= j < old(self).spec_areas().len()
                    ==> (#[trigger] old(self).spec_areas()[j]).area.id@ != id@)
                && crate::registry::spec_find(module.spec_areas(), id@) is None) ==> *final(self)
                == *old(self),
            ({
                ||| *final(self) == *old(self)
                ||| (*final(self) == (GameState { areas: final(self).areas, ..*old(self) })
                    && final(self).spec_areas().len() == old(self).spec_areas().len() + 1
                    && (forall|j: int|
                        0 <= j < old(self).spec_areas().len()
                            ==> #[trigger] final(self).spec_areas()[j] == old(
                            self,
                        ).spec_areas()[j]))
                ||| spec_transition_applied(*old(self), *final(self), x as int, y as int)
            }),
    {
        let dest: usize = match area_id {
            Some(id) => {
                match self.get_area_state(id.as_str()) {
                    Some(idx) => idx,
                    None => {
                        match GameState::setup_area_state(module, id.as_str()) {
                            Ok(st) => {
                                self.areas.push(st);
                                proof {
                                    assert forall|i: int|
                                        0 <= i < self.spec_areas().len() implies (
                                    #[trigger] self.spec_areas()[i]).area.wf() by {
                                        if i < old(self).spec_areas().len() {
                                            let pre = *old(self);
                                            assert((#[trigger] pre.spec_areas()[i]).area.wf());
                                        }
                                    }
                                }
                                self.areas.len() - 1
                            },
                            Err(_) => {
                                return ;
                            },
                        }
                    },
                }
            },
            None => self.current_area,
        };
        proof {
            assert forall|i: int|
                0 <= i < self.spec_party().len() implies (#[trigger] self.spec_party()[i])
                < self.spec_entities().len() by {
                assert((#[trigger] old(self).spec_party()[i]) < old(self).spec_entities().len());
            }
            assert forall|i: int|
                0 <= i < self.spec_selected().len() implies (#[trigger] self.spec_selected()[i])
                < self.spec_entities().len() by {
                assert((#[trigger] old(self).spec_selected()[i])
                    < old(self).spec_entities().len());
            }
            assert forall|i: int|
                0 <= i < self.spec_areas().len() implies (#[trigger] self.spec_areas()[i]).area.wf() by {
                if i < old(self).spec_areas().len() {
                    assert((#[trigger] old(self).spec_areas()[i]).area.wf());
                }
            }
            assert(self.wf());
        }
        let ghost resolved = *self;
        let p = Point::new(x, y);
        if !self.check_location(&p, dest) {
            return ;
        }
        self.current_area = dest;
        self.set_clear_anims();
        proof {
            GameState::lemma_wf_frame(resolved, *self);
        }

        // place each party member on open ground near the target
        let ghost mid = *self;
        let pn: usize = self.party.len();
        let mut k: usize = 0;
        while k < pn
            invariant
                self.wf(),
                self.spec_party() == mid.spec_party(),
                self.spec_selected() == mid.spec_selected(),
                self.spec_areas() == mid.spec_areas(),
                self.spec_entities().len() == mid.spec_entities().len(),
                self.spec_current_area() == mid.spec_current_area(),
                self.spec_current_area() == dest,
                self.spec_clear_anims(),
                dest < self.spec_areas().len(),
                0 <= x < self.spec_areas()[dest as int].area.width,
                0 <= y < self.spec_areas()[dest as int].area.height,
                pn == self.spec_party().len(),
                0 <= k <= pn,
                forall|k2: int|
                    0 <= k2 < k ==> #[trigger] spec_member_placed(*self, dest as int, x as int,
                        y as int, k2),
            decreases pn - k,
        {
            let ent: usize = self.party[k];
            let e_ref = &self.entities[ent];
            let ew: i32 = if e_ref.size_w > 0 {
                e_ref.size_w
            } else {
                1
            };
            let eh: i32 = if e_ref.size_h > 0 {
                e_ref.size_h
            } else {
                1
            };
            let mut loc = Location::new(x, y, &self.areas[dest].area);
            self.find_transition_location(&mut loc, ew, eh);
            let ghost pre_iter = *self;
            let mut e = self.entities.remove(ent);
            e.location = loc;
            self.entities.insert(ent, e);
            proof {
                assert(self.entities@.len() == pre_iter.spec_entities().len());
                assert(self.entities@ =~= pre_iter.spec_entities().update(
                    ent as int,
                    self.entities@[ent as int],
                ));
                GameState::lemma_wf_frame(pre_iter, *self);
                assert(spec_member_placed(*self, dest as int, x as int, y as int, k as int));
                assert forall|k2: int|
                    0 <= k2 < k + 1 implies #[trigger] spec_member_placed(*self, dest as int,
                    x as int, y as int, k2) by {
                    if k2 < k {
                        assert(spec_member_placed(pre_iter, dest as int, x as int, y as int, k2));
                        if self.spec_party()[k2] != ent {
                            assert(self.spec_entities()[self.spec_party()[k2] as int]
                                == pre_iter.spec_entities()[self.spec_party()[k2] as int]);
                        }
                    }
                }
            }
            k = k + 1;
        }
        proof {
            assert(spec_transition_applied(*old(self), *self, x as int, y as int));
        }
        let ghost placed_state = *self;

        // fire the destination's area-load triggers once
        if !self.areas[dest].on_load_fired {
            let triggers: Vec<Trigger> = clone_triggers(&self.areas[dest].area.triggers);
            let ghost pre_areas = self.areas@;
            let mut a = self.areas.remove(dest);
            a.on_load_fired = true;
            self.areas.insert(dest, a);
            proof {
                assert(self.areas@ =~= pre_areas.update(dest as int, self.areas@[dest as int]));
                assert forall|i: int|
                    0 <= i < self.spec_areas().len() implies (
                #[trigger] self.spec_areas()[i]).area.wf() by {
                    assert(pre_areas[i].area.wf());
                }
                assert forall|i: int|
                    0 <= i < self.spec_party().len() implies (#[trigger] self.spec_party()[i])
                    < self.spec_entities().len() by {
                    assert((#[trigger] mid.spec_party()[i]) < mid.spec_entities().len());
                }
                assert forall|i: int|
                    0 <= i < self.spec_selected().len() implies (#[trigger] self.spec_selected()[
                    i]) < self.spec_entities().len() by {
                    assert((#[trigger] mid.spec_selected()[i]) < mid.spec_entities().len());
                }
                assert(self.wf());
            }
            let ghost fired = *self;
            proof {
                assert(self.spec_areas()[dest as int].area == mid.spec_areas()[dest as int].area);
                assert forall|k2: int|
                    0 <= k2 < self.spec_party().len() implies #[trigger] spec_member_placed(
                    *self, dest as int, x as int, y as int, k2) by {
                    assert(spec_member_placed(placed_state, dest as int, x as int, y as int, k2));
                }
            }
            if self.party.len() > 0 {
                let pc: usize = self.party[0];
                self.add_ui_callbacks_of_kind(&triggers, TriggerKind::OnAreaLoad, pc, pc);
                proof {
                    GameState::lemma_wf_frame(fired, *self);
                    assert forall|k2: int|
                        0 <= k2 < self.spec_party().len() implies #[trigger] spec_member_placed(
                        *self, dest as int, x as int, y as int, k2) by {
                        assert(spec_member_placed(fired, dest as int, x as int, y as int, k2));
                    }
                }
            }
        }
        proof {
            assert(spec_transition_applied(*old(self), *self, x as int, y as int));
        }
    }

    /// True when the entity has the action points for at least one square
    /// of movement.
    pub fn has_move_ap(&self, entity: usize) -> (r: bool)
        requires
            self.wf(),
            entity < self.spec_entities().len(),
        ensures
            r == (self.spec_entities()[entity as int].actor.ap
                >= self.spec_entities()[entity as int].actor.move_ap_cost),
    {
        self.entities[entity].actor.ap >= self.entities[entity].actor.move_ap_cost
    }

    /// The movement decision: starts a move along `path` — the route the
    /// caller's pathfinder found toward the target point — by clearing the
    /// entity's blocking animations and queueing a movement animation.
    /// Returns false, changing nothing, when no path was found; the
    /// action-point gate belongs to the `can_move` queries alone.
    pub fn move_towards_point(
        &mut self,
        entity: usize,
        path: Option<Vec<Point>>,
        anim_millis: u32,
    ) -> (r: bool)
        requires
            old(self).wf(),
            entity < old(self).spec_entities().len(),
        ensures
            final(self).wf(),
            r == (path is Some),
            !r ==> *final(self) == *old(self),
            r ==> final(self).spec_anims_to_add() == old(self).spec_anims_to_add().push(
                Animation {
                    owner: entity,
                    blocking: true,
                    marked: false,
                    remaining_millis: anim_millis,
                    path: path.unwrap(),
                },
            ),
            r ==> final(self).spec_animations().len() == old(self).spec_animations().len()
                && (forall|i: int|
                0 <= i < old(self).spec_animations().len() ==> final(self).spec_animations()[i]
                    == (if (#[trigger] old(self).spec_animations()[i]).blocking && old(
                        self,
                    ).spec_animations()[i].owner == entity {
                        Animation { marked: true, ..old(self).spec_animations()[i] }
                    } else {
                        old(self).spec_animations()[i]
                    })),
            final(self).spec_entities() == old(self).spec_entities(),
            final(self).spec_party() == old(self).spec_party(),
            final(self).spec_selected() == old(self).spec_selected(),
            final(self).spec_areas() == old(self).spec_areas(),
    {
        let path: Vec<Point> = match path {
            None => {
                return false;
            },
            Some(p) => p,
        };
        self.remove_blocking_animations(entity);
        let anim = Animation::move_anim(entity, path, anim_millis);
        self.add_animation(anim);
        proof {
            GameState::lemma_wf_frame(*old(self), *self);
        }
        true
    }

    /// Whether a move toward a point could start: the entity can afford a
    /// square of movement and the caller's pathfinder found a path.
    pub fn can_move_towards_point(&self, entity: usize, path_found: bool) -> (r: bool)
        requires
            self.wf(),
            entity < self.spec_entities().len(),
        ensures
            r == (self.spec_entities()[entity as int].actor.ap
                >= self.spec_entities()[entity as int].actor.move_ap_cost && path_found),
    {
        self.has_move_ap(entity) && path_found
    }

    /// Whether `entity` could start moving toward `target`; `path_found`
    /// reports whether the caller's pathfinder reached the target's range.
    pub fn can_move_towards(&self, entity: usize, target: usize, path_found: bool) -> (r: bool)
        requires
            self.wf(),
            entity < self.spec_entities().len(),
            target < self.spec_entities().len(),
        ensures
            r == (self.spec_entities()[entity as int].actor.ap
                >= self.spec_entities()[entity as int].actor.move_ap_cost && path_found),
    {
        self.can_move_towards_point(entity, path_found)
    }

    /// Starts moving `entity` toward `target` along the path the caller's
    /// pathfinder found.
    pub fn move_towards(
        &mut self,
        entity: usize,
        target: usize,
        path: Option<Vec<Point>>,
        anim_millis: u32,
    ) -> (r: bool)
        requires
            old(self).wf(),
            entity < old(self).spec_entities().len(),
            target < old(self).spec_entities().len(),
        ensures
            final(self).wf(),
            r == (path is Some),
            !r ==> *final(self) == *old(self),
            final(self).spec_entities() == old(self).spec_entities(),
            final(self).spec_party() == old(self).spec_party(),
    {
        self.move_towards_point(entity, path, anim_millis)
    }

    /// Whether `entity` could start moving to `(x, y)`; `path_found` reports
    /// whether the caller's pathfinder reached that point.
    pub fn can_move_to(&self, entity: usize, x: i32, y: i32, path_found: bool) -> (r: bool)
        requires
            self.wf(),
            entity < self.spec_entities().len(),
        ensures
            r == (self.spec_entities()[entity as int].actor.ap
                >= self.spec_entities()[entity as int].actor.move_ap_cost && path_found),
    {
        let _ = x;
        let _ = y;
        self.can_move_towards_point(entity, path_found)
    }

    /// Starts moving `entity` to `(x, y)` along the path the caller's
    /// pathfinder found.
    pub fn move_to(
        &mut self,
        entity: usize,
        x: i32,
        y: i32,
        path: Option<Vec<Point>>,
        anim_millis: u32,
    ) -> (r: bool)
        requires
            old(self).wf(),
            entity < old(self).spec_entities().len(),
        ensures
            final(self).wf(),
            r == (path is Some),
            !r ==> *final(self) == *old(self),
            final(self).spec_entities() == old(self).spec_entities(),
            final(self).spec_party() == old(self).spec_party(),
    {
        let _ = x;
        let _ = y;
        self.move_towards_point(entity, path, anim_millis)
    }
}

/// An owned copy of an index list.
fn copy_indices(v: &Vec<usize>) -> (r: Vec<usize>)
    ensures
        r@ == v@,
{
    let mut out: Vec<usize> = Vec::new();
    let n: usize = v.len();
    let mut i: usize = 0;
    while i < n
        invariant
            n == v@.len(),
            0 <= i <= n,
            out@ =~= v@.take(i as int),
        decreases n - i,
    {
        out.push(v[i]);
        i = i + 1;
    }
    proof {
        assert(out@ =~= v@);
    }
    out
}

/// An owned copy of a trigger list.
pub fn clone_triggers(v: &Vec<Trigger>) -> (r: Vec<Trigger>)
    ensures
        r@ == v@,
{
    let mut out: Vec<Trigger> = Vec::new();
    let n: usize = v.len();
    let mut i: usize = 0;
    while i < n
        invariant
            n == v@.len(),
            0 <= i <= n,
            out@ =~= v@.take(i as int),
        decreases n - i,
    {
        out.push(v[i].clone());
        i = i + 1;
    }
    proof {
        assert(out@ =~= v@);
    }
    out
}

/// Every cell of the rectangle lies inside the area and is passable.
pub fn rect_passable(area: &Area, x: i32, y: i32, w: i32, h: i32) -> (r: bool)
    requires
        area.wf(),
        0 < w,
        0 < h,
        x as int + w as int <= i32::MAX as int,
        y as int + h as int <= i32::MAX as int,
    ensures
        r == spec_rect_passable(*area, x as int, y as int, w as int, h as int),
{
    if x < 0 || y < 0 || x > area.width - w || y > area.height - h {
        return false;
    }
    let mut dy: i32 = 0;
    while dy < h
        invariant
            area.wf(),
            0 <= x,
            0 <= y,
            0 < w,
            0 <= dy <= h,
            x + w <= area.width,
            y + h <= area.height,
            forall|a: int, b: int|
                0 <= a < w && 0 <= b < dy ==> #[trigger] area.passable@[(x + a) + (y + b)
                    * area.width] == true,
        decreases h - dy,
    {
        let mut dx: i32 = 0;
        while dx < w
            invariant
                area.wf(),
                0 <= x,
                0 <= y,
                0 <= dx <= w,
                0 <= dy < h,
                x + w <= area.width,
                y + h <= area.height,
                forall|a: int, b: int|
                    0 <= a < w && 0 <= b < dy ==> #[trigger] area.passable@[(x + a) + (y + b)
                        * area.width] == true,
                forall|a: int|
                    0 <= a < dx ==> #[trigger] area.passable@[(x + a) + (y + dy) * area.width]
                        == true,
            decreases w - dx,
    {
            proof {
                crate::maze::lemma_grid_index(x as int + dx as int, y as int + dy as int,
                    area.width as int, area.height as int);
            }
            let idx: usize = ((x + dx) as usize) + ((y + dy) as usize) * (area.width as usize);
            if !area.passable[idx] {
                return false;
            }
            dx = dx + 1;
        }
        dy = dy + 1;
    }
    true
}

} // verus!
