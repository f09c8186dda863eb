use sulis::abilities_bar::{AbilitiesBar, AbilityButton};
use sulis::area_state::{AbilityState, ActorState, Animation, EntityState, Location, BASE_AP};
use sulis::errors::GenError;
use sulis::game_state::GameState;
use sulis::geom::Point;
use sulis::module::{Module, ModuleBuilder};
use sulis::resources::{Ability, Actor, Area, Game, Trigger, TriggerKind};

fn open_area(id: &str, width: i32, height: i32) -> Area {
    Area {
        id: id.to_string(),
        width,
        height,
        passable: vec![true; (width * height) as usize],
        triggers: vec![
            Trigger { kind: TriggerKind::OnCampaignStart, on_activate: "campaign_start".to_string() },
            Trigger { kind: TriggerKind::OnAreaLoad, on_activate: format!("load_{}", id) },
        ],
    }
}

fn game_module() -> Module {
    let builder = ModuleBuilder {
        actor_builders: Vec::new(),
        area_builders: vec![
            ("start".to_string(), open_area("start", 8, 8)),
            ("cave".to_string(), open_area("cave", 10, 6)),
        ],
        class_builders: Vec::new(),
        item_builders: Vec::new(),
        item_adjectives: Vec::new(),
        race_builders: Vec::new(),
        size_builders: Vec::new(),
        tile_builders: Vec::new(),
        wall_kind_builders: Vec::new(),
        terrain_kind_builders: Vec::new(),
        prop_builders: Vec::new(),
        encounter_builders: Vec::new(),
        feature_builders: Vec::new(),
    };
    let game = Game { starting_area: "start".to_string(), starting_location: Point { x: 2, y: 2 } };
    Module::init(builder, game)
}

fn hero() -> Actor {
    Actor { id: "hero".to_string(), name: "Hero".to_string(), abilities: Vec::new() }
}

fn npc_entity(state: &GameState, name: &str) -> EntityState {
    let area = &state.areas[0].area;
    EntityState {
        actor: ActorState {
            actor: Actor { id: name.to_string(), name: name.to_string(), abilities: Vec::new() },
            ap: BASE_AP,
            move_ap_cost: 1,
            ability_states: Vec::new(),
        },
        party_member: false,
        location: Location::new(5, 5, area),
        size_w: 1,
        size_h: 1,
    }
}

#[test]
fn init_sets_up_party_and_triggers() {
    let module = game_module();
    let mut state = GameState::init(hero(), &module).unwrap();
    assert_eq!(state.player(), 0);
    assert_eq!(state.party(), vec![0]);
    assert_eq!(state.selected(), vec![0]);
    assert!(state.areas[0].on_load_fired);
    // campaign-start and area-load callbacks were queued, newest taken first
    let cb = state.check_get_ui_callback().unwrap();
    assert_eq!(cb.on_trigger, "load_start");
    let cb2 = state.check_get_ui_callback().unwrap();
    assert_eq!(cb2.on_trigger, "campaign_start");
    assert!(state.check_get_ui_callback().is_none());
}

#[test]
fn init_without_starting_area_is_not_found() {
    let builder = ModuleBuilder {
        actor_builders: Vec::new(),
        area_builders: Vec::new(),
        class_builders: Vec::new(),
        item_builders: Vec::new(),
        item_adjectives: Vec::new(),
        race_builders: Vec::new(),
        size_builders: Vec::new(),
        tile_builders: Vec::new(),
        wall_kind_builders: Vec::new(),
        terrain_kind_builders: Vec::new(),
        prop_builders: Vec::new(),
        encounter_builders: Vec::new(),
        feature_builders: Vec::new(),
    };
    let game = Game { starting_area: "start".to_string(), starting_location: Point { x: 2, y: 2 } };
    let module = Module::init(builder, game);
    assert_eq!(GameState::init(hero(), &module).err().unwrap(), GenError::NotFound);
}

#[test]
fn selection_keeps_party_order_and_membership() {
    let module = game_module();
    let mut state = GameState::init(hero(), &module).unwrap();
    let npc = npc_entity(&state, "bandit");
    state.entities.push(npc);
    state.add_party_member(1);
    assert!(state.entities[1].party_member);
    assert_eq!(state.party(), vec![0, 1]);

    // requested out of order: selection still follows party order
    state.select_party_members(vec![1, 0]);
    assert_eq!(state.selected(), vec![0, 1]);

    // a non-member is never selected
    let stranger = npc_entity(&state, "stranger");
    state.entities.push(stranger);
    state.select_party_members(vec![2]);
    assert_eq!(state.selected(), Vec::<usize>::new());

    state.set_selected_party_member(1);
    assert_eq!(state.selected(), vec![1]);
    state.clear_selected_party_member();
    assert!(state.selected().is_empty());
}

#[test]
fn modal_lock_is_a_plain_flag() {
    let module = game_module();
    let mut state = GameState::init(hero(), &module).unwrap();
    assert!(!state.is_modal_locked());
    state.set_modal_locked(true);
    assert!(state.is_modal_locked());
    state.set_modal_locked(false);
    assert!(!state.is_modal_locked());
}

#[test]
fn script_invocations_queue_in_order() {
    let module = game_module();
    let mut state = GameState::init(hero(), &module).unwrap();
    state.execute_ability_on_activate(0, "fireball");
    state.execute_trigger_script("door_script", "on_open", 0, 0);
    let last = state.take_script_invocation().unwrap();
    assert_eq!(last.script, "door_script");
    assert_eq!(last.func, "on_open");
    let first = state.take_script_invocation().unwrap();
    assert_eq!(first.script, "fireball");
    assert_eq!(first.func, "on_activate");
    assert!(state.take_script_invocation().is_none());
}

#[test]
fn blocking_animations_are_tracked_per_entity() {
    let module = game_module();
    let mut state = GameState::init(hero(), &module).unwrap();
    state.add_animation(Animation::move_anim(0, vec![Point { x: 3, y: 3 }], 100));
    // queued animations only join the running set on update
    assert!(!state.has_blocking_animations(0));
    let active = state.update(10);
    assert_eq!(active, None);
    assert!(state.has_blocking_animations(0));
    assert!(!state.has_blocking_animations(1));

    state.remove_blocking_animations(0);
    // marked animations are dropped on the next update
    state.update(10);
    assert!(!state.has_blocking_animations(0));
}

#[test]
fn clear_anims_flag_clears_blocking_animations() {
    let module = game_module();
    let mut state = GameState::init(hero(), &module).unwrap();
    state.add_animation(Animation::move_anim(0, Vec::new(), 1000));
    state.update(1);
    assert!(state.has_blocking_animations(0));
    state.set_clear_anims();
    // the clearing frame marks the blocking animation; it survives marked
    // and disappears on the following frame
    state.update(1);
    assert!(state.has_blocking_animations(0));
    assert!(state.animations.iter().all(|a| !a.blocking || a.marked));
    state.update(1);
    assert!(!state.has_blocking_animations(0));
}

#[test]
fn animations_expire_by_duration() {
    let module = game_module();
    let mut state = GameState::init(hero(), &module).unwrap();
    state.add_animation(Animation::move_anim(0, Vec::new(), 30));
    state.update(20);
    assert!(state.has_blocking_animations(0));
    state.update(20);
    assert!(!state.has_blocking_animations(0));
}

#[test]
fn movement_needs_ap_and_a_path() {
    let module = game_module();
    let mut state = GameState::init(hero(), &module).unwrap();
    // no path found: no move
    assert!(!state.move_to(0, 4, 4, None, 100));
    // a path starts the move
    let path = vec![Point { x: 3, y: 3 }, Point { x: 4, y: 4 }];
    assert!(state.move_to(0, 4, 4, Some(path), 100));
    state.update(1);
    assert!(state.has_blocking_animations(0));
    // the action-point gate lives in the queries; a found path always moves
    state.entities[0].actor.ap = 0;
    assert!(!state.can_move_to(0, 4, 4, true));
    assert!(state.move_to(0, 4, 4, Some(vec![Point { x: 3, y: 3 }]), 100));
    state.entities[0].actor.ap = BASE_AP;
    assert!(state.can_move_to(0, 4, 4, true));
    assert!(!state.can_move_to(0, 4, 4, false));
}

#[test]
fn transition_moves_the_party_between_areas() {
    let module = game_module();
    let mut state = GameState::init(hero(), &module).unwrap();
    assert_eq!(state.area_state_ids(), vec!["start".to_string()]);

    state.transition(&Some("cave".to_string()), 4, 3, &module);
    assert_eq!(state.area_state_ids(), vec!["start".to_string(), "cave".to_string()]);
    assert_eq!(state.area_state(), 1);
    assert_eq!(state.get_area_state("cave"), Some(1));
    let pc = &state.entities[0];
    assert_eq!(pc.location.area_id, "cave");
    assert!((0..10).contains(&pc.location.x) && (0..6).contains(&pc.location.y));
    // the cave's area-load trigger fired on first entry
    let cb = state.check_get_ui_callback().unwrap();
    assert_eq!(cb.on_trigger, "load_cave");

    // an unknown destination changes nothing
    state.transition(&Some("nowhere".to_string()), 1, 1, &module);
    assert_eq!(state.area_state(), 1);

    // a target outside the destination changes nothing
    state.transition(&Some("start".to_string()), 50, 50, &module);
    assert_eq!(state.area_state(), 1);
}

#[test]
fn turn_mode_queries_follow_the_timer() {
    let module = game_module();
    let mut state = GameState::init(hero(), &module).unwrap();
    assert!(!state.is_in_turn_mode());
    assert!(!state.is_pc_current());
    state.areas[0].turn_timer.active = true;
    state.areas[0].turn_timer.current = Some(0);
    assert!(state.is_in_turn_mode());
    assert!(state.is_pc_current());
    assert!(state.is_current(0));
    assert!(!state.is_current(1));
}

#[test]
fn passability_respects_grid_and_entities() {
    let module = game_module();
    let mut state = GameState::init(hero(), &module).unwrap();
    // the player character stands at (2, 2)
    assert!(!state.is_passable_size(0, 1, 1, 2, 2));
    assert!(state.is_passable_size(0, 1, 1, 5, 5));
    assert!(!state.is_passable_size(0, 1, 1, 8, 8));
    // a location search walks off an occupied spot
    let mut loc = Location::new(2, 2, &state.areas[0].area);
    state.find_transition_location(&mut loc, 1, 1);
    assert!(state.is_passable_size(0, 1, 1, loc.x, loc.y));
    // listeners are a plain registry
    state.add_party_listener("portrait_pane".to_string());
    assert_eq!(state.party_listeners.len(), 1);
}

#[test]
fn ability_buttons_mirror_the_actor_state() {
    let fire = Ability { id: "fire".to_string(), name: "Fire".to_string() };
    let ice = Ability { id: "ice".to_string(), name: "Ice".to_string() };
    let actor = ActorState {
        actor: Actor {
            id: "mage".to_string(),
            name: "Mage".to_string(),
            abilities: vec![fire, ice],
        },
        ap: 4,
        move_ap_cost: 1,
        ability_states: vec![("fire".to_string(), AbilityState { remaining_duration_rounds: 0 })],
    };
    let bar = AbilitiesBar::new(3);
    assert_eq!(bar.entity, 3);
    let buttons = bar.buttons(&actor);
    // only the ability with live state gets a button
    assert_eq!(buttons.len(), 1);
    assert_eq!(buttons[0].ability, "fire");
    assert_eq!(buttons[0].entity, 3);
    assert!(buttons[0].is_enabled(&actor));
    assert_eq!(buttons[0].duration_rounds(&actor), None);

    let cooling = ActorState {
        ability_states: vec![("fire".to_string(), AbilityState { remaining_duration_rounds: 2 })],
        ..actor
    };
    let button = AbilityButton::new("fire", 3);
    assert!(!button.is_enabled(&cooling));
    assert_eq!(button.duration_rounds(&cooling), Some(2));
}

#[test]
fn party_changes_notify_the_listeners() {
    let module = game_module();
    let mut state = GameState::init(hero(), &module).unwrap();
    let base = state.party_notifications.len();
    let npc = npc_entity(&state, "bandit");
    state.entities.push(npc);
    state.add_party_member(1);
    assert_eq!(state.party_notifications.len(), base + 1);
    assert_eq!(state.party_notifications[base], Some(0));
    state.select_party_members(vec![1]);
    assert_eq!(state.party_notifications.len(), base + 2);
    assert_eq!(state.party_notifications[base + 1], Some(1));
    state.clear_selected_party_member();
    assert_eq!(state.party_notifications[base + 2], None);
}
