use rand::rngs::StdRng;
use rand::SeedableRng;
use shared::content::{plan_procedural_terminals, sleeper_candidate_zones, TerminalRole};
use shared::culling::{zone_visibility, DoorPassage};
use shared::entities::{EnemyType, GameEntity, WallEntity, WallType};
use shared::level::{DoorType, LevelConfig, LevelGraph, Zone, ZoneConnection, ZoneId, ZoneType};
use shared::noise::{door_between, zone_door_links};
use shared::patrol::next_patrol_index;
use shared::prefab::{has_socket, select_variant, variant_candidates, SocketSide};
use shared::protocol::{
    client_debug_gizmos_enabled, console_debug_prints_enabled, gym_diagnostics_logs_enabled,
    shared_settings,
};
use shared::sleeper::{
    enter_state, scatter_bits, state_behavior, SleeperArchetype, SleeperPace, SleeperState,
};
use shared::weapons::{Magazine, TriggerOutcome};

#[test]
fn sleeper_state_hostility_and_activity() {
    assert!(!SleeperState::Dormant.is_hostile());
    assert!(!SleeperState::Dormant.is_active());
    assert!(!SleeperState::Investigating.is_hostile());
    assert!(SleeperState::Investigating.is_active());
    assert!(SleeperState::Alerted.is_hostile());
    assert!(SleeperState::Alerted.is_active());
    assert!(SleeperState::Combat.is_hostile());
    assert!(SleeperState::Combat.is_active());
}

#[test]
fn sleeper_state_display() {
    assert_eq!(SleeperState::Dormant.name(), "Dormant");
    assert_eq!(SleeperState::Investigating.name(), "Investigating");
    assert_eq!(SleeperState::Alerted.name(), "Alerted");
    assert_eq!(SleeperState::Combat.name(), "Combat");
}

#[test]
fn sleeper_defaults() {
    assert_eq!(SleeperState::default(), SleeperState::Dormant);
    assert_eq!(SleeperArchetype::default(), SleeperArchetype::Drone);
}

#[test]
fn waking_into_investigation_picks_a_point_and_walks() {
    let e = enter_state(
        SleeperState::Dormant,
        SleeperState::Investigating,
        SleeperArchetype::Drone,
        true,
        false,
        true,
    );
    assert!(e.pick_investigate_point);
    assert!(e.restart_investigation);
    assert!(!e.scream);
    assert_eq!(e.pace, Some(SleeperPace::Walk));
    let e = enter_state(
        SleeperState::Dormant,
        SleeperState::Investigating,
        SleeperArchetype::Drone,
        true,
        true,
        true,
    );
    assert!(!e.pick_investigate_point);
}

#[test]
fn only_a_ready_scout_screams() {
    let scout = enter_state(
        SleeperState::Investigating,
        SleeperState::Alerted,
        SleeperArchetype::Scout,
        true,
        false,
        false,
    );
    assert!(scout.scream);
    assert_eq!(scout.pace, Some(SleeperPace::Walk));
    let tired = enter_state(
        SleeperState::Investigating,
        SleeperState::Combat,
        SleeperArchetype::Scout,
        false,
        false,
        false,
    );
    assert!(!tired.scream);
    assert_eq!(tired.pace, Some(SleeperPace::Chase));
    let tank = enter_state(
        SleeperState::Alerted,
        SleeperState::Combat,
        SleeperArchetype::Tank,
        true,
        false,
        false,
    );
    assert!(!tank.scream);
}

#[test]
fn staying_in_a_state_does_nothing_and_dormancy_forgets() {
    let same = enter_state(
        SleeperState::Combat,
        SleeperState::Combat,
        SleeperArchetype::Scout,
        true,
        false,
        true,
    );
    assert!(!same.scream && !same.forget_targets && same.pace.is_none());
    let asleep = enter_state(
        SleeperState::Alerted,
        SleeperState::Dormant,
        SleeperArchetype::Scout,
        true,
        true,
        true,
    );
    assert!(asleep.forget_targets);
    assert!(asleep.pace.is_none());
}

#[test]
fn investigation_gives_up_when_calm() {
    let b = state_behavior(SleeperState::Investigating, true, true, true, false, false, false);
    assert_eq!(b.state, SleeperState::Dormant);
    assert_eq!(b.decay_steps, 2);
    assert!(b.abandon_investigation);
    assert!(!b.follow_investigate_point);
    let b = state_behavior(SleeperState::Investigating, false, true, true, false, false, false);
    assert_eq!(b.state, SleeperState::Investigating);
    assert_eq!(b.decay_steps, 0);
    assert!(b.follow_investigate_point);
}

#[test]
fn combat_without_players_falls_back_to_alerted() {
    let b = state_behavior(SleeperState::Combat, false, false, false, true, false, true);
    assert_eq!(b.state, SleeperState::Alerted);
    assert!(b.drop_target);
    let b = state_behavior(SleeperState::Combat, false, false, false, true, true, true);
    assert_eq!(b.state, SleeperState::Combat);
    assert!(b.target_nearest);
    assert_eq!(b.pace, Some(SleeperPace::Chase));
    let b = state_behavior(SleeperState::Alerted, false, false, false, false, true, false);
    assert!(b.target_nearest);
    assert_eq!(b.pace, Some(SleeperPace::HurriedWalk));
    let b = state_behavior(SleeperState::Dormant, false, false, false, false, true, false);
    assert_eq!(b.decay_steps, 1);
}

#[test]
fn pseudo_rand_offset_is_deterministic() {
    let a = scatter_bits(42, 0);
    let b = scatter_bits(42, 0);
    assert_eq!(a, b, "Same seed + axis should produce same offset");

    let c = scatter_bits(42, 1);
    assert_ne!(a, c, "Different axis should produce different offset");
}

#[test]
fn scatter_bits_exact_values() {
    assert_eq!(scatter_bits(0, 0), 0);
    let n = 42u32.wrapping_mul(73856093) ^ 31;
    assert_eq!(scatter_bits(42, 1), n.wrapping_mul(73856093) ^ (n >> 16));
}

#[test]
fn patrol_route_ping_pong_advances_and_reverses() {
    let mut forward = true;
    let idx1 = next_patrol_index(3, true, 0, &mut forward).expect("target should advance to index 1");
    assert_eq!(idx1, 1);
    assert!(forward);

    let idx2 = next_patrol_index(3, true, idx1, &mut forward).expect("target should advance to index 2");
    assert_eq!(idx2, 2);

    let idx3 = next_patrol_index(3, true, idx2, &mut forward).expect("target should reverse toward index 1");
    assert_eq!(idx3, 1);
    assert!(!forward);
}

#[test]
fn patrol_turns_forward_again_at_the_start_and_loops_otherwise() {
    let mut forward = false;
    assert_eq!(next_patrol_index(3, true, 0, &mut forward), Some(1));
    assert!(forward);
    let mut forward = true;
    assert_eq!(next_patrol_index(3, false, 2, &mut forward), Some(0));
    assert!(forward);
    assert_eq!(next_patrol_index(1, true, 0, &mut forward), None);
    assert_eq!(next_patrol_index(0, false, 0, &mut forward), None);
    let mut forward = false;
    assert_eq!(next_patrol_index(3, true, 9, &mut forward), None);
}

fn zone(id: u32, zone_type: ZoneType) -> Zone {
    Zone::new(ZoneId(id), zone_type)
}

#[test]
fn terminals_go_to_objective_and_keycard_utility_zones() {
    let mut graph = LevelGraph::new(LevelConfig::default());
    let mut objective = zone(3, ZoneType::Storage);
    objective.is_objective = true;
    let mut keycard = zone(7, ZoneType::Utility);
    keycard.is_keycard = true;
    let mut keycard_storage = zone(8, ZoneType::Storage);
    keycard_storage.is_keycard = true;
    graph.add_zone(zone(0, ZoneType::Hub));
    graph.add_zone(objective);
    graph.add_zone(keycard);
    graph.add_zone(keycard_storage);
    let plan = plan_procedural_terminals(&graph);
    assert_eq!(plan.len(), 2);
    assert_eq!(plan[0].zone, ZoneId(3));
    assert_eq!(plan[0].role, TerminalRole::Objective);
    assert_eq!(plan[0].terminal_id, "TERM_3");
    assert_eq!(plan[0].description, "Objective Terminal - Zone 3");
    assert_eq!(plan[1].zone, ZoneId(7));
    assert_eq!(plan[1].terminal_id, "TERM_KC_7");
    assert_eq!(plan[1].description, "Keycard Terminal - Zone 7");
}

#[test]
fn terminals_fall_back_to_objective_rooms() {
    let mut graph = LevelGraph::new(LevelConfig::default());
    graph.add_zone(zone(0, ZoneType::Hub));
    graph.add_zone(zone(12, ZoneType::Objective));
    let plan = plan_procedural_terminals(&graph);
    assert_eq!(plan.len(), 1);
    assert_eq!(plan[0].terminal_id, "TERM_12");
    let empty = LevelGraph::new(LevelConfig::default());
    assert!(plan_procedural_terminals(&empty).is_empty());
}

#[test]
fn sleepers_wake_outside_corridors_and_the_objective_by_zone_id() {
    let mut graph = LevelGraph::new(LevelConfig::default());
    let mut objective = zone(2, ZoneType::Storage);
    objective.is_objective = true;
    graph.add_zone(zone(9, ZoneType::Hub));
    graph.add_zone(zone(4, ZoneType::Corridor));
    graph.add_zone(objective);
    graph.add_zone(zone(1, ZoneType::Utility));
    graph.add_zone(zone(5, ZoneType::Storage));
    assert_eq!(sleeper_candidate_zones(&graph), vec![ZoneId(1), ZoneId(5), ZoneId(9)]);
}

#[test]
fn culling_shows_zones_reached_through_open_doors() {
    let zones = vec![ZoneId(1), ZoneId(2), ZoneId(3), ZoneId(4)];
    let doors = vec![
        DoorPassage { zone_a: ZoneId(1), zone_b: ZoneId(2), passable: true },
        DoorPassage { zone_a: ZoneId(2), zone_b: ZoneId(3), passable: false },
        DoorPassage { zone_a: ZoneId(4), zone_b: ZoneId(2), passable: true },
    ];
    assert_eq!(zone_visibility(&zones, &doors), vec![true, true, false, true]);
}

#[test]
fn culling_is_a_single_pass_over_the_doors() {
    let zones = vec![ZoneId(1), ZoneId(2), ZoneId(3)];
    let doors = vec![
        DoorPassage { zone_a: ZoneId(2), zone_b: ZoneId(3), passable: true },
        DoorPassage { zone_a: ZoneId(1), zone_b: ZoneId(2), passable: true },
    ];
    assert_eq!(zone_visibility(&zones, &doors), vec![true, true, false]);
    assert!(zone_visibility(&vec![], &doors).is_empty());
}

fn door(a: u32, b: u32, door_type: DoorType) -> ZoneConnection {
    ZoneConnection {
        from_zone: ZoneId(a),
        to_zone: ZoneId(b),
        door_type,
        required_keycard: None,
        is_critical_path: false,
    }
}

#[test]
fn zone_adjacency_lists_doors_both_ways() {
    let conns = vec![
        door(0, 1, DoorType::Normal),
        door(2, 0, DoorType::Bulkhead),
        door(1, 2, DoorType::Alarm),
    ];
    assert_eq!(
        zone_door_links(&conns, ZoneId(0)),
        vec![(ZoneId(1), DoorType::Normal), (ZoneId(2), DoorType::Bulkhead)]
    );
    assert_eq!(door_between(&conns, ZoneId(2), ZoneId(1)), Some(DoorType::Alarm));
    assert_eq!(door_between(&conns, ZoneId(0), ZoneId(2)), Some(DoorType::Bulkhead));
    assert_eq!(door_between(&conns, ZoneId(0), ZoneId(5)), None);
    assert_eq!(door_between(&conns, ZoneId(1), ZoneId(2)), door_between(&conns, ZoneId(2), ZoneId(1)));
    assert_eq!(door_between(&conns, ZoneId(1), ZoneId(0)), Some(DoorType::Normal));
}

fn hub_variants() -> Vec<Vec<SocketSide>> {
    vec![
        vec![SocketSide::North, SocketSide::East],
        vec![SocketSide::North, SocketSide::East, SocketSide::South],
        vec![SocketSide::North, SocketSide::East, SocketSide::West],
        vec![SocketSide::North, SocketSide::South, SocketSide::East, SocketSide::West],
    ]
}

#[test]
fn select_variant_matches_required_sides() {
    let mut rng = StdRng::seed_from_u64(42);
    let sides = vec![SocketSide::North, SocketSide::East];
    let variants = hub_variants();
    let index = select_variant(&variants, &sides, &mut rng);
    assert!(has_socket(&variants[index], SocketSide::North));
    assert!(has_socket(&variants[index], SocketSide::East));
}

#[test]
fn variant_candidates_fall_back_to_all_variants() {
    let variants = hub_variants();
    assert_eq!(variant_candidates(&variants, &vec![SocketSide::West]), vec![2, 3]);
    assert_eq!(
        variant_candidates(&vec![vec![SocketSide::North], vec![SocketSide::East]], &vec![SocketSide::South]),
        vec![0, 1]
    );
    assert_eq!(SocketSide::North.opposite(), SocketSide::South);
    assert_eq!(SocketSide::East.opposite(), SocketSide::West);
}

#[test]
fn start_reload_is_noop_when_magazine_already_full() {
    let mut gun = Magazine::full(8);
    gun.start_reload();

    assert!(!gun.reloading);
    assert_eq!(gun.ammo, gun.size);
}

#[test]
fn gun_reload_refills_magazine_after_duration() {
    let mut gun = Magazine { size: 8, ammo: 0, reloading: false };
    assert!(gun.start_reload());
    assert!(gun.reloading);
    assert_eq!(gun.ammo, 0);
    gun.finish_reload();
    assert!(!gun.reloading);
    assert_eq!(gun.ammo, gun.size);
}

#[test]
fn pulling_the_trigger_fires_reloads_or_waits() {
    let mut gun = Magazine { size: 2, ammo: 1, reloading: false };
    assert_eq!(gun.pull_trigger(), TriggerOutcome::Fired);
    assert_eq!(gun.ammo, 0);
    assert_eq!(gun.pull_trigger(), TriggerOutcome::StartedReload);
    assert!(gun.reloading);
    assert_eq!(gun.pull_trigger(), TriggerOutcome::StillReloading);
    gun.finish_reload();
    assert_eq!(gun.ammo, 2);
}

#[test]
fn wall_names_and_entity_types() {
    assert_eq!(WallType::North.get_name(), "Wall North");
    assert_eq!(WallType::South.get_name(), "Wall South");
    assert_eq!(WallType::East.get_name(), "Wall East");
    assert_eq!(WallType::West.get_name(), "Wall West");
    let wall = WallEntity::new(WallType::East);
    assert_eq!(wall.wall_type, WallType::East);
    assert_eq!(wall.entity_type(), "Wall");
    assert_eq!(WallEntity::default().wall_type, WallType::North);
    assert!(WallType::South.spans_width());
    assert!(!WallType::West.spans_width());
    assert_eq!(EnemyType::Heavy.entity_type_name(), "Enemy_Heavy");
    assert_eq!(EnemyType::Basic.entity_type_name(), "Enemy_Basic");
}

#[test]
fn debug_switches_and_shared_settings() {
    assert!(client_debug_gizmos_enabled());
    assert!(gym_diagnostics_logs_enabled());
    assert!(console_debug_prints_enabled());
    let settings = shared_settings();
    assert_eq!(settings.protocol_id, 42);
    assert_eq!(settings.private_key, [0u8; 32]);
}

use shared::bot::{behavior_after_target_lost, decide_bot_behavior, BotBehaviorState, PlayerSighting};

fn sighting(target: u64, engage: bool, close: bool, beyond: bool, outmatched: bool, recovered: bool) -> PlayerSighting {
    PlayerSighting {
        target,
        within_engage_range: engage,
        within_close_range: close,
        beyond_pursuit_range: beyond,
        outmatched,
        recovered,
    }
}

#[test]
fn bots_engage_close_players_and_retreat_when_outmatched() {
    let near = sighting(9, true, true, false, false, false);
    assert_eq!(decide_bot_behavior(BotBehaviorState::Idle, Some(near)), BotBehaviorState::Engaging(9));
    let far = sighting(9, false, false, false, false, false);
    assert_eq!(decide_bot_behavior(BotBehaviorState::Idle, Some(far)), BotBehaviorState::Searching);
    let weak = sighting(3, true, true, false, true, false);
    assert_eq!(decide_bot_behavior(BotBehaviorState::Engaging(9), Some(weak)), BotBehaviorState::Retreating);
    let switched = sighting(3, true, true, false, false, false);
    assert_eq!(
        decide_bot_behavior(BotBehaviorState::Engaging(9), Some(switched)),
        BotBehaviorState::Engaging(3)
    );
    let lost = sighting(3, false, false, true, false, false);
    assert_eq!(decide_bot_behavior(BotBehaviorState::Retreating, Some(lost)), BotBehaviorState::Searching);
    let healed = sighting(3, true, false, false, false, true);
    assert_eq!(decide_bot_behavior(BotBehaviorState::Retreating, Some(healed)), BotBehaviorState::Engaging(3));
    assert_eq!(decide_bot_behavior(BotBehaviorState::Repositioning, Some(healed)), BotBehaviorState::Searching);
    assert_eq!(decide_bot_behavior(BotBehaviorState::Engaging(3), None), BotBehaviorState::Idle);
}

#[test]
fn engaged_bots_search_when_their_target_is_gone() {
    assert_eq!(behavior_after_target_lost(BotBehaviorState::Engaging(7)), BotBehaviorState::Searching);
    for state in [
        BotBehaviorState::Idle,
        BotBehaviorState::Searching,
        BotBehaviorState::Retreating,
        BotBehaviorState::Repositioning,
    ] {
        assert_eq!(behavior_after_target_lost(state), state);
    }
}
