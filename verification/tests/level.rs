use rand::rngs::StdRng;
use rand::{RngExt, SeedableRng};
use shared::expedition::{
    apply_expedition_design, build_terminal_network, horde_spawn_zones, leaf_zones, pick_deepest,
    scan_node_zones,
};
use shared::generation::LevelGenerator;
use shared::level::{
    DoorType, IndexedItemKind, LevelConfig, LevelGraph, Zone, ZoneId, ZoneType,
};
use shared::content::{plan_procedural_terminals, sleeper_candidate_zones};
use shared::noise::zone_door_links;
use shared::search::{bfs_path, zone_depths};

fn choose_zone_type(rng: &mut StdRng, depth: u32, max_depth: u32) -> ZoneType {
    let roll: f32 = rng.random();
    if depth > max_depth / 2 && roll < 0.15 {
        return ZoneType::Objective;
    }
    if roll < 0.15 {
        ZoneType::Hub
    } else if roll < 0.35 {
        ZoneType::Utility
    } else if roll < 0.50 {
        ZoneType::Industrial
    } else {
        ZoneType::Storage
    }
}

fn calculate_zone_position(
    positions: &[(f32, f32)],
    parent: usize,
    rng: &mut StdRng,
    min_spacing: f32,
) -> (f32, f32) {
    let (px, pz) = positions[parent];
    for _ in 0..10 {
        let angle = rng.random_range(0.0..std::f32::consts::TAU);
        let distance = rng.random_range(min_spacing..(min_spacing * 1.5));
        let candidate = (px + angle.cos() * distance, pz + angle.sin() * distance);
        let too_close = positions.iter().any(|&(x, z)| {
            let dx = x - candidate.0;
            let dz = z - candidate.1;
            (dx * dx + dz * dz).sqrt() < min_spacing * 0.8
        });
        if !too_close {
            return candidate;
        }
    }
    let angle = rng.random_range(0.0..std::f32::consts::TAU);
    (px + angle.cos() * min_spacing, pz + angle.sin() * min_spacing)
}

/// Drives the generator as the game does, keeping the zones' floor positions
/// beside the graph.
fn generate_with_positions(
    seed: u64,
    target_zone_count: u32,
    min_zone_spacing: f32,
    max_depth: u32,
) -> (LevelGraph, Vec<(f32, f32)>) {
    let config = LevelConfig { seed, target_zone_count, max_depth };
    let mut rng = StdRng::seed_from_u64(seed);
    let mut generator = LevelGenerator::new(config);
    let mut positions = vec![(0.0f32, 0.0f32)];
    while generator.is_running() {
        let Some(plan) = generator.begin_step(&mut rng) else {
            continue;
        };
        for _ in 0..plan.branch_count {
            if !generator.wants_branch() {
                break;
            }
            let zone_type = choose_zone_type(&mut rng, plan.depth, max_depth);
            let position =
                calculate_zone_position(&positions, plan.parent.0 as usize, &mut rng, min_zone_spacing);
            generator.add_branch(plan.parent, plan.depth, zone_type);
            positions.push(position);
        }
        generator.end_step(plan.parent, plan.depth, plan.max_connections);
    }
    (generator.finish(), positions)
}

fn generate_level(seed: u64, target_zone_count: u32, min_zone_spacing: f32, max_depth: u32) -> LevelGraph {
    generate_with_positions(seed, target_zone_count, min_zone_spacing, max_depth).0
}

fn zone(level: &LevelGraph, id: ZoneId) -> &Zone {
    level.get_zone(id).unwrap_or_else(|| panic!("zone {:?} should exist", id))
}

fn depth_of(depths: &[(ZoneId, u32)], id: ZoneId) -> Option<u32> {
    depths.iter().find(|(z, _)| *z == id).map(|(_, d)| *d)
}

fn branched_level() -> LevelGraph {
    for seed in 1..=40 {
        let graph = generate_level(seed, 16, 28.0, 6);
        if graph.keycard_zone.is_some() {
            return graph;
        }
    }
    panic!("No seed in 1..=40 produced a keycard-bearing level; widen the search");
}

fn objective_or_fail(level: &LevelGraph) -> ZoneId {
    level
        .objective_zone
        .unwrap_or_else(|| panic!("expected an objective zone to exist"))
}

#[test]
fn generate_level_is_deterministic_for_same_seed() {
    let (level_a, pos_a) = generate_with_positions(1337, 10, 30.0, 6);
    let (level_b, pos_b) = generate_with_positions(1337, 10, 30.0, 6);

    assert_eq!(level_a.zones.len(), level_b.zones.len());
    assert_eq!(level_a.connections.len(), level_b.connections.len());
    assert_eq!(pos_a, pos_b);
    for (a, b) in level_a.zones.iter().zip(level_b.zones.iter()) {
        assert_eq!(a.id, b.id);
        assert_eq!(a.zone_type, b.zone_type);
    }
}

#[test]
fn generated_level_contains_spawn_zone_and_connections() {
    let (level, positions) = generate_with_positions(7, 12, 35.0, 8);

    assert!(level.zones.len() >= 2, "Level should contain multiple zones");
    assert!(!level.connections.is_empty(), "Level should contain at least one connection");
    assert!(level.get_zone(ZoneId(0)).is_some(), "Spawn zone should exist");
    assert_eq!(positions[0], (0.0, 0.0), "Spawn zone position should be origin");
}

#[test]
fn generated_level_is_a_tree_within_its_target() {
    let level = generate_level(99, 14, 30.0, 7);
    assert!(level.zones.len() <= 14);
    assert_eq!(level.connections.len() + 1, level.zones.len());
    for (i, z) in level.zones.iter().enumerate() {
        assert_eq!(z.id, ZoneId(i as u32));
        assert!(z.connections.len() <= z.zone_type.max_connections());
    }
}

#[test]
fn generated_levels_keep_depth_and_door_limits() {
    for (seed, target, max_depth) in [(3u64, 20u32, 2u32), (11, 16, 3), (42, 30, 1), (5, 12, 0)] {
        let level = generate_level(seed, target, 30.0, max_depth);
        let depths = zone_depths(&level.connections, level.spawn_zone);
        assert_eq!(depths.len(), level.zones.len(), "every zone is reachable from the spawn");
        for (zone_id, depth) in &depths {
            assert!(*depth <= max_depth, "zone {:?} lies {} doors deep, beyond {}", zone_id, depth, max_depth);
        }
        for z in &level.zones {
            assert!(z.connections.len() <= z.zone_type.max_connections());
        }
    }
    assert_eq!(generate_level(5, 12, 30.0, 0).zones.len(), 1, "a depth limit of 0 keeps only the spawn hub");
}

#[test]
fn expedition_design_places_objective_in_a_deep_leaf() {
    let level = generate_level(42, 18, 28.0, 8);

    let objective = level
        .objective_zone
        .expect("expedition design should designate an objective");
    let zone = zone(&level, objective);
    assert!(zone.is_objective);
    assert!(zone.is_leaf(level.spawn_zone), "objective {:?} should be a leaf node", objective);

    let depths = level.depth_map();
    let objective_depth = depth_of(&depths, objective).unwrap();
    for leaf in leaf_zones(&level) {
        assert!(depth_of(&depths, leaf).unwrap_or(0) <= objective_depth);
    }
}

#[test]
fn expedition_design_keycard_forces_backtrack() {
    let level = branched_level();

    let keycard_zone = level.keycard_zone.expect("a branched level should place a keycard");

    let critical = level.critical_path(objective_or_fail(&level));
    let keycard_zone_handle = zone(&level, keycard_zone);
    assert!(keycard_zone_handle.is_keycard, "keycard zone {:?} should be flagged", keycard_zone);
    assert!(
        keycard_zone_handle.is_leaf(level.spawn_zone),
        "keycard zone {:?} should sit in its own branch leaf",
        keycard_zone
    );
    assert!(
        !critical.contains(&keycard_zone),
        "keycard zone {:?} must live off the critical path to force backtracking",
        keycard_zone
    );

    let keyed: Vec<_> = level
        .connections
        .iter()
        .filter(|c| c.door_type == DoorType::Keycard)
        .collect();
    assert!(!keyed.is_empty(), "at least one door should require the keycard");
    assert!(
        keyed.iter().all(|c| c.required_keycard == Some(keycard_zone)),
        "every keyed door should reference the placed keycard zone"
    );
}

#[test]
fn expedition_design_gates_objective_approach_with_defensive_doors() {
    let level = generate_level(7, 18, 28.0, 8);
    let objective = level.objective_zone.expect("objective should exist");

    let defensive: Vec<_> = level
        .connections
        .iter()
        .filter(|c| c.door_type.is_defensive_hold())
        .collect();
    assert!(!defensive.is_empty(), "the critical path should escalate into defensive hold doors");

    let adjacent_to_objective = level.connections.iter().any(|c| {
        c.door_type.is_defensive_hold() && (c.from_zone == objective || c.to_zone == objective)
    });
    assert!(adjacent_to_objective, "objective room should be gated by a defensive-hold door");
}

#[test]
fn expedition_design_terminal_network_indexes_keycard_and_objective() {
    let level = branched_level();

    let items = &level.terminal_network.items;
    assert!(items.iter().any(|item| item.kind == IndexedItemKind::Keycard));
    assert!(items.iter().any(|item| item.kind == IndexedItemKind::Objective));

    let keycard = level.keycard_zone.expect("keycard zone should exist");
    let kc_entry = items
        .iter()
        .find(|item| item.kind == IndexedItemKind::Keycard)
        .expect("keycard terminal entry should exist");
    assert_eq!(kc_entry.zone, keycard);

    let objective = level.objective_zone.expect("objective should exist");
    let obj_entry = items
        .iter()
        .find(|item| item.kind == IndexedItemKind::Objective)
        .expect("objective terminal entry should exist");
    assert_eq!(obj_entry.zone, objective);
}

#[test]
fn expedition_design_resources_concentrated_in_dead_ends() {
    let level = generate_level(13, 14, 30.0, 7);

    for zone in &level.zones {
        if zone.is_leaf(level.spawn_zone) && !zone.is_objective && !zone.is_keycard {
            assert!(
                zone.resources.ammo_packs >= 1,
                "dead-end zone {:?} should reward exploration with ammo",
                zone.id
            );
        }
    }

    let objective = level.objective_zone.expect("objective should exist");
    let objective_zone = zone(&level, objective);
    assert!(
        objective_zone.resources.ammo_packs
            + objective_zone.resources.med_packs
            + objective_zone.resources.tool_packs
            > 0,
        "objective zone should carry a resource cache"
    );
}

#[test]
fn expedition_design_horde_spawns_upstream_of_objective() {
    let level = generate_level(21, 16, 28.0, 7);
    let objective = level.objective_zone.expect("objective should exist");
    let depths = level.depth_map();
    let obj_depth = depth_of(&depths, objective).expect("objective should have a depth");

    assert!(
        !level.horde_spawn_zones.is_empty(),
        "alarm hordes should spawn upstream of the objective"
    );
    for spawn_zone in &level.horde_spawn_zones {
        let depth = depth_of(&depths, *spawn_zone).unwrap_or(0);
        assert!(depth < obj_depth);
    }
}

#[test]
fn expedition_design_does_not_mutate_layout_positions() {
    let (level_a, pos_a) = generate_with_positions(999, 14, 30.0, 7);
    let (level_b, pos_b) = generate_with_positions(999, 14, 30.0, 7);

    assert_eq!(level_a.zones.len(), level_b.zones.len());
    assert_eq!(pos_a, pos_b);
    for zone in &level_a.zones {
        let other = level_b
            .get_zone(zone.id)
            .unwrap_or_else(|| panic!("zone {:?} should exist in second run", zone.id));
        assert_eq!(zone.is_objective, other.is_objective);
        assert_eq!(zone.is_keycard, other.is_keycard);
    }
}

#[test]
fn expedition_design_handles_chain_without_branching() {
    let level = generate_level(1, 5, 30.0, 8);
    assert!(level.objective_zone.is_some(), "even a chain should get an objective");
    assert!(!level.zones.is_empty());
}

fn chain(n: u32) -> LevelGraph {
    let mut graph = LevelGraph::new(LevelConfig::default());
    for i in 0..n {
        graph.add_zone(Zone::new(ZoneId(i), ZoneType::Hub));
    }
    for i in 1..n {
        graph.add_connection(ZoneId(i - 1), ZoneId(i), DoorType::Normal);
    }
    graph
}

#[test]
fn design_leaves_small_levels_alone() {
    let mut graph = chain(3);
    let before_conns = graph.connections.clone();
    let mut rng = StdRng::seed_from_u64(5);
    apply_expedition_design(&mut graph, &mut rng);
    assert!(graph.objective_zone.is_none());
    assert_eq!(graph.connections.len(), before_conns.len());
    assert!(graph.terminal_network.items.is_empty());
}

#[test]
fn design_on_a_chain_puts_objective_at_its_end_behind_a_bulkhead() {
    let mut graph = chain(6);
    let mut rng = StdRng::seed_from_u64(5);
    apply_expedition_design(&mut graph, &mut rng);
    assert_eq!(graph.objective_zone, Some(ZoneId(5)));
    assert!(graph.keycard_zone.is_none());
    let entry = graph
        .connections
        .iter()
        .find(|c| c.to_zone == ZoneId(5))
        .unwrap();
    assert_eq!(entry.door_type, DoorType::Bulkhead);
    assert!(graph.connections.iter().all(|c| c.is_critical_path));
    assert_eq!(graph.horde_spawn_zones, vec![ZoneId(2), ZoneId(3)]);
    let objective = graph.get_zone(ZoneId(5)).unwrap();
    assert_eq!(objective.resources.ammo_packs, 1);
    assert_eq!(objective.resources.tool_packs, 1);
    assert_eq!(objective.resources.med_packs, 1);
    assert_eq!(objective.hazard_level, 5);
    assert_eq!(graph.terminal_network.items[0].id, "OBJ_5");
    assert_eq!(graph.terminal_network.items[0].label, "OBJECTIVE IS IN ZONE 5");
}

#[test]
fn design_on_a_fork_locks_the_critical_path_with_the_keycard() {
    // 0 - 1 - 2 - 3 - 4 (objective side) and 1 - 5 (keycard side)
    let mut graph = chain(5);
    graph.add_zone(Zone::new(ZoneId(5), ZoneType::Utility));
    graph.add_connection(ZoneId(1), ZoneId(5), DoorType::Normal);
    let mut rng = StdRng::seed_from_u64(11);
    apply_expedition_design(&mut graph, &mut rng);
    assert_eq!(graph.objective_zone, Some(ZoneId(4)));
    assert_eq!(graph.keycard_zone, Some(ZoneId(5)));
    let gate = &graph.connections[1];
    assert_eq!((gate.from_zone, gate.to_zone), (ZoneId(1), ZoneId(2)));
    assert_eq!(gate.door_type, DoorType::Keycard);
    assert_eq!(gate.required_keycard, Some(ZoneId(5)));
    let items = &graph.terminal_network.items;
    assert_eq!(items[0].kind, IndexedItemKind::Keycard);
    assert_eq!(items[0].id, "KC_RED_5");
    assert_eq!(items[0].label, "KEYCARD RED IS IN ZONE 5");
    assert_eq!(items[1].id, "OBJ_4");
    assert!(graph.get_zone(ZoneId(5)).unwrap().is_keycard);
    assert_eq!(graph.get_zone(ZoneId(5)).unwrap().resources.med_packs, 1);
}

#[test]
fn bfs_path_finds_the_shortest_route() {
    let mut graph = chain(4);
    graph.add_connection(ZoneId(0), ZoneId(3), DoorType::Normal);
    let path = bfs_path(&graph.connections, ZoneId(0), ZoneId(3)).unwrap();
    assert_eq!(path, vec![ZoneId(0), ZoneId(3)]);
    let path = bfs_path(&graph.connections, ZoneId(1), ZoneId(1)).unwrap();
    assert_eq!(path, vec![ZoneId(1)]);
    assert!(bfs_path(&graph.connections, ZoneId(0), ZoneId(9)).is_none());
}

#[test]
fn zone_depths_lists_reachable_zones_with_distances() {
    let mut graph = chain(4);
    graph.add_zone(Zone::new(ZoneId(7), ZoneType::Storage));
    let depths = zone_depths(&graph.connections, ZoneId(0));
    assert_eq!(depth_of(&depths, ZoneId(0)), Some(0));
    assert_eq!(depth_of(&depths, ZoneId(3)), Some(3));
    assert_eq!(depth_of(&depths, ZoneId(7)), None);
}

#[test]
fn horde_and_scan_zones_follow_the_critical_path() {
    let p: Vec<ZoneId> = (0..6).map(ZoneId).collect();
    assert_eq!(horde_spawn_zones(&p, ZoneId(5)), vec![ZoneId(2), ZoneId(3)]);
    assert_eq!(horde_spawn_zones(&p[..2].to_vec(), ZoneId(1)), Vec::<ZoneId>::new());
    assert_eq!(horde_spawn_zones(&Vec::new(), ZoneId(1)), Vec::<ZoneId>::new());
    assert_eq!(scan_node_zones(&p, ZoneId(5), ZoneId(0)), vec![ZoneId(5), ZoneId(4)]);
    assert_eq!(scan_node_zones(&p[..2].to_vec(), ZoneId(1), ZoneId(0)), vec![ZoneId(1)]);
}

#[test]
fn pick_deepest_takes_the_last_of_the_deepest() {
    let zones = vec![ZoneId(1), ZoneId(2), ZoneId(3)];
    let depths = vec![(ZoneId(1), 2), (ZoneId(2), 3), (ZoneId(3), 3)];
    assert_eq!(pick_deepest(&zones, &depths), ZoneId(3));
}

#[test]
fn terminal_network_lists_resources_after_keycard_and_objective() {
    let mut graph = chain(2);
    graph.objective_zone = Some(ZoneId(1));
    graph.zones[0].resources.ammo_packs = 2;
    let network = build_terminal_network(&graph);
    assert_eq!(network.items.len(), 2);
    assert_eq!(network.items[0].id, "OBJ_1");
    assert_eq!(network.items[1].id, "AMMO_0");
    assert_eq!(network.items[1].label, "AMMO CACHE 2 IS IN ZONE 0");
}

#[test]
fn procedural_runtime_content_spawns_navmesh_lights_sleepers_and_terminals() {
    let level = generate_level(77, 12, 55.0, 7);
    let sleeper_zones = sleeper_candidate_zones(&level);
    assert!(!sleeper_zones.is_empty(), "sleepers need at least one zone (two to six sleepers each)");
    assert!(!level.connections.is_empty(), "every door gets a connection light");
    let terminals = plan_procedural_terminals(&level);
    assert!(!terminals.is_empty(), "Expected at least one procedural terminal");
    let objective = level.objective_zone.expect("objective should exist");
    assert!(terminals.iter().any(|t| t.zone == objective && t.terminal_id == format!("TERM_{}", objective.0)));
}

#[test]
fn build_zone_connectivity_from_generated_level() {
    let level = generate_level(42, 10, 55.0, 6);
    assert!(!level.connections.is_empty());
    let mut total = 0;
    for zone in &level.zones {
        let links = zone_door_links(&level.connections, zone.id);
        assert_eq!(links.len(), level.connections.iter().filter(|c| c.from_zone == zone.id || c.to_zone == zone.id).count());
        total += links.len();
    }
    assert_eq!(total, 2 * level.connections.len());
}

#[test]
fn design_may_key_the_objective_entry_itself() {
    let mut graph = chain(3);
    graph.add_zone(Zone::new(ZoneId(3), ZoneType::Hub));
    graph.add_connection(ZoneId(1), ZoneId(3), DoorType::Normal);
    let mut rng = StdRng::seed_from_u64(3);
    apply_expedition_design(&mut graph, &mut rng);
    assert_eq!(graph.objective_zone, Some(ZoneId(3)));
    assert_eq!(graph.keycard_zone, Some(ZoneId(2)));
    let entry = &graph.connections[2];
    assert_eq!((entry.from_zone, entry.to_zone), (ZoneId(1), ZoneId(3)));
    assert_eq!(entry.door_type, DoorType::Keycard);
    assert_eq!(entry.required_keycard, Some(ZoneId(2)));
    assert!(!graph
        .connections
        .iter()
        .any(|c| c.door_type.is_defensive_hold() && (c.from_zone == ZoneId(3) || c.to_zone == ZoneId(3))));
}
