use shared::lobby::{
    is_authorized_host_start, late_join_slot, player_spawn_slots, sends_late_join_start,
    should_auto_start, should_despawn_player, JoinOutcome, LobbyState,
};
use shared::protocol::{
    new_game_seed, state_after_start_request, state_after_world_created, GameState,
    HostStartGameEvent, ServerGameState, WorldCreationTracker,
};

fn lobby() -> LobbyState {
    LobbyState { players: vec![1, 2], host_id: Some(1) }
}

fn is_host_stolen(lobby: &LobbyState, second_player_bits: u64) -> bool {
    lobby.host_id.is_none() || lobby.host_id != Some(0) || second_player_bits == 0
}

#[test]
fn host_with_id_zero_is_not_stolen_by_second_player() {
    let lobby = LobbyState { players: vec![0], host_id: Some(0) };
    let second_joiner_bits = 1u64;

    assert!(
        !is_host_stolen(&lobby, second_joiner_bits),
        "Host with id 0 (local host) must not be replaced by a sentinel check"
    );
}

#[test]
fn second_player_joining_keeps_host_zero() {
    let mut lobby = LobbyState::with_host(0);
    let outcome = lobby.accept_client(1);
    assert_eq!(outcome, JoinOutcome { added: true, became_host: false });
    assert_eq!(lobby.players, vec![0, 1]);
    assert_eq!(lobby.host_id, Some(0));
}

#[test]
fn host_can_request_start() {
    let request = HostStartGameEvent { requested: true };
    assert!(is_authorized_host_start(&request, 1, &lobby()));
}

#[test]
fn non_host_cannot_request_start() {
    let request = HostStartGameEvent { requested: true };
    assert!(!is_authorized_host_start(&request, 2, &lobby()));
}

#[test]
fn unrequested_start_is_rejected() {
    let request = HostStartGameEvent { requested: false };
    assert!(!is_authorized_host_start(&request, 1, &lobby()));
}

#[test]
fn start_request_without_host_is_rejected() {
    let empty = LobbyState { players: vec![], host_id: None };
    assert!(!is_authorized_host_start(&HostStartGameEvent { requested: true }, 0, &empty));
}

#[test]
fn reconcile_removes_disconnected_players_and_reassigns_host() {
    let mut lobby = LobbyState { players: vec![1, 2], host_id: Some(2) };
    let connected = vec![1u64];
    assert!(lobby.retain_connected(&connected));

    assert_eq!(lobby.players, vec![1]);
    assert_eq!(lobby.host_id, Some(1));
    assert!(!should_despawn_player(true, 1, &connected));
    assert!(should_despawn_player(false, 2, &connected));
    assert!(should_despawn_player(true, 2, &connected));
}

#[test]
fn reconcile_without_changes_reports_nothing() {
    let mut lobby = LobbyState { players: vec![3, 4], host_id: Some(3) };
    assert!(!lobby.retain_connected(&vec![4, 3, 9]));
    assert_eq!(lobby.players, vec![3, 4]);
    assert_eq!(lobby.host_id, Some(3));
    let mut lobby = LobbyState { players: vec![3], host_id: Some(3) };
    assert!(lobby.retain_connected(&vec![]));
    assert!(lobby.players.is_empty());
    assert_eq!(lobby.host_id, None);
}

#[test]
fn first_client_becomes_host_and_repeats_change_nothing() {
    let mut lobby = LobbyState { players: vec![], host_id: None };
    assert_eq!(lobby.accept_client(7), JoinOutcome { added: true, became_host: true });
    assert_eq!(lobby.host_id, Some(7));
    assert_eq!(lobby.accept_client(7), JoinOutcome { added: false, became_host: false });
    assert_eq!(lobby.players, vec![7]);
}

#[test]
fn client_becomes_host_of_a_hostless_lobby() {
    let mut lobby = LobbyState { players: vec![4], host_id: None };
    assert_eq!(lobby.accept_client(5), JoinOutcome { added: true, became_host: true });
    assert_eq!(lobby.host_id, Some(5));
}

#[test]
fn leaving_host_hands_over_to_first_player() {
    let mut lobby = LobbyState { players: vec![5, 6, 7], host_id: Some(5) };
    assert!(lobby.remove_player(5));
    assert_eq!(lobby.players, vec![6, 7]);
    assert_eq!(lobby.host_id, Some(6));
    assert!(lobby.remove_player(7));
    assert_eq!(lobby.host_id, Some(6));
    assert!(!lobby.remove_player(42));
    assert!(lobby.remove_player(6));
    assert_eq!(lobby.host_id, None);
    assert!(lobby.players.is_empty());
}

#[test]
fn join_then_leave_restores_the_lobby() {
    let mut lobby = LobbyState { players: vec![1, 2], host_id: Some(2) };
    lobby.accept_client(9);
    lobby.remove_player(9);
    assert_eq!(lobby.players, vec![1, 2]);
    assert_eq!(lobby.host_id, Some(2));
    let mut empty = LobbyState { players: vec![], host_id: None };
    empty.accept_client(3);
    empty.remove_player(3);
    assert!(empty.players.is_empty());
    assert_eq!(empty.host_id, None);
}

#[test]
fn late_joiners_are_told_to_load_only_during_a_game() {
    let joined = JoinOutcome { added: true, became_host: false };
    let repeat = JoinOutcome { added: false, became_host: false };
    assert!(!sends_late_join_start(joined, ServerGameState::Lobby));
    assert!(sends_late_join_start(joined, ServerGameState::Loading));
    assert!(sends_late_join_start(joined, ServerGameState::Playing));
    assert!(!sends_late_join_start(repeat, ServerGameState::Playing));
}

#[test]
fn auto_start_needs_the_flag_and_a_player() {
    assert!(should_auto_start(true, &lobby()));
    assert!(!should_auto_start(false, &lobby()));
    assert!(!should_auto_start(true, &LobbyState { players: vec![], host_id: None }));
}

#[test]
fn late_join_slot_is_the_lobby_position() {
    let lobby = LobbyState { players: vec![4, 8, 15], host_id: Some(4) };
    assert_eq!(late_join_slot(&lobby, 15, &vec![4]), Some(2));
    assert_eq!(late_join_slot(&lobby, 15, &vec![15]), None);
    assert_eq!(late_join_slot(&lobby, 16, &vec![]), None);
}

#[test]
fn spawn_slots_skip_players_without_a_client() {
    let lobby = LobbyState { players: vec![4, 8, 15], host_id: Some(4) };
    assert_eq!(player_spawn_slots(&lobby, &vec![15, 4]), vec![(0, 4), (2, 15)]);
}

#[test]
fn game_state_moves_from_lobby_to_loading_to_playing() {
    assert_eq!(state_after_start_request(GameState::InLobby), GameState::Loading);
    assert_eq!(state_after_start_request(GameState::Playing), GameState::Playing);
    assert_eq!(
        state_after_world_created(WorldCreationTracker { static_world_created: true }),
        Some(GameState::Playing)
    );
    assert_eq!(state_after_world_created(WorldCreationTracker::default()), None);
    assert_eq!(new_game_seed(), 42);
}
