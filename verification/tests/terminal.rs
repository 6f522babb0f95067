use shared::text::char_is_whitespace;
use shared::level::{
    IndexedItem, IndexedItemKind, LevelConfig, LevelGraph, TerminalNetwork, ZoneId,
};
use shared::terminal::{
    download_file, execute_terminal_command, matches_lowered, parse_terminal_input, query_response,
    unlock_keycard, process_terminal_interaction_request,
    request_key_matches, validate_terminal_interaction, ReactorState, TerminalCommand,
    TerminalConsole, TerminalInteractionError, TerminalInteractionRequest, TerminalMode,
    TerminalNetworkResource, TerminalRequestKey, TerminalResponse, TerminalState, UplinkState,
};

fn test_network() -> TerminalNetwork {
    TerminalNetwork {
        items: vec![
            IndexedItem {
                id: "KEY_RED_842".to_string(),
                kind: IndexedItemKind::Keycard,
                zone: ZoneId(42),
                label: "Red Keycard".to_string(),
            },
            IndexedItem {
                id: "OBJ_DATA_CORE".to_string(),
                kind: IndexedItemKind::Objective,
                zone: ZoneId(99),
                label: "Data Core".to_string(),
            },
            IndexedItem {
                id: "TERM_ZONE_42".to_string(),
                kind: IndexedItemKind::Tool,
                zone: ZoneId(42),
                label: "Zone 42 Terminal".to_string(),
            },
        ],
    }
}

fn test_state() -> TerminalState {
    let mut state = TerminalState::default();
    state.terminal_id = "T001".to_string();
    state.zone_id = ZoneId(1);
    state
}

fn contains(v: &[String], x: &str) -> bool {
    v.iter().any(|s| s == x)
}

#[test]
fn terminal_interaction_accepts_playable_in_range_request() {
    assert_eq!(validate_terminal_interaction(true, true, true, true, true), Ok(()));
}

#[test]
fn terminal_interaction_rejects_non_playable_session() {
    assert_eq!(
        validate_terminal_interaction(false, true, true, true, true),
        Err(TerminalInteractionError::SessionNotPlayable)
    );
}

#[test]
fn terminal_interaction_rejects_invalid_positions() {
    assert_eq!(
        validate_terminal_interaction(true, false, true, true, true),
        Err(TerminalInteractionError::InvalidPosition)
    );
}

#[test]
fn terminal_interaction_rejects_out_of_range_request() {
    assert_eq!(
        validate_terminal_interaction(true, true, false, true, true),
        Err(TerminalInteractionError::OutOfRange)
    );
}

#[test]
fn terminal_interaction_rejects_blocked_line_of_sight() {
    assert_eq!(
        validate_terminal_interaction(true, true, true, true, false),
        Err(TerminalInteractionError::LineOfSightBlocked)
    );
}

#[test]
fn terminal_interaction_rejects_cooldown_request() {
    assert_eq!(
        validate_terminal_interaction(true, true, true, false, true),
        Err(TerminalInteractionError::Cooldown)
    );
}

#[test]
fn terminal_interaction_checks_come_in_order() {
    assert_eq!(
        validate_terminal_interaction(false, false, false, false, false),
        Err(TerminalInteractionError::SessionNotPlayable)
    );
    assert_eq!(
        validate_terminal_interaction(true, true, false, false, false),
        Err(TerminalInteractionError::OutOfRange)
    );
    assert_eq!(
        validate_terminal_interaction(true, true, true, false, false),
        Err(TerminalInteractionError::LineOfSightBlocked)
    );
}

#[test]
fn is_duplicate_request_detects_same_command() {
    let last_key = "TERM_A::UNLOCK KEY_RED";
    let request = TerminalInteractionRequest {
        terminal_id: "TERM_A".to_string(),
        command: TerminalCommand::new("UNLOCK KEY_RED"),
    };
    assert!(request_key_matches(last_key, &request));
    let request2 = TerminalInteractionRequest {
        terminal_id: "TERM_A".to_string(),
        command: TerminalCommand::new("LIST"),
    };
    assert!(!request_key_matches(last_key, &request2));
}

#[test]
fn request_key_joins_terminal_and_command() {
    let request = TerminalInteractionRequest {
        terminal_id: "TERM_X".to_string(),
        command: TerminalCommand::new("status"),
    };
    let key = TerminalRequestKey::from_request(&request).as_string();
    assert_eq!(key, "TERM_X::STATUS");
    let request = TerminalInteractionRequest {
        terminal_id: "T".to_string(),
        command: TerminalCommand::new("query  key   red"),
    };
    assert_eq!(TerminalRequestKey::from_request(&request).as_string(), "T::QUERY key red");
}

#[test]
fn terminal_state_defaults_to_active() {
    let state = TerminalState::default();
    assert!(state.active);
    assert_eq!(state.mode, TerminalMode::Navigation);
    assert_eq!(state.extract_timer, 0);
    assert!(state.unlocked_keycards.is_empty());
}

#[test]
fn parse_terminal_input_extracts_command_and_args() {
    let cmd = TerminalCommand::new("QUERY KEY_RED");
    assert_eq!(cmd.command, "QUERY");
    assert_eq!(cmd.args, vec!["KEY_RED".to_string()]);

    let cmd = TerminalCommand::new("  list  ");
    assert_eq!(cmd.command, "LIST");
    assert!(cmd.args.is_empty());

    let cmd = TerminalCommand::new("");
    assert!(cmd.command.is_empty());
}

#[test]
fn parse_terminal_input_keeps_argument_case() {
    let cmd = parse_terminal_input("unlock key_Red\tnow");
    assert_eq!(cmd.command, "UNLOCK");
    assert_eq!(cmd.args, vec!["key_Red".to_string(), "now".to_string()]);
    assert_eq!(cmd.full_command(), "UNLOCK key_Red now");
}

#[test]
fn execute_command_list_shows_all_items() {
    let network = test_network();
    let state = test_state();
    let cmd = TerminalCommand::new("LIST");
    let response = execute_terminal_command(&cmd, &mut state.clone(), &network);

    assert!(response.success);
    assert!(response.output.contains("KEY_RED_842"));
    assert!(response.output.contains("OBJ_DATA_CORE"));
    assert!(response.output.contains("3 items indexed"));
}

#[test]
fn execute_command_list_exact_output() {
    let network = test_network();
    let mut state = test_state();
    let response = execute_terminal_command(&TerminalCommand::new("LIST"), &mut state, &network);
    assert_eq!(
        response.output,
        "3 items indexed.\nKEY_RED_842 [Keycard] - ZONE 42\nOBJ_DATA_CORE [Objective] - ZONE 99\nTERM_ZONE_42 [Tool] - ZONE 42"
    );
}

#[test]
fn execute_command_query_finds_matching_items() {
    let network = test_network();
    let state = test_state();
    let cmd = TerminalCommand::new("QUERY KEY");
    let response = execute_terminal_command(&cmd, &mut state.clone(), &network);

    assert!(response.success);
    assert!(response.output.contains("KEY_RED_842"));
    assert!(!response.output.contains("OBJ_DATA_CORE"));
}

#[test]
fn execute_command_query_case_insensitive() {
    let network = test_network();
    let state = test_state();
    let cmd = TerminalCommand::new("QUERY key_red");
    let response = execute_terminal_command(&cmd, &mut state.clone(), &network);

    assert!(response.success);
    assert!(response.output.contains("KEY_RED_842"));
}

#[test]
fn execute_command_query_no_results() {
    let network = test_network();
    let state = test_state();
    let cmd = TerminalCommand::new("QUERY NONEXISTENT");
    let response = execute_terminal_command(&cmd, &mut state.clone(), &network);

    assert!(response.success);
    assert!(response.output.contains("No items match"));
    assert_eq!(response.output, "No items match 'nonexistent'");
}

#[test]
fn execute_command_query_without_term_shows_usage() {
    let network = test_network();
    let mut state = test_state();
    let response = execute_terminal_command(&TerminalCommand::new("QUERY"), &mut state, &network);
    assert!(response.success);
    assert_eq!(response.output, "Usage: QUERY <SEARCH_TERM>");
}

#[test]
fn execute_command_ping_returns_zone_info() {
    let network = test_network();
    let state = test_state();
    let cmd = TerminalCommand::new("PING 42");
    let response = execute_terminal_command(&cmd, &mut state.clone(), &network);

    assert!(response.success);
    assert!(response.output.contains("Zone 42"));
    assert!(response.output.contains("items detected"));
}

#[test]
fn execute_command_ping_clear_zone() {
    let network = test_network();
    let state = test_state();
    let cmd = TerminalCommand::new("PING 50");
    let response = execute_terminal_command(&cmd, &mut state.clone(), &network);

    assert!(response.success);
    assert!(response.output.contains("clear"));
    assert_eq!(response.output, "Pinging Zone 50 - clear");
}

#[test]
fn execute_command_ping_invalid_zone() {
    let network = test_network();
    let state = test_state();
    let cmd = TerminalCommand::new("PING ABC");
    let response = execute_terminal_command(&cmd, &mut state.clone(), &network);

    assert!(!response.success);
    assert!(response.error.unwrap().contains("Invalid zone ID"));
}

#[test]
fn execute_command_ping_rejects_zone_ids_beyond_u32() {
    let network = test_network();
    let mut state = test_state();
    let response =
        execute_terminal_command(&TerminalCommand::new("PING 4294967296"), &mut state, &network);
    assert!(!response.success);
    assert_eq!(response.error.unwrap(), "Invalid zone ID: 4294967296");
    let response =
        execute_terminal_command(&TerminalCommand::new("PING 4294967295"), &mut state, &network);
    assert!(response.success);
}

#[test]
fn execute_command_unlock_adds_keycard() {
    let network = test_network();
    let mut state = test_state();
    let cmd = TerminalCommand::new("UNLOCK KEY_RED_842");
    let response = execute_terminal_command(&cmd, &mut state, &network);

    assert!(response.success);
    assert!(contains(&state.unlocked_keycards, "KEY_RED_842"));
}

#[test]
fn execute_command_unlock_upper_cases_the_keycard() {
    let network = test_network();
    let mut state = test_state();
    let response =
        execute_terminal_command(&TerminalCommand::new("unlock key_red_842"), &mut state, &network);
    assert!(response.success);
    assert_eq!(response.output, "Security doors unlocked: KEY_RED_842");
    let _ = execute_terminal_command(&TerminalCommand::new("UNLOCK KEY_RED_842"), &mut state, &network);
    assert_eq!(state.unlocked_keycards, vec!["KEY_RED_842".to_string()]);
}

#[test]
fn execute_command_unlock_unknown_keycard_fails() {
    let network = test_network();
    let mut state = test_state();
    let cmd = TerminalCommand::new("UNLOCK FORGED_KEYCARD");
    let response = execute_terminal_command(&cmd, &mut state, &network);

    assert!(!response.success);
    assert!(response.error.unwrap().contains("Unknown keycard"));
    assert!(state.unlocked_keycards.is_empty());
}

#[test]
fn execute_command_unlock_rejects_non_keycard_items() {
    let network = test_network();
    let mut state = test_state();
    let response =
        execute_terminal_command(&TerminalCommand::new("UNLOCK OBJ_DATA_CORE"), &mut state, &network);
    assert!(!response.success);
    assert!(state.unlocked_keycards.is_empty());
}

#[test]
fn execute_command_download_records_file() {
    let network = test_network();
    let mut state = test_state();
    let cmd = TerminalCommand::new("DOWNLOAD OBJ_DATA_CORE");
    let response = execute_terminal_command(&cmd, &mut state, &network);

    assert!(response.success);
    assert!(contains(&state.downloaded_files, "OBJ_DATA_CORE"));
}

#[test]
fn execute_command_download_unknown_file_fails() {
    let network = test_network();
    let state = test_state();
    let cmd = TerminalCommand::new("DOWNLOAD UNKNOWN_FILE");
    let response = execute_terminal_command(&cmd, &mut state.clone(), &network);

    assert!(!response.success);
}

#[test]
fn execute_command_download_duplicate_fails() {
    let network = test_network();
    let mut state = test_state();
    let cmd = TerminalCommand::new("DOWNLOAD OBJ_DATA_CORE");
    let _ = execute_terminal_command(&cmd, &mut state, &network);
    let response = execute_terminal_command(&cmd, &mut state, &network);

    assert!(!response.success);
    assert!(response.error.unwrap().contains("already downloaded"));
}

#[test]
fn execute_command_extract_triggers_extraction() {
    let network = test_network();
    let mut state = test_state();
    let cmd = TerminalCommand::new("EXTRACT");
    let response = execute_terminal_command(&cmd, &mut state, &network);

    assert!(response.success);
    assert!(response.triggers_extraction);
    assert_eq!(state.extract_timer, 90_000_000, "90 s, in microseconds");
    assert!(state.has_extracted);
    assert_eq!(state.mode, TerminalMode::Extraction);
}

#[test]
fn execute_command_extract_duplicate_fails() {
    let network = test_network();
    let mut state = test_state();
    let cmd = TerminalCommand::new("EXTRACT");
    let _ = execute_terminal_command(&cmd, &mut state, &network);
    let response = execute_terminal_command(&cmd, &mut state, &network);

    assert!(!response.success);
    assert!(response.error.unwrap().contains("already called"));
}

#[test]
fn execute_reactor_sequence_commands() {
    let network = test_network();
    let mut state = test_state();

    let cmd = TerminalCommand::new("REACTOR_START");
    let resp = execute_terminal_command(&cmd, &mut state, &network);
    assert!(resp.success);
    assert!(resp.triggers_reactor);
    assert_eq!(state.reactor_state, ReactorState::Starting);

    let cmd = TerminalCommand::new("REACTOR_STABILIZE");
    let resp = execute_terminal_command(&cmd, &mut state, &network);
    assert!(resp.success);
    assert_eq!(state.reactor_state, ReactorState::Online);
}

#[test]
fn execute_reactor_start_twice_fails() {
    let network = test_network();
    let mut state = test_state();
    let cmd = TerminalCommand::new("REACTOR_START");
    let _ = execute_terminal_command(&cmd, &mut state, &network);
    let resp = execute_terminal_command(&cmd, &mut state, &network);
    assert!(!resp.success);
    assert_eq!(resp.error.unwrap(), "Reactor already started");
    assert_eq!(state.reactor_state, ReactorState::Starting);
}

#[test]
fn execute_reactor_stabilize_without_start_fails() {
    let network = test_network();
    let mut state = test_state();
    let cmd = TerminalCommand::new("REACTOR_STABILIZE");
    let resp = execute_terminal_command(&cmd, &mut state, &network);

    assert!(!resp.success);
}

#[test]
fn execute_reactor_contain_needs_critical_state() {
    let network = test_network();
    let mut state = test_state();
    let resp = execute_terminal_command(&TerminalCommand::new("REACTOR_CONTAIN"), &mut state, &network);
    assert!(!resp.success);
    state.reactor_state = ReactorState::Critical;
    let resp = execute_terminal_command(&TerminalCommand::new("REACTOR_CONTAIN"), &mut state, &network);
    assert!(resp.success);
    assert_eq!(state.reactor_state, ReactorState::Stabilizing);
}

#[test]
fn execute_uplink_sequence_commands() {
    let network = test_network();
    let mut state = test_state();

    let cmd = TerminalCommand::new("UPLINK_CONNECT");
    let resp = execute_terminal_command(&cmd, &mut state, &network);
    assert!(resp.success);
    assert!(resp.triggers_uplink);
    assert_eq!(state.uplink_state, UplinkState::Connecting);

    let cmd = TerminalCommand::new("UPLINK_UPLOAD");
    let resp = execute_terminal_command(&cmd, &mut state, &network);
    assert!(resp.success);
    assert_eq!(state.uplink_state, UplinkState::Uploading);

    let cmd = TerminalCommand::new("UPLINK_COMPLETE");
    let resp = execute_terminal_command(&cmd, &mut state, &network);
    assert!(resp.success);
    assert_eq!(state.uplink_state, UplinkState::Complete);
    assert!(contains(&state.completed_objectives, "uplink"));
}

#[test]
fn execute_uplink_upload_without_connect_fails() {
    let network = test_network();
    let mut state = test_state();
    let cmd = TerminalCommand::new("UPLINK_UPLOAD");
    let resp = execute_terminal_command(&cmd, &mut state, &network);

    assert!(!resp.success);
}

#[test]
fn execute_unknown_command_fails() {
    let network = test_network();
    let state = test_state();
    let cmd = TerminalCommand::new("INVALID_COMMAND");
    let response = execute_terminal_command(&cmd, &mut state.clone(), &network);

    assert!(!response.success);
    assert!(response.error.unwrap().contains("Unknown command"));
}

#[test]
fn execute_empty_command_is_ready() {
    let network = test_network();
    let mut state = test_state();
    let response = execute_terminal_command(&TerminalCommand::new("   "), &mut state, &network);
    assert!(response.success);
    assert_eq!(response.output, "READY.");
}

#[test]
fn execute_status_command_returns_info() {
    let network = test_network();
    let state = test_state();
    let cmd = TerminalCommand::new("STATUS");
    let response = execute_terminal_command(&cmd, &mut state.clone(), &network);

    assert!(response.success);
    assert!(response.output.contains("T001"));
    assert!(response.output.contains("READY"));
}

#[test]
fn terminal_response_ok_and_fail_constructors() {
    let ok = TerminalResponse::ok("Success!");
    assert!(ok.success);
    assert_eq!(ok.output, "Success!");
    assert!(ok.error.is_none());

    let fail = TerminalResponse::fail("Error!");
    assert!(!fail.success);
    assert!(fail.error.unwrap().contains("Error!"));
}

#[test]
fn reactor_and_uplink_state_defaults() {
    assert_eq!(ReactorState::default(), ReactorState::Off);
    assert_eq!(UplinkState::default(), UplinkState::Disconnected);
    assert_eq!(TerminalMode::default(), TerminalMode::Navigation);
}

#[test]
fn terminal_network_resource_from_graph() {
    let network = test_network();
    let mut graph = LevelGraph::new(LevelConfig::default());
    graph.terminal_network = network;
    let resource = TerminalNetworkResource::from_graph(&graph);
    assert_eq!(resource.network.items.len(), 3);
    assert_eq!(resource.network.items[1].id, "OBJ_DATA_CORE");
}

#[test]
fn terminal_request_executes_for_matching_in_range_terminal() {
    let request = TerminalInteractionRequest {
        terminal_id: "TERM_1".to_string(),
        command: TerminalCommand::new("UNLOCK KEY_RED_842"),
    };
    let console = TerminalConsole::new("TERM_1", ZoneId(1), "Test terminal");
    let mut state = TerminalState::for_console("TERM_1", ZoneId(1));

    let network = TerminalNetwork {
        items: vec![IndexedItem {
            id: "KEY_RED_842".to_string(),
            kind: IndexedItemKind::Keycard,
            zone: ZoneId(1),
            label: "Red keycard".to_string(),
        }],
    };

    let checks = validate_terminal_interaction(true, true, true, true, true);
    assert!(process_terminal_interaction_request(&request, &console, checks, &mut state, &network));
    assert!(contains(&state.unlocked_keycards, "KEY_RED_842"));
}

#[test]
fn terminal_request_rejects_wrong_target_and_out_of_range_player() {
    let mut request = TerminalInteractionRequest {
        terminal_id: "TERM_WRONG".to_string(),
        command: TerminalCommand::new("UNLOCK KEY_RED_842"),
    };
    let console = TerminalConsole::new("TERM_1", ZoneId(1), "Test terminal");
    let mut state = TerminalState::for_console("TERM_1", ZoneId(1));

    let in_range = validate_terminal_interaction(true, true, true, true, true);
    assert!(!process_terminal_interaction_request(
        &request,
        &console,
        in_range,
        &mut state,
        &TerminalNetwork::default(),
    ));

    request.terminal_id = "TERM_1".to_string();
    let out_of_range = validate_terminal_interaction(true, true, false, true, true);
    assert!(!process_terminal_interaction_request(
        &request,
        &console,
        out_of_range,
        &mut state,
        &TerminalNetwork::default(),
    ));
    assert!(state.unlocked_keycards.is_empty());
}

#[test]
fn execute_status_command_exact_output() {
    let network = test_network();
    let mut state = test_state();
    let _ = execute_terminal_command(&TerminalCommand::new("UNLOCK KEY_RED_842"), &mut state, &network);
    let _ = execute_terminal_command(&TerminalCommand::new("DOWNLOAD OBJ_DATA_CORE"), &mut state, &network);
    let response = execute_terminal_command(&TerminalCommand::new("STATUS"), &mut state, &network);
    assert_eq!(
        response.output,
        "Terminal T001 | Zone: ZoneId(1) | Mode: Navigation | Reactor: Off | Uplink: Disconnected\nUnlocked: {\"KEY_RED_842\"} | Downloaded: 1 file(s)\nExtract: READY"
    );
}

#[test]
fn execute_command_ping_accepts_a_plus_sign() {
    let network = test_network();
    let mut state = test_state();
    let response = execute_terminal_command(&TerminalCommand::new("PING +42"), &mut state, &network);
    assert!(response.success);
    assert_eq!(response.output, "Pinging Zone 42 - items detected");
    let response = execute_terminal_command(&TerminalCommand::new("PING +"), &mut state, &network);
    assert!(!response.success);
    assert_eq!(response.error.unwrap(), "Invalid zone ID: +");
}

#[test]
fn extraction_countdown_runs_down_to_zero() {
    let network = test_network();
    let mut state = test_state();
    let _ = execute_terminal_command(&TerminalCommand::new("EXTRACT"), &mut state, &network);
    state.count_down_extraction(16_667);
    assert_eq!(state.extract_timer, 89_983_333);
    state.count_down_extraction(29_983_333);
    assert_eq!(state.extract_timer, 60_000_000);
    assert!(state.has_extracted);
    assert_eq!(state.mode, TerminalMode::Extraction);
    state.count_down_extraction(60_000_001);
    assert_eq!(state.extract_timer, 0);
    state.count_down_extraction(5);
    assert_eq!(state.extract_timer, 0);
}

#[test]
fn terminal_sets_stay_without_repeats() {
    let network = test_network();
    let mut state = test_state();
    assert!(state.is_well_formed());
    for line in ["UNLOCK KEY_RED_842", "unlock key_red_842", "DOWNLOAD OBJ_DATA_CORE", "DOWNLOAD obj_data_core"] {
        let _ = execute_terminal_command(&TerminalCommand::new(line), &mut state, &network);
        assert!(state.is_well_formed());
    }
    assert_eq!(state.unlocked_keycards.len(), 1);
    assert_eq!(state.downloaded_files.len(), 1);
    state.completed_objectives = vec!["uplink".to_string(), "uplink".to_string()];
    assert!(!state.is_well_formed());
}

#[test]
fn unlock_and_download_take_the_upper_cased_id() {
    let network = test_network();
    let mut state = test_state();
    let r = unlock_keycard("KEY_RED_842".to_string(), "key_red_842", &mut state, &network);
    assert!(r.success);
    assert_eq!(r.output, "Security doors unlocked: KEY_RED_842");
    assert_eq!(state.unlocked_keycards, vec!["KEY_RED_842".to_string()]);
    let r = unlock_keycard("OBJ_DATA_CORE".to_string(), "obj_data_core", &mut state, &network);
    assert!(!r.success);
    assert_eq!(r.error.as_deref(), Some("Unknown keycard: obj_data_core"));
    let r = download_file("OBJ_DATA_CORE".to_string(), &mut state, &network);
    assert!(r.success);
    assert_eq!(r.output, "Downloaded: OBJ_DATA_CORE");
    let r = download_file("OBJ_DATA_CORE".to_string(), &mut state, &network);
    assert!(!r.success);
    assert_eq!(r.error.as_deref(), Some("File already downloaded"));
    let r = download_file("NOPE".to_string(), &mut state, &network);
    assert!(!r.success);
    assert_eq!(r.error.as_deref(), Some("Unknown file: NOPE"));
    assert_eq!(state.downloaded_files, vec!["OBJ_DATA_CORE".to_string()]);
}

#[test]
fn white_space_test_agrees_with_std_on_every_char() {
    for n in 0u32..=0x10FFFF {
        if let Some(c) = char::from_u32(n) {
            assert_eq!(char_is_whitespace(c), c.is_whitespace(), "U+{:04X}", n);
        }
    }
}

#[test]
fn query_matching_and_answer_on_lowered_text() {
    assert!(matches_lowered("key_red_842", "keycard", "red keycard", "red"));
    assert!(matches_lowered("obj_data_core", "objective", "data core", "object"));
    assert!(!matches_lowered("obj_data_core", "objective", "data core", "RED"));
    let none = query_response("zzz", &Vec::new());
    assert!(none.success);
    assert_eq!(none.output, "No items match 'zzz'");
    let lines = vec!["A [KEYCARD] - ZONE 1".to_string(), "B [TOOL] - ZONE 2".to_string()];
    let found = query_response("x", &lines);
    assert_eq!(found.output, "Found 2 item(s):\nA [KEYCARD] - ZONE 1\nB [TOOL] - ZONE 2");
}
