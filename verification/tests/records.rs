use dip_log_record::assemble::{construct_game, init_assembler, parse_game_log, step_line};
use dip_log_record::classify::classify_line;
use dip_log_record::preprocess::{denylist, filter_lines, remove_preceding_entries};
use dip_log_record::record::{registry_lookup, table_items, table_lookup, FatalError};
use dip_log_record::registry::{build_power_registry, extract_power_code, REGISTRY_PREFIX};
use dip_log_record::strutil::{contains_sub, split_ws, trim_str};

fn lines(v: &[&str]) -> Vec<String> {
    v.iter().map(|s| s.to_string()).collect()
}

fn seven_registry_lines() -> Vec<String> {
    lines(&[
        "A HLO (AUS) x",
        "B HLO (ENG) x",
        "C HLO (FRA) x",
        "D HLO (GER) x",
        "E HLO (ITA) x",
        "F HLO (RUS) x",
        "G HLO (TUR) x",
    ])
}

#[test]
fn preprocessor_drops_lines_before_session_start() {
    let input = lines(&["noise one", "noise two", "x HLO y", "after"]);
    let out = remove_preceding_entries(input);
    assert_eq!(out, lines(&["x HLO y", "after"]));
}

#[test]
fn preprocessor_without_marker_yields_empty() {
    let out = remove_preceding_entries(lines(&["a", "b", "c"]));
    assert!(out.is_empty());
}

#[test]
fn denylisted_lines_are_dropped_wherever_they_stand() {
    let kws = denylist();
    let input = lines(&[
        "ADM first",
        "keep one",
        "middle == server check",
        "keep two",
        "tail GOF",
        "x NME y",
        "keep three",
    ]);
    let out = filter_lines(input, &kws);
    assert_eq!(out, lines(&["keep one", "keep two", "keep three"]));
}

#[test]
fn registry_consumes_exactly_the_prefix_regardless_of_content() {
    let mut input = seven_registry_lines();
    input[2] = "junk without any code".to_string();
    input.push("first remaining".to_string());
    input.push("second remaining".to_string());
    let (reg, rest) = build_power_registry(&input);
    assert_eq!(rest, lines(&["first remaining", "second remaining"]));
    assert_eq!(registry_lookup(&reg, "A"), Some("AUS".to_string()));
    assert_eq!(registry_lookup(&reg, "j"), Some("".to_string()));
    assert_eq!(registry_lookup(&reg, "Z"), None);
    assert_eq!(REGISTRY_PREFIX, 7);
}

#[test]
fn registry_code_extraction() {
    assert_eq!(extract_power_code("B HLO (ENG) tail"), "ENG");
    assert_eq!(extract_power_code("spaces ( FRA ) tail"), "FRA");
    assert_eq!(extract_power_code("no code here"), "");
    assert_eq!(extract_power_code("(TOOLONG) then (GER)"), "GER");
}

#[test]
fn ownership_groups_fill_and_replace_entries() {
    let (reg, _) = build_power_registry(&seven_registry_lines());
    let mut st = init_assembler();
    let c = classify_line("ALL x >> Y SCO (AUS BUD TRI VIE) (ENG LON EDI)", &reg).unwrap();
    step_line(&mut st, &c).unwrap();
    assert_eq!(
        table_lookup(&st.curr_scs, "AUS"),
        Some(lines(&["BUD", "TRI", "VIE"]))
    );
    assert_eq!(table_lookup(&st.curr_scs, "ENG"), Some(lines(&["LON", "EDI"])));
    let c2 = classify_line("ALL x >> Y SCO (AUS PAR MUN)", &reg).unwrap();
    step_line(&mut st, &c2).unwrap();
    assert_eq!(table_lookup(&st.curr_scs, "AUS"), Some(lines(&["PAR", "MUN"])));
    let items = table_items(&st.curr_scs);
    assert_eq!(items.len(), 2);
    assert_eq!(items[0].0, "AUS");
    assert_eq!(items[1].0, "ENG");
}

#[test]
fn phase_boundary_sets_identifier_and_unit_entries() {
    let (reg, _) = build_power_registry(&seven_registry_lines());
    let mut st = init_assembler();
    let c = classify_line("ALL x >> NOW (SPR1901) (AUS AFLVIE)", &reg).unwrap();
    step_line(&mut st, &c).unwrap();
    assert_eq!(st.curr_phase, "SPR1901");
    assert_eq!(table_lookup(&st.curr_units, "AUS"), Some(lines(&["A VIE"])));
    assert_eq!(table_lookup(&st.curr_units, "ENG"), None);
}

#[test]
fn boundary_round_trip_stores_one_phase_fewer_than_events() {
    let (reg, _) = build_power_registry(&seven_registry_lines());
    let input = lines(&[
        "ALL a >> NOW (SPR1901)",
        "ALL a >> NOW (SUM1901)",
        "ALL a >> NOW (FAL1901)",
    ]);
    let game = construct_game(input, &reg).unwrap();
    assert_eq!(game.phase_count(), 2);
    assert_eq!(game.phase_names(), lines(&["SPR1901", "SUM1901"]));
    assert!(game.phase_get("FAL1901").is_none());
}

#[test]
fn directed_send_yields_message_in_current_phase() {
    let (reg, _) = build_power_registry(&seven_registry_lines());
    let mut st = init_assembler();
    let mut payload = String::from("SND");
    payload.push_str("0123456789abcdef"); // positions 3..19
    payload.push_str("ENG"); // positions 19..22
    payload.push_str("***"); // positions 22..25
    payload.push_str("hello there"); // positions 25..
    let line = format!("A x >> {}", payload);
    let c = classify_line(&line, &reg).unwrap();
    assert!(!c.is_broadcast);
    assert!(c.to_server);
    assert_eq!(c.origin, "AUS");
    step_line(&mut st, &c).unwrap();
    assert_eq!(st.phase_now.messages.len(), 1);
    assert_eq!(st.phase_now.messages[0].sender, "AUS");
    assert_eq!(st.phase_now.messages[0].recipient, "ENG");
    assert_eq!(st.phase_now.messages[0].message, "hello there");
}

#[test]
fn messages_accumulate_across_phase_boundaries() {
    let (reg, _) = build_power_registry(&seven_registry_lines());
    let mut payload = String::from("SND");
    payload.push_str("0123456789abcdef");
    payload.push_str("ENG");
    payload.push_str("***");
    payload.push_str("first note");
    let snd1 = format!("A x >> {}", payload);
    let payload2 = payload.replace("first note", "second note");
    let snd2 = format!("B x >> {}", payload2);
    let input = lines(&[
        "ALL a >> NOW (SPR1901)",
        &snd1,
        "ALL a >> NOW (SUM1901)",
        &snd2,
        "ALL a >> NOW (FAL1901)",
    ]);
    let game = construct_game(input, &reg).unwrap();
    // the first flushed phase holds one message; the second holds both,
    // because message lists are never reset at a boundary
    let spr = game.phase_get("SPR1901").unwrap();
    assert_eq!(spr.messages.len(), 1);
    assert_eq!(spr.messages[0].message, "first note");
    let sum = game.phase_get("SUM1901").unwrap();
    assert_eq!(sum.messages.len(), 2);
    assert_eq!(sum.messages[0].sender, "AUS");
    assert_eq!(sum.messages[1].sender, "ENG");
    assert_eq!(sum.messages[1].message, "second note");
}

#[test]
fn end_to_end_minimal_log() {
    let mut input = lines(&["pre-session noise", "more noise"]);
    input.extend(seven_registry_lines());
    input.push("ALL x >> Y SCO (AUS BUD TRI VIE)".to_string());
    input.push("ALL x >> NOW (SPR1901)".to_string());
    input.push("ALL x >> ORD stuff happened".to_string());
    input.push("ALL x >> DRW accepted".to_string());
    let game = parse_game_log(input).unwrap();
    assert_eq!(game.moves, lines(&["ORD stuff happened"]));
    assert_eq!(game.status, "DRW accepted");
    assert_eq!(game.summary, "");
    assert_eq!(game.phase_count(), 0);
}

#[test]
fn end_to_end_flushed_phase_snapshots_tables() {
    let mut input = seven_registry_lines();
    input.push("ALL x >> Y SCO (AUS BUD TRI VIE)".to_string());
    input.push("ALL x >> NOW (SPR1901) (AUS AFLVIE)".to_string());
    input.push("ALL x >> NOW (SUM1901)".to_string());
    input.push("ALL x >> SMR the summary".to_string());
    let game = parse_game_log(input).unwrap();
    assert_eq!(game.phase_count(), 1);
    let phase = game.phase_get("SPR1901").unwrap();
    assert_eq!(
        table_lookup(&phase.scs, "AUS"),
        Some(lines(&["BUD", "TRI", "VIE"]))
    );
    assert_eq!(table_lookup(&phase.units, "AUS"), Some(lines(&["A VIE"])));
    assert_eq!(game.summary, "SMR the summary");
}

#[test]
fn missing_direction_marker_is_fatal() {
    let (reg, _) = build_power_registry(&seven_registry_lines());
    let r = classify_line("ALL no marker at all", &reg);
    match r {
        Err(e) => assert_eq!(e, FatalError::MissingDirectionMarker),
        Ok(_) => panic!("classification should fail"),
    }
}

#[test]
fn unknown_origin_power_is_fatal() {
    let (reg, _) = build_power_registry(&seven_registry_lines());
    let r = classify_line("Z 1 >> whatever", &reg);
    match r {
        Err(e) => assert_eq!(e, FatalError::UnknownOriginPower),
        Ok(_) => panic!("classification should fail"),
    }
}

#[test]
fn short_send_payload_is_fatal() {
    let (reg, _) = build_power_registry(&seven_registry_lines());
    let mut st = init_assembler();
    let c = classify_line("A 1 >> SND short", &reg).unwrap();
    let r = step_line(&mut st, &c);
    assert_eq!(r.unwrap_err(), FatalError::ShortSendPayload);
    assert!(st.phase_now.messages.is_empty());
}

#[test]
fn short_unit_group_is_fatal() {
    let (reg, _) = build_power_registry(&seven_registry_lines());
    let mut st = init_assembler();
    let c = classify_line("ALL x >> NOW (ABC)", &reg).unwrap();
    let r = step_line(&mut st, &c);
    assert_eq!(r.unwrap_err(), FatalError::ShortUnitGroup);
    assert_eq!(st.curr_phase, "");
}

#[test]
fn truncated_registry_is_fatal() {
    let r = parse_game_log(lines(&["x HLO y", "only two", "lines here"]));
    match r {
        Err(e) => assert_eq!(e, FatalError::TruncatedRegistry),
        Ok(_) => panic!("parsing should fail"),
    }
}

#[test]
fn both_markers_prefer_incoming_position_with_outgoing_direction() {
    let (reg, _) = build_power_registry(&seven_registry_lines());
    let c = classify_line("A 1 >> foo << bar", &reg).unwrap();
    assert!(c.to_server);
    assert_eq!(c.payload, "bar");
}

#[test]
fn server_to_client_send_is_ignored() {
    let (reg, _) = build_power_registry(&seven_registry_lines());
    let mut st = init_assembler();
    let mut payload = String::from("SND");
    payload.push_str("0123456789abcdef");
    payload.push_str("ENG");
    payload.push_str("***");
    payload.push_str("ignored text");
    let line = format!("A x << {}", payload);
    let c = classify_line(&line, &reg).unwrap();
    assert!(!c.to_server);
    step_line(&mut st, &c).unwrap();
    assert!(st.phase_now.messages.is_empty());
}

#[test]
fn string_utilities_behave() {
    assert_eq!(trim_str("  spaced out \t"), "spaced out");
    assert_eq!(split_ws(" a bb  ccc "), lines(&["a", "bb", "ccc"]));
    assert!(contains_sub("abcdef", "cde"));
    assert!(!contains_sub("abcdef", "xyz"));
}

#[test]
fn status_last_line_wins() {
    let (reg, _) = build_power_registry(&seven_registry_lines());
    let input = lines(&["ALL a >> DRW first", "ALL a >> SLO second"]);
    let game = construct_game(input, &reg).unwrap();
    assert_eq!(game.status, "SLO second");
}
