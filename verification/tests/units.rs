use agent_id_cli::activity::{ActivityState, ActivityStateValue};
use agent_id_cli::assignment::{
    clear_omp_activity_state, materialize_omp_activity_state, normalize_omp_activity_state,
    persisted_assignment, set_omp_activity_state, Assignment, ExtensionMetadata,
};
use agent_id_cli::commands::line_of_record;
use agent_id_cli::discovery::is_record_name;
use agent_id_cli::error::Error;
use agent_id_cli::herdr::{
    augment_discovery, base_records, herdr_environment, join_snapshot, omp_session_file,
    AgentInfo, AgentSession, Snapshot, TabInfo, WorkspaceInfo,
};
use agent_id_cli::identity::{
    candidate, candidate_from_digest, canonical_name_slug, choose_index, digest_of_text, is_slug,
    lookup_slugs, name_text, normalize_component, slug, valid_component,
};
use agent_id_cli::json::Json;
use agent_id_cli::host::Place;
use agent_id_cli::prime::{
    execute, generate, PrimeArgs, COMMANDS_HEADING, PRELUDE, PRIME_REFERENCE, REGISTER_REFERENCE,
};
use agent_id_cli::realm::choose_realm;
use agent_id_cli::registration::NameLists;
use agent_id_cli::text::{
    decimal_text, is_control, is_text_less, is_white_space, join_texts, split_words, title_word,
    to_lower, trim,
};
use agent_id_cli::text_map::TextMap;
use agent_id_cli::timestamp::{Timestamp, FIRST_SECOND, LAST_SECOND};
use agent_id_cli::validation::{
    normalize_cwd, normalize_extension_owner, normalize_summary, parse_extension_owners,
    parse_extension_updates, validate_session_id, MAX_CWD_CHARS, MAX_SUMMARY_CHARS,
};

fn instant(seconds: i64) -> Timestamp {
    Timestamp::new(seconds, 0).unwrap()
}

fn texts(values: &[&str]) -> Vec<String> {
    values.iter().map(|value| value.to_string()).collect()
}

fn assignment(session_id: &str, session_file: Option<&str>) -> Assignment {
    let now = instant(0);
    let mut extensions = TextMap::new();
    if let Some(session_file) = session_file {
        let mut fields = TextMap::new();
        fields.insert("session_file".to_string(), Json::Text(session_file.to_string()));
        extensions.insert(
            "omp".to_string(),
            ExtensionMetadata { data: Json::Object(fields), updated_at: now },
        );
    }
    Assignment {
        version: 1,
        session_id: session_id.to_string(),
        name: format!("{session_id} Agent of Test"),
        slug: format!("{session_id}-agent-test"),
        first_name: session_id.to_string(),
        family_name: "Agent".to_string(),
        realm: "Test".to_string(),
        summary: None,
        state: ActivityState::unknown(now),
        cwd: None,
        extensions,
        created_at: now,
        updated_at: now,
    }
}

fn agent(kind: &str, value: &str, pane_id: &str) -> AgentInfo {
    AgentInfo {
        agent: Some("omp".to_string()),
        agent_session: Some(AgentSession {
            agent: "omp".to_string(),
            kind: kind.to_string(),
            source: "herdr:omp".to_string(),
            value: value.to_string(),
        }),
        agent_status: "working".to_string(),
        cwd: Some("/work".to_string()),
        foreground_cwd: Some("/work".to_string()),
        pane_id: pane_id.to_string(),
        tab_id: "w1:t1".to_string(),
        workspace_id: "w1".to_string(),
    }
}

fn snapshot(agents: Vec<AgentInfo>) -> Snapshot {
    Snapshot {
        agents,
        tabs: vec![TabInfo { tab_id: "w1:t1".to_string(), label: "agents".to_string() }],
        workspaces: vec![WorkspaceInfo {
            workspace_id: "w1".to_string(),
            label: "project".to_string(),
            worktree: None,
        }],
    }
}

// ---------------------------------------------------------------------------
// Herdr
// ---------------------------------------------------------------------------

#[test]
fn joins_path_and_id_references_without_guessing() {
    let now = instant(1);
    let assignments = vec![
        assignment("path-session", Some("/tmp/path-session.jsonl")),
        assignment("id-session", None),
    ];
    let snapshot = snapshot(vec![
        agent("path", "/tmp/path-session.jsonl", "w1:p1"),
        agent("id", "id-session", "w1:p2"),
        agent("path", "/tmp/unmatched.jsonl", "w1:p3"),
    ]);

    let records = join_snapshot(assignments, snapshot, now);

    assert_eq!(records[0].runtime.as_ref().unwrap().locations[0].pane_id, "w1:p1");
    assert_eq!(records[0].runtime.as_ref().unwrap().state, "working");
    assert_eq!(records[0].assignment.state.value.label(), "working");
    assert_eq!(records[0].assignment.state.updated_at, now);
    assert_eq!(records[1].runtime.as_ref().unwrap().locations[0].pane_id, "w1:p2");
    assert_eq!(records[0].runtime.as_ref().unwrap().observed_at, now);
}

#[test]
fn ambiguous_files_and_other_agents_match_nobody() {
    let assignments = || {
        vec![
            assignment("one", Some("/tmp/shared.jsonl")),
            assignment("two", Some("/tmp/shared.jsonl")),
            assignment("three", Some("/tmp/three.jsonl")),
        ]
    };
    let mut stranger = agent("id", "one", "w1:p1");
    stranger.agent = Some("other".to_string());
    let mut unsourced = agent("id", "one", "w1:p1");
    unsourced.agent_session.as_mut().unwrap().source = "elsewhere".to_string();
    let mut sessionless = agent("id", "one", "w1:p1");
    sessionless.agent_session = None;
    let records = join_snapshot(
        assignments(),
        snapshot(vec![
            agent("path", "/tmp/shared.jsonl", "w1:p1"),
            agent("pid", "one", "w1:p1"),
            stranger,
            unsourced,
            sessionless,
        ]),
        instant(1),
    );
    assert_eq!(records, base_records(assignments()));
}

#[test]
fn places_are_in_order_and_the_first_decides() {
    let mut first = agent("id", "one", "w1:p9");
    first.tab_id = "w1:t0".to_string();
    first.agent_status = "idle".to_string();
    let mut last = agent("id", "one", "w0:p1");
    last.workspace_id = "w2".to_string();
    let agents = vec![last, agent("id", "one", "w1:p2"), agent("id", "one", "w1:p1"), first];
    let records = join_snapshot(vec![assignment("one", None)], snapshot(agents), instant(1));
    let runtime = records[0].runtime.as_ref().unwrap();
    let panes: Vec<&str> = runtime
        .locations
        .iter()
        .map(|location| location.pane_id.as_str())
        .collect();
    assert_eq!(panes, vec!["w1:p9", "w1:p1", "w1:p2", "w0:p1"]);
    assert_eq!(runtime.state, "idle");
    assert_eq!(records[0].assignment.state.value, ActivityStateValue::Idle);
    assert_eq!(runtime.locations[0].tab_label, None);
    assert_eq!(runtime.locations[1].tab_label.as_deref(), Some("agents"));
    assert_eq!(runtime.locations[3].workspace_label, None);
    let line = line_of_record(&records[0]);
    assert_eq!(
        line,
        "one Agent of Test\tone\tstate:idle\therdr:idle pane:w1:p9 workspace:project\therdr:working pane:w1:p1 workspace:project\therdr:working pane:w1:p2 workspace:project\therdr:working pane:w0:p1 workspace:w2"
    );
}

#[test]
fn discovery_in_herdr_drops_what_does_not_run_unless_all_is_asked_for() {
    let assignments = || vec![assignment("one", None), assignment("two", None)];
    let agents = || snapshot(vec![agent("id", "two", "w1:p1")]);
    let running = augment_discovery(assignments(), Some(agents()), false, instant(1));
    assert_eq!(running.len(), 1);
    assert_eq!(running[0].assignment.session_id, "two");
    assert_eq!(augment_discovery(assignments(), Some(agents()), true, instant(1)).len(), 2);
    assert_eq!(
        augment_discovery(assignments(), None, false, instant(1)),
        base_records(assignments())
    );
}

#[test]
fn herdr_is_there_where_the_environment_says_so() {
    assert!(herdr_environment(Some("1"), Some("/tmp/herdr.sock")));
    assert!(!herdr_environment(Some("true"), Some("/tmp/herdr.sock")));
    assert!(!herdr_environment(None, Some("/tmp/herdr.sock")));
    assert!(!herdr_environment(Some("1"), Some("")));
    assert!(!herdr_environment(Some("1"), None));
}

#[test]
fn an_extension_names_the_session_file() {
    assert_eq!(omp_session_file(&assignment("b", Some("/f"))).unwrap(), "/f");
    assert!(omp_session_file(&assignment("a", None)).is_none());
}

// ---------------------------------------------------------------------------
// Accepted values
// ---------------------------------------------------------------------------

#[test]
fn cwd_metadata_is_bounded_and_single_line() {
    assert_eq!(normalize_cwd("  /tmp/agent-id  ").unwrap(), "/tmp/agent-id");
    assert!(normalize_cwd("/tmp/agent\nid").is_err());
    assert!(normalize_cwd(&"x".repeat(MAX_CWD_CHARS + 1)).is_err());
    assert_eq!(normalize_cwd(&"x".repeat(MAX_CWD_CHARS)).unwrap().len(), MAX_CWD_CHARS);
    assert_eq!(
        normalize_cwd("").unwrap_err().message(),
        "working directory cannot be empty"
    );
    assert_eq!(
        Error::CwdControl.message(),
        "working directory cannot contain control characters"
    );
    assert_eq!(
        Error::CwdTooLong.message(),
        "working directory must be at most 4096 characters"
    );
}

#[test]
fn summaries_are_single_line_and_bounded() {
    assert_eq!(
        normalize_summary("  Implementing\n activity summaries  ").unwrap(),
        "Implementing activity summaries"
    );
    assert!(normalize_summary(" \n\t ").is_err());
    assert!(normalize_summary(&"x".repeat(MAX_SUMMARY_CHARS + 1)).is_err());
    let longest = "é".repeat(MAX_SUMMARY_CHARS);
    assert_eq!(normalize_summary(&longest).unwrap(), longest);
    assert_eq!(normalize_summary(" ").unwrap_err().message(), "summary cannot be empty");
    assert_eq!(
        normalize_summary(&"x".repeat(241)).unwrap_err().message(),
        "summary must be at most 240 characters"
    );
}

#[test]
fn accepted_values_are_accepted_again_as_they_are() {
    for value in ["  a\u{2003}b  c ", "x", "tab\tbed"] {
        let once = normalize_summary(value).unwrap();
        assert_eq!(normalize_summary(&once).unwrap(), once);
    }
    for value in [" dark-wood ", "o'BRIEN", "Oak"] {
        let once = normalize_component(value, "realm").unwrap();
        assert_eq!(normalize_component(&once, "realm").unwrap(), once);
    }
    let id = validate_session_id(" a.b_c-1 ").unwrap();
    assert_eq!(id, "a.b_c-1");
    assert_eq!(validate_session_id(&id).unwrap(), id);
    let cwd = normalize_cwd(" /a b ").unwrap();
    assert_eq!(normalize_cwd(&cwd).unwrap(), cwd);
}

#[test]
fn session_ids_are_file_names() {
    for value in [".", "..", "a/b", "a b", "é", "a\\b", "../escape"] {
        assert_eq!(validate_session_id(value).unwrap_err(), Error::UnsafeSessionId, "{value}");
    }
    assert_eq!(
        validate_session_id("\n").unwrap_err(),
        Error::Empty { kind: "session ID".to_string() }
    );
    assert_eq!(validate_session_id("...").unwrap(), "...");
    assert_eq!(
        Error::UnsafeSessionId.message(),
        "session ID must be a filename-safe value using letters, digits, '.', '_' or '-'"
    );
}

#[test]
fn owners_of_extensions_are_checked() {
    assert_eq!(normalize_extension_owner(" omp.v1_x-2 ").unwrap(), "omp.v1_x-2");
    assert_eq!(normalize_extension_owner("0").unwrap(), "0");
    for value in ["Omp", "-omp", ".omp", "o mp", &"o".repeat(65)] {
        assert_eq!(
            normalize_extension_owner(value).unwrap_err(),
            Error::InvalidExtensionOwner,
            "{value}"
        );
    }
    assert_eq!(normalize_extension_owner(&"o".repeat(64)).unwrap().len(), 64);
    let owners = parse_extension_owners(&texts(&["b", "a", "b"])).unwrap();
    let listed: Vec<&str> = owners.entries().iter().map(|(owner, _)| owner.as_str()).collect();
    assert_eq!(listed, vec!["a", "b"]);
    assert!(parse_extension_owners(&texts(&["a", ""])).is_err());
}

#[test]
fn extension_arguments_are_owner_and_json() {
    let parsed = parse_extension_updates(&texts(&[r#"a={"x":"="}"#, "b= [1, null, -2.50] "])).unwrap();
    let text = parsed.get("a").unwrap().field("x").unwrap().as_text().unwrap().clone();
    assert_eq!(text, "=");
    match parsed.get("b").unwrap() {
        Json::Array(items) => {
            assert_eq!(items.len(), 3);
            assert_eq!(items[0], Json::Number("1".to_string()));
            assert_eq!(items[1], Json::Null);
            assert_eq!(items[2], Json::Number("-2.5".to_string()));
        }
        other => panic!("{other:?}"),
    }
    assert_eq!(
        parse_extension_updates(&texts(&["missing-json"])).unwrap_err(),
        Error::ExtensionSyntax
    );
    assert_eq!(
        parse_extension_updates(&texts(&["a=1", "a=2"])).unwrap_err(),
        Error::ExtensionRepeated { owner: "a".to_string() }
    );
    let broken = parse_extension_updates(&texts(&["omp={"])).unwrap_err();
    assert_eq!(
        broken.message(),
        "parse JSON for extension omp: EOF while parsing an object at line 1 column 1"
    );
    let fits = format!("a=\"{}\"", "x".repeat(16382));
    assert!(parse_extension_updates(&vec![fits]).is_ok());
    let long = format!("a=\"{}\"", "x".repeat(16383));
    assert_eq!(
        parse_extension_updates(&vec![long]).unwrap_err().message(),
        "extension a JSON must be at most 16384 bytes"
    );
}

// ---------------------------------------------------------------------------
// Names
// ---------------------------------------------------------------------------

#[test]
fn parts_of_names_are_in_title_case() {
    assert_eq!(normalize_component(" o'NEIL ", "family name").unwrap(), "O'neil");
    for value in ["", "-a", "a-", "'a", "a'", "a b", "a1", "é"] {
        assert_eq!(
            normalize_component(value, "family name").unwrap_err(),
            Error::InvalidComponent { kind: "family name".to_string() },
            "{value}"
        );
    }
    assert_eq!(title_word("ßA"), "SSa");
    assert_eq!(title_word("éCOLE"), "École");
    assert_eq!(title_word(""), "");
}

#[test]
fn names_and_slugs_lead_to_each_other() {
    let name = name_text("Spring", "O'neil", "Dark-wood");
    assert_eq!(name, "Spring O'neil of Dark-wood");
    let text = slug("Spring", "O'neil", "Dark-wood");
    assert_eq!(text, "spring-o-neil-dark-wood");
    assert_eq!(canonical_name_slug(&name), Some(text.clone()));
    assert_eq!(canonical_name_slug("spring  o'NEIL OF dark-wood"), Some(text.clone()));
    assert_eq!(canonical_name_slug("Spring O'neil at Dark-wood"), None);
    assert_eq!(canonical_name_slug("Spring O'neil of Dark wood"), None);
    assert_eq!(canonical_name_slug("Spring O'neil of"), None);
    assert_eq!(lookup_slugs(&name), vec![text.clone()]);
    assert_eq!(lookup_slugs(&text.to_uppercase()), vec![text]);
    assert_eq!(lookup_slugs("no slug"), Vec::<String>::new());
    assert!(is_slug("a-1") && is_slug("A"));
    assert!(!is_slug("") && !is_slug("-a") && !is_slug("a-") && !is_slug("a_b"));
}

#[test]
fn digests_choose_names() {
    let digest = digest_of_text("abc");
    assert_eq!(digest.len(), 32);
    assert_eq!(&digest[0..4], &[0xba, 0x78, 0x16, 0xbf]);
    let mut bytes = vec![0u8; 32];
    bytes[7] = 9;
    bytes[14] = 1;
    assert_eq!(choose_index(&bytes, 0, 5), 4);
    assert_eq!(choose_index(&bytes, 8, 100), 56);
    let firsts = texts(&["a", "b", "c", "d", "e"]);
    let families = texts(&["v", "w", "x"]);
    assert_eq!(
        candidate_from_digest(&bytes, &firsts, &families, None),
        ("e".to_string(), "w".to_string())
    );
    assert_eq!(
        candidate_from_digest(&bytes, &firsts, &families, Some("Oak")),
        ("e".to_string(), "Oak".to_string())
    );
    assert_eq!(choose_realm(&bytes, &firsts), "e");
    let expected = candidate_from_digest(&digest_of_text("s:12"), &firsts, &families, None);
    assert_eq!(candidate("s", 12, &firsts, &families, None), expected);
}

// ---------------------------------------------------------------------------
// Activity
// ---------------------------------------------------------------------------

#[test]
fn activity_has_words() {
    for word in ["working", "idle", "waiting", "blocked", "stopped", "unknown"] {
        assert_eq!(ActivityStateValue::from_label(word).unwrap().label(), word);
    }
    assert_eq!(ActivityStateValue::from_label("Working"), None);
    assert_eq!(ActivityStateValue::from_external("resting"), ActivityStateValue::Unknown);
}

#[test]
fn activity_is_told_by_the_extension() {
    let mut extensions: TextMap<ExtensionMetadata> = TextMap::new();
    let unknown = materialize_omp_activity_state(&extensions, instant(5));
    assert_eq!(unknown, ActivityState::unknown(instant(5)));

    let then = Timestamp::new(1_700_000_000, 123_456_789).unwrap();
    set_omp_activity_state(&mut extensions, ActivityStateValue::Waiting, then);
    let told = materialize_omp_activity_state(&extensions, instant(5));
    assert_eq!(told, ActivityState { value: ActivityStateValue::Waiting, updated_at: then });
    let state = extensions.get("omp").unwrap().data.field("state").unwrap();
    assert_eq!(
        state.field("updated_at").unwrap().as_text().unwrap(),
        "2023-11-14T22:13:20.123456789Z"
    );

    clear_omp_activity_state(&mut extensions, instant(9));
    assert_eq!(extensions.get("omp").unwrap().updated_at, instant(9));
    assert_eq!(
        materialize_omp_activity_state(&extensions, instant(5)),
        ActivityState::unknown(instant(5))
    );

    let mut fields = TextMap::new();
    fields.insert("state".to_string(), Json::Text("idle".to_string()));
    extensions.insert(
        "omp".to_string(),
        ExtensionMetadata { data: Json::Object(fields), updated_at: instant(3) },
    );
    assert_eq!(
        materialize_omp_activity_state(&extensions, instant(5)),
        ActivityState { value: ActivityStateValue::Idle, updated_at: instant(3) }
    );
    normalize_omp_activity_state(&mut extensions, instant(4));
    assert_eq!(
        materialize_omp_activity_state(&extensions, instant(5)),
        ActivityState { value: ActivityStateValue::Idle, updated_at: instant(4) }
    );

    extensions.insert(
        "omp".to_string(),
        ExtensionMetadata { data: Json::Number("7".to_string()), updated_at: instant(3) },
    );
    clear_omp_activity_state(&mut extensions, instant(9));
    assert_eq!(extensions.get("omp").unwrap().updated_at, instant(3));
    set_omp_activity_state(&mut extensions, ActivityStateValue::Stopped, instant(9));
    assert_eq!(
        materialize_omp_activity_state(&extensions, instant(5)).value,
        ActivityStateValue::Stopped
    );
}

#[test]
fn records_keep_all_but_the_activity() {
    let mut given = assignment("kept", Some("/f"));
    given.cwd = Some("/work".to_string());
    assert_eq!(persisted_assignment(&given).into_assignment(), given);
    given.state = ActivityState { value: ActivityStateValue::Working, updated_at: instant(8) };
    let back = persisted_assignment(&given).into_assignment();
    assert_eq!(back.state, ActivityState::unknown(given.updated_at));
}

// ---------------------------------------------------------------------------
// Text, maps, instants
// ---------------------------------------------------------------------------

#[test]
fn character_classes_are_those_of_unicode() {
    for c in '\0'..=char::MAX {
        assert_eq!(is_white_space(c), c.is_whitespace(), "{c:?}");
        assert_eq!(is_control(c), c.is_control(), "{c:?}");
    }
}

#[test]
fn text_is_trimmed_split_and_joined() {
    for text in ["", "  ", " a b ", "\u{3000}x\u{2028}", "é  ü"] {
        assert_eq!(trim(text), text.trim());
        assert_eq!(split_words(text), text.split_whitespace().collect::<Vec<_>>());
        assert_eq!(to_lower(text), text.to_ascii_lowercase());
    }
    assert_eq!(to_lower("AbÉ"), "abÉ");
    assert_eq!(join_texts(&texts(&["a", "", "b"]), ", "), "a, , b");
    assert_eq!(join_texts(&Vec::new(), ", "), "");
    for n in [0u128, 9, 10, 99, 1_234_567_890, u128::MAX] {
        assert_eq!(decimal_text(n), n.to_string());
    }
    let sorted = ["", "a", "aa", "b", "é", "\u{10000}"];
    for (i, left) in sorted.iter().enumerate() {
        for (j, right) in sorted.iter().enumerate() {
            assert_eq!(is_text_less(left, right), i < j);
        }
    }
}

#[test]
fn maps_keep_their_keys_in_order() {
    let mut map: TextMap<u8> = TextMap::new();
    assert!(map.is_empty());
    for (n, key) in ["m", "c", "x", "a"].iter().enumerate() {
        assert_eq!(map.insert(key.to_string(), n as u8), None);
    }
    assert_eq!(map.insert("c".to_string(), 9), Some(1));
    assert_eq!(map.get("c"), Some(&9));
    assert_eq!(map.get("d"), None);
    assert_eq!(map.remove("m"), Some(0));
    assert_eq!(map.remove("m"), None);
    assert!(!map.contains_key("m") && map.contains_key("x"));
    let keys: Vec<String> = map.into_entries().into_iter().map(|(key, _)| key).collect();
    assert_eq!(keys, vec!["a", "c", "x"]);
}

#[test]
fn json_is_read() {
    let json = Json::parse(r#" {"b": [true, false], "a": "xA\n", "n": 1e3, "b": null} "#).unwrap();
    assert_eq!(json.field("a").unwrap().as_text().unwrap(), "xA\n");
    assert_eq!(json.field("b"), Some(&Json::Null));
    assert_eq!(json.field("n"), Some(&Json::Number("1000.0".to_string())));
    assert_eq!(json.field("z"), None);
    assert_eq!(Json::Bool(true).field("a"), None);
    assert_eq!(Json::parse("[1,]").unwrap_err(), "trailing comma at line 1 column 4");
    assert_eq!(json.clone(), json);
}

#[test]
fn instants_are_read_and_told() {
    let instant = Timestamp::from_rfc3339("2026-01-01T01:00:00.5+01:00").unwrap();
    assert_eq!((instant.unix_seconds(), instant.subsecond_nanoseconds()), (1_767_225_600, 500_000_000));
    assert_eq!(instant.record_text(), "2026-01-01T00:00:00.500Z");
    assert_eq!(Timestamp::from_record_text("2026-01-01T00:00:00.500Z"), Some(instant));
    assert_eq!(Timestamp::from_record_text("tomorrow"), None);
    assert_eq!(instant.shown(), "2026-01-01 00:00:00.500 UTC");
    assert!(Timestamp::from_rfc3339("2026-01-01").is_err());
    let earlier = instant.hours_before(24);
    assert_eq!(earlier.record_text(), "2025-12-31T00:00:00.500Z");
    assert!(earlier.is_before(&instant) && !instant.is_before(&earlier));
    assert!(!instant.is_before(&instant));
}

#[test]
fn instants_have_bounds() {
    assert!(Timestamp::new(FIRST_SECOND, 0).is_some());
    assert!(Timestamp::new(LAST_SECOND, 999_999_999).is_some());
    assert_eq!(Timestamp::new(FIRST_SECOND - 1, 0), None);
    assert_eq!(Timestamp::new(LAST_SECOND + 1, 0), None);
    assert_eq!(Timestamp::new(0, 1_000_000_000), None);
    assert_eq!(Timestamp::new(0, 2_000_000_000), None);
    let leap = Timestamp::new(59, 1_500_000_000).unwrap();
    assert_eq!(leap.hours_before(0), leap);
    assert_eq!(leap.hours_before(1), Timestamp::new(60 - 3600, 500_000_000).unwrap());
    let first = Timestamp::new(FIRST_SECOND, 0).unwrap();
    assert_eq!(first.record_text(), "-262143-01-01T00:00:00Z");
    assert!(first.can_go_back(0) && !first.can_go_back(1));
    assert!(!leap.can_go_back(i64::MAX));
    let back = (59 - FIRST_SECOND) / 3600;
    assert!(leap.can_go_back(back) && !leap.can_go_back(back + 1));
    assert!(leap.hours_before(back).unix_seconds() >= FIRST_SECOND);
}

#[test]
fn every_instant_is_told_and_read_back() {
    for (seconds, nanoseconds, text) in [
        (FIRST_SECOND, 0, "-262143-01-01T00:00:00Z"),
        (LAST_SECOND, 999_999_999, "+262142-12-31T23:59:59.999999999Z"),
        (-62_167_219_201, 0, "-0001-12-31T23:59:59Z"),
        (-62_167_219_200, 0, "0000-01-01T00:00:00Z"),
        (253_402_300_799, 999_999_999, "9999-12-31T23:59:59.999999999Z"),
        (253_402_300_800, 0, "+10000-01-01T00:00:00Z"),
        (59, 1_500_000_000, "1970-01-01T00:00:60.500Z"),
        (LAST_SECOND, 1_999_999_999, "+262142-12-31T23:59:60.999999999Z"),
        (0, 1, "1970-01-01T00:00:00.000000001Z"),
    ] {
        let instant = Timestamp::new(seconds, nanoseconds).unwrap();
        assert_eq!(instant.record_text(), text);
        assert_eq!(Timestamp::from_record_text(text), Some(instant));
        let mut extensions: TextMap<ExtensionMetadata> = TextMap::new();
        set_omp_activity_state(&mut extensions, ActivityStateValue::Blocked, instant);
        assert_eq!(
            materialize_omp_activity_state(&extensions, Timestamp::new(5, 0).unwrap()),
            ActivityState { value: ActivityStateValue::Blocked, updated_at: instant }
        );
    }
}

#[test]
fn names_to_choose_from_are_parts_of_names() {
    let lists = |first: &[&str], family: &[&str]| NameLists {
        first_names: texts(first),
        family_names: texts(family),
    };
    assert!(lists(&["ash", "mary-ann", "O'Neil"], &["oak"]).are_proper());
    assert!(lists(&[], &[]).are_proper());
    for odd in ["", " ash", "a1", "-ash", "ash'", "\u{e4}sche", "a b"] {
        assert!(!valid_component(odd), "{odd}");
        assert!(!lists(&["ash", odd], &["oak"]).are_proper(), "{odd}");
        assert!(!lists(&["ash"], &[odd, "oak"]).are_proper(), "{odd}");
    }
}

#[test]
fn places_are_joined_as_paths_are() {
    let path_of = |place: &Place| {
        if place.below.is_empty() {
            place.base.clone()
        } else {
            place.base.join(&place.below)
        }
    };
    for below in ["", "one", "one/two"] {
        for further in ["three", "three/four", "/three", "/"] {
            let place = Place { base: "/base".into(), below: below.to_string() };
            let joined = place.join(further);
            assert_eq!(path_of(&joined), path_of(&place).join(further), "{below} {further}");
        }
    }
}

#[test]
fn record_files_end_in_json() {
    assert!(is_record_name("session.json") && is_record_name("..json"));
    for name in [".json", "json", "session.json.tmp", "session", "session.JSON", ""] {
        assert!(!is_record_name(name), "{name}");
        let extension = std::path::Path::new(name).extension().and_then(|value| value.to_str());
        assert_ne!(extension, Some("json"), "{name}");
    }
}

// ---------------------------------------------------------------------------
// The manual
// ---------------------------------------------------------------------------

#[test]
fn prime_json_contains_the_agent_workflow_and_command_contract() {
    let output = execute(&PrimeArgs { prelude: false, json: true });
    let value = Json::parse(&output).unwrap();
    let documentation = value.field("documentation").unwrap().as_text().unwrap();
    assert!(documentation.contains("agent-id register"));
    assert!(documentation.contains("agent-id lookup"));
    assert!(documentation.contains("agent-id annotate"));
    assert!(documentation.contains("agent-id current --json"));
    assert!(documentation.contains("agent-id discover"));
    assert!(documentation.contains("--all"));
    assert!(documentation.contains("--state VALUE"));
    assert!(documentation.contains("--extension OWNER=JSON"));
    assert!(documentation.contains("Inside Herdr"));
    assert!(documentation.contains("stopped"));
    assert!(documentation.contains("appropriate neighbor"));
    assert!(documentation.contains("Do not contact arbitrary agents"));
    assert_eq!(documentation, &generate(false));
    assert!(output.starts_with("{\n  \"documentation\": \"# agent-id "));
    assert!(output.ends_with("\"\n}"));
    assert!(output.contains("\\\"$AGENT_ID_SESSION_ID\\\"\\n"));
}

#[test]
fn the_prelude_comes_alone_or_before_the_commands() {
    assert_eq!(generate(true), PRELUDE);
    let full = generate(false);
    assert!(full.starts_with(&format!("{PRELUDE}\n\n## Commands\n\n{REGISTER_REFERENCE}")));
    assert!(full.ends_with(PRIME_REFERENCE));
    assert_eq!(COMMANDS_HEADING, "\n\n## Commands\n\n");
    assert!(!PRELUDE.contains("## Commands"));
    let commands: Vec<&str> = full
        .lines()
        .filter(|line| line.starts_with("### `agent-id "))
        .map(|line| line.split(|c| c == ' ' || c == '`').nth(3).unwrap())
        .collect();
    assert_eq!(
        commands,
        vec!["register", "lookup", "current", "annotate", "discover", "prune", "prime"]
    );
    assert_eq!(execute(&PrimeArgs { prelude: true, json: false }), PRELUDE);
    assert!(PRELUDE.starts_with("# agent-id — Portable agent identity registry\n\n"));
    assert!(PRELUDE.ends_with("created/updated timestamps."));
    assert!(REGISTER_REFERENCE.starts_with("### `agent-id register [SESSION_ID]`"));
    assert!(full.ends_with("--json              Wrap the documentation in a JSON object\n```"));
}

#[test]
fn errors_have_messages() {
    let named = |value: &str| value.to_string();
    for (error, message) in [
        (Error::NoNames, "name lists are empty"),
        (Error::NamesExhausted { realm: named("X") }, "exhausted available names for realm X"),
        (
            Error::NoIdentity { input: named("X") },
            "no identity found for 'X'; lookup accepts a session ID, canonical name, or slug",
        ),
        (
            Error::NotRegistered { session_id: named("X") },
            "no identity registered for session X; run `agent-id register X`",
        ),
        (Error::NoUpdate, "pass at least one activity update"),
        (Error::SummaryConflict, "summary and clear_summary are mutually exclusive"),
        (Error::StateConflict, "state and clear_state are mutually exclusive"),
        (Error::CwdConflict, "cwd and clear_cwd are mutually exclusive"),
        (Error::NegativeRecent, "--recent must be non-negative"),
        (Error::NoRealms, "bundled realm candidate list is empty"),
        (Error::ExtensionSyntax, "--extension must use OWNER=JSON"),
        (
            Error::ExtensionRepeated { owner: named("X") },
            "extension X was provided more than once",
        ),
        (
            Error::InvalidExtensionOwner,
            "extension owner must be at most 64 characters using lowercase letters, digits, '.', '_' or '-'",
        ),
        (Error::NoHome, "HOME is not set; set AGENT_ID_HOME explicitly"),
        (
            Error::PruneTimestamp { before: named("X"), cause: named("Y") },
            "parse --before timestamp X: Y",
        ),
        (Error::OutOfTurn, "the reply does not answer the request"),
    ] {
        assert_eq!(error.message(), message);
    }
}
