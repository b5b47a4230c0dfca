use apphub::commands::get_available_symbols;
use apphub::errors::HubError;
use apphub::gateway::{
    ai_http_reply, collect_response, compose_prompt, AiRequest, HttpReply, TokenEvent,
    MAX_GENERATED_TOKENS,
};
use apphub::pulse::PulseMonitor;
use apphub::relay::{extract_lines, relay_lines, LogLevel, StreamKind};
use apphub::resource::{AIState, LoadOutcome, ResourceHandle};

#[test]
fn loader_is_single_flight() {
    let mut state = AIState::new();
    let first = state
        .get_or_load("/res/models/model.gguf", LoadOutcome::Loaded(ResourceHandle { token: 7 }))
        .unwrap();
    assert_eq!(first.token, 7);

    // Every later caller shares the identical handle; whatever its own
    // load attempt would have produced is never consulted.
    let again = state
        .get_or_load("/res/models/model.gguf", LoadOutcome::Loaded(ResourceHandle { token: 9 }))
        .unwrap();
    assert_eq!(again.token, 7);
    let on_missing = state
        .get_or_load("/res/models/model.gguf", LoadOutcome::Missing)
        .unwrap();
    assert_eq!(on_missing.token, 7);
}

#[test]
fn absent_artifact_fails_every_call_and_never_loads() {
    let mut state = AIState::new();
    for _ in 0..3 {
        match state.get_or_load("/res/models/model.gguf", LoadOutcome::Missing) {
            Err(HubError::ResourceNotFound(path)) => {
                assert_eq!(path, "/res/models/model.gguf");
            }
            _ => panic!("expected ResourceNotFound"),
        }
    }
    // No negative caching: once the artifact appears, the load runs.
    let loaded = state
        .get_or_load("/res/models/model.gguf", LoadOutcome::Loaded(ResourceHandle { token: 1 }))
        .unwrap();
    assert_eq!(loaded.token, 1);
}

#[test]
fn malformed_artifact_reports_load_failure() {
    let mut state = AIState::new();
    match state.get_or_load("/res/m.gguf", LoadOutcome::Malformed("bad magic".to_string())) {
        Err(HubError::ResourceLoadFailed(detail)) => assert_eq!(detail, "bad magic"),
        _ => panic!("expected ResourceLoadFailed"),
    }
}

#[test]
fn prompt_composition_is_role_tagged() {
    let p = compose_prompt("What is a zombie port?", "You are helpful.");
    assert_eq!(
        p,
        "<|im_start|>system\nYou are helpful.<|im_end|>\n<|im_start|>user\nWhat is a zombie port?<|im_end|>\n<|im_start|>assistant\n"
    );
}

#[test]
fn generation_cap_is_fixed() {
    assert_eq!(MAX_GENERATED_TOKENS, 1024);
}

#[test]
fn collected_tokens_concatenate_in_order() {
    let events = vec![
        TokenEvent::Snapshot("Hel".to_string()),
        TokenEvent::Other,
        TokenEvent::Snapshot("lo".to_string()),
    ];
    assert_eq!(collect_response(&events), "Hello");
    assert_eq!(collect_response(&Vec::new()), "");
}

#[test]
fn network_door_reports_success_as_json_value() {
    let reply = ai_http_reply(Ok("an answer".to_string()));
    match reply {
        HttpReply::Success { response } => assert_eq!(response.response, "an answer"),
        _ => panic!("expected a success reply"),
    }
}

#[test]
fn network_door_maps_missing_artifact_to_500_with_error_body() {
    // The same condition, seen by both doors: the local door returns
    // the error value, the network door a 500 whose body is its text.
    let mut state = AIState::new();
    let local = state.get_or_load("/res/models/model.gguf", LoadOutcome::Missing);
    let err = local.unwrap_err();
    let expected_body = err.message();
    assert!(!expected_body.is_empty());

    let reply = ai_http_reply(Err(err));
    match reply {
        HttpReply::Failure { status, body } => {
            assert_eq!(status, 500);
            assert_eq!(body, expected_body);
            assert!(!body.is_empty());
        }
        _ => panic!("expected a failure reply"),
    }
}

#[test]
fn error_messages_are_exact() {
    assert_eq!(
        HubError::UnknownApp("ghost".to_string()).message(),
        "Unknown app ID: ghost"
    );
    assert_eq!(
        HubError::DirectoryNotFound("C:\\APPS\\x".to_string()).message(),
        "App directory not found: C:\\APPS\\x"
    );
    assert_eq!(
        HubError::SpawnFailed("charting".to_string(), "access denied".to_string()).message(),
        "Failed to spawn charting: access denied"
    );
    assert_eq!(
        HubError::StreamCaptureFailed(StreamKind::Stdout).message(),
        "Failed to capture stdout"
    );
    assert_eq!(
        HubError::StreamCaptureFailed(StreamKind::Stderr).message(),
        "Failed to capture stderr"
    );
    assert_eq!(
        HubError::NotRunning("dashboard".to_string()).message(),
        "App 'dashboard' is not running"
    );
    assert_eq!(
        HubError::ResourceNotFound("/res/m.gguf".to_string()).message(),
        "Model file not found at: /res/m.gguf"
    );
    assert_eq!(
        HubError::ResourceLoadFailed("truncated".to_string()).message(),
        "Failed to load model: truncated"
    );
    assert_eq!(
        HubError::InferenceFailed("session".to_string()).message(),
        "Inference failed: session"
    );
}

#[test]
fn request_carries_prompt_and_context() {
    let req = AiRequest {
        prompt: "p".to_string(),
        system_context: "s".to_string(),
    };
    assert_eq!(req.prompt, "p");
    assert_eq!(req.system_context, "s");
}

#[test]
fn three_printed_lines_become_three_info_events_in_order() {
    let (lines, rest) = extract_lines("alpha\nbeta\ngamma\n");
    assert_eq!(lines, vec!["alpha", "beta", "gamma"]);
    assert_eq!(rest, "");

    let events = relay_lines("charting", lines, StreamKind::Stdout);
    assert_eq!(events.len(), 3);
    let expected = ["alpha", "beta", "gamma"];
    for (event, want) in events.iter().zip(expected.iter()) {
        assert_eq!(event.app_id, "charting");
        assert_eq!(event.level, LogLevel::Info);
        assert_eq!(&event.message, want);
    }
}

#[test]
fn crlf_lines_relay_without_carriage_returns() {
    let (lines, rest) = extract_lines("a\r\nb\r\n");
    assert_eq!(lines, vec!["a", "b"]);
    assert_eq!(rest, "");
}

#[test]
fn partial_final_line_is_left_in_the_buffer() {
    let (lines, rest) = extract_lines("done\npart");
    assert_eq!(lines, vec!["done"]);
    assert_eq!(rest, "part");
    let (lines2, rest2) = extract_lines("");
    assert!(lines2.is_empty());
    assert_eq!(rest2, "");
}

#[test]
fn chunked_reads_relay_the_same_lines() {
    let (whole, whole_rest) = extract_lines("one\ntwo\nthr");

    let (first, rest) = extract_lines("one\ntw");
    let mut buffer = rest;
    buffer.push_str("o\nthr");
    let (second, chunked_rest) = extract_lines(&buffer);

    let mut chunked = first;
    chunked.extend(second);
    assert_eq!(whole, chunked);
    assert_eq!(whole_rest, chunked_rest);
}

#[test]
fn stderr_lines_are_error_events() {
    let events = relay_lines("dashboard", vec!["boom".to_string()], StreamKind::Stderr);
    assert_eq!(events.len(), 1);
    assert_eq!(events[0].level, LogLevel::Error);
    assert_eq!(LogLevel::Error.label(), "error");
    assert_eq!(LogLevel::Info.label(), "info");
}

#[test]
fn pulse_emits_only_strictly_newer_records() {
    let mut monitor = PulseMonitor::new();
    let mut emitted = Vec::new();

    for content in [
        "1000.50,1002.00,1.5,100",
        "1000.50,1002.00,1.5,100",
        "1000.50,1003.00,1.2,105",
    ] {
        if let Some(sample) = monitor.observe(content) {
            emitted.push(sample);
        }
    }

    assert_eq!(emitted.len(), 2, "the repeated record is suppressed");
    assert_eq!(emitted[0].timestamp, 100);
    assert_eq!(emitted[0].balance, "1000.50");
    assert_eq!(emitted[0].equity, "1002.00");
    assert_eq!(emitted[0].drawdown, "1.5");
    assert_eq!(emitted[1].timestamp, 105);
    assert_eq!(emitted[1].equity, "1003.00");
}

#[test]
fn pulse_degrades_bad_records_to_no_update() {
    let mut monitor = PulseMonitor::new();
    assert!(monitor.observe("only,three,fields").is_none());
    assert!(monitor.observe("a,b,c,not_a_number").is_none());
    assert!(monitor.observe("").is_none());
    // A degraded record does not poison the monitor.
    assert!(monitor.observe("1,2,3,50").is_some());
    // Stale after a real emission.
    assert!(monitor.observe("1,2,3,49").is_none());
}

#[test]
fn pulse_record_tolerates_surrounding_whitespace() {
    let mut monitor = PulseMonitor::new();
    let sample = monitor.observe(" 9.9,8.8,0.1,42\r\n").unwrap();
    assert_eq!(sample.timestamp, 42);
    assert_eq!(sample.balance, "9.9");
}

#[test]
fn symbol_catalog_is_fixed() {
    let symbols = get_available_symbols();
    assert_eq!(symbols.len(), 9);
    assert_eq!(symbols[0].name, "EURUSD");
    assert_eq!(symbols[0].display_name, "EUR/USD");
    assert_eq!(symbols[0].category, "Forex Major");
    assert_eq!(symbols[7].name, "XAUUSD");
    assert_eq!(symbols[7].category, "Metals");
    assert_eq!(symbols[8].name, "XAGUSD");
    assert_eq!(symbols[8].display_name, "Silver (XAG/USD)");
}
