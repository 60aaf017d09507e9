use file_reservations::digest::hash_json_value;
use file_reservations::errors::{
    acquire_outcome, db_error_supports_release_intent, db_outcome_to_mcp_result, legacy_tool_error,
    mcp_error_supports_release_intent, plain_error, reservation_acquire_failure,
};
use file_reservations::intent::{
    append_release_intent, append_release_intent_jsonl, append_release_replay_record,
    read_queued_release_intents, release_intent_record_has_valid_hash,
    release_replay_record_has_valid_hash, QueuedReleaseIntent, ReleaseIntent,
    RELEASE_INTENT_SCHEMA_VERSION,
};
use file_reservations::model::{DbErrorKind, DbFailure, DbOutcome, McpError, McpErrorCode};
use file_reservations::release::{
    queued_release_intent_response, release_file_reservations, replay_marker, ReplayEnd,
};
use serde_json::Value;

const INTENT_KIND: &str = "release_file_reservations_intent";
const REPLAY_KIND: &str = "release_file_reservations_replay";

fn parse(text: &str) -> Value {
    serde_json::from_str(text).expect("json")
}

fn last_byte(log: &str) -> Option<u8> {
    log.as_bytes().last().copied()
}

fn append(log: &mut String, record: &Value) {
    let text = append_release_intent_jsonl(last_byte(log), record);
    log.push_str(&text);
}

fn queue(
    log: &mut String,
    project: &str,
    paths: Option<Vec<String>>,
    ids: Option<Vec<i64>>,
    stage: &str,
    detail: &str,
) -> ReleaseIntent {
    let intent = append_release_intent(project, "BlueLake", &paths, &ids, stage, detail, 1_000);
    append(log, &intent.record);
    intent
}

fn failure(kind: DbErrorKind, class: &str, blocks_edits: bool, kind_name: &str) -> DbFailure {
    let data = parse("{\"db_error_classification\": {\"class\": \"x\"}}");
    DbFailure {
        kind,
        detail: "database disk image is malformed".to_string(),
        class: class.to_string(),
        blocks_edits,
        safe_to_continue_read_only: !blocks_edits,
        recommended_command: Some("am doctor".to_string()),
        error: legacy_tool_error(kind_name, "database is malformed", false, data),
    }
}

#[test]
fn f5_acquire_failure_corruption_fails_closed_with_do_not_edit() {
    let paths = vec!["src/**".to_string(), "config/app.yaml".to_string()];
    let err = failure(
        DbErrorKind::Sqlite,
        "main_db_btree_corruption",
        true,
        "DATABASE_CORRUPTION",
    );
    let mcp = reservation_acquire_failure(&paths, "file_reservation_paths", err);
    let data = mcp.data.expect("envelope carries data");
    let payload = data
        .get("error")
        .and_then(|e| e.get("data"))
        .expect("error.data payload");
    let acq = payload
        .get("reservation_acquire")
        .expect("reservation_acquire context block");
    assert_eq!(
        acq.get("cause").and_then(Value::as_str),
        Some("main_db_btree_corruption")
    );
    assert_eq!(acq.get("fail_closed").and_then(Value::as_bool), Some(true));
    assert_eq!(acq.get("blocks_edits").and_then(Value::as_bool), Some(true));
    let do_not_edit: Vec<String> = acq
        .get("do_not_edit")
        .and_then(|v| serde_json::from_value(v.clone()).ok())
        .unwrap_or_default();
    assert_eq!(do_not_edit, paths);
    assert!(payload.get("db_error_classification").is_some());
    assert_eq!(acq["operation"], "file_reservation_paths");
    assert_eq!(acq["recommended_command"], "am doctor");
    assert!(acq["guidance"].as_str().unwrap().contains("FAILED CLOSED"));
    assert_eq!(data["error"]["type"], "DATABASE_CORRUPTION");
}

#[test]
fn f5_acquire_failure_busy_is_distinct_from_corruption() {
    let paths = vec!["src/**".to_string()];
    let err = failure(
        DbErrorKind::ResourceBusy,
        "resource_busy",
        false,
        "RESOURCE_BUSY",
    );
    let mcp = reservation_acquire_failure(&paths, "file_reservation_paths", err);
    let data = mcp.data.expect("data");
    let payload = data
        .get("error")
        .and_then(|e| e.get("data"))
        .expect("error.data payload");
    let acq = payload
        .get("reservation_acquire")
        .expect("reservation_acquire context block");
    assert_eq!(acq.get("fail_closed").and_then(Value::as_bool), Some(true));
    let cause = acq.get("cause").and_then(Value::as_str).unwrap_or_default();
    assert!(!cause.is_empty());
    assert_ne!(cause, "main_db_btree_corruption");
    assert!(payload.get("db_error_classification").is_some());
    assert!(acq["do_not_edit"].as_array().unwrap().is_empty());
    assert_eq!(acq["requested_paths"][0], "src/**");
    assert!(acq["guidance"].as_str().unwrap().contains("did NOT grant"));
}

#[test]
fn acquire_context_is_dropped_without_an_envelope() {
    let mut err = failure(DbErrorKind::Pool, "pool", true, "DATABASE_ERROR");
    err.error = plain_error(McpErrorCode::InternalError, "no data".to_string());
    let mcp = reservation_acquire_failure(&vec!["a".to_string()], "op", err);
    assert_eq!(mcp.message, "no data");
    assert!(mcp.data.is_none());

    let mut err = failure(DbErrorKind::Pool, "pool", true, "DATABASE_ERROR");
    err.error.data = Some(parse("{\"error\": {\"data\": 7}}"));
    let mcp = reservation_acquire_failure(&vec!["a".to_string()], "op", err);
    assert_eq!(mcp.data, Some(parse("{\"error\": {\"data\": 7}}")));
}

#[test]
fn outcomes_become_results() {
    let paths = vec!["a".to_string()];
    assert_eq!(
        acquire_outcome(DbOutcome::Done(3), &paths, "op").expect("done"),
        3
    );
    let cut = plain_error(McpErrorCode::InternalError, "cut".to_string());
    let out: DbOutcome<i32> = DbOutcome::Cancelled {
        reason: "user".to_string(),
        error: cut.clone(),
    };
    assert_eq!(
        acquire_outcome(out, &paths, "op").expect_err("cut").message,
        "cut"
    );
    let out: DbOutcome<i32> = DbOutcome::Panicked {
        message: "boom".to_string(),
        error: cut,
    };
    assert_eq!(db_outcome_to_mcp_result(out).expect_err("cut").message, "cut");
    let err = failure(DbErrorKind::Sqlite, "c", true, "DATABASE_ERROR");
    let out: DbOutcome<i32> = DbOutcome::Failed(err);
    assert_eq!(
        db_outcome_to_mcp_result(out).expect_err("failed").message,
        "database is malformed"
    );
}

#[test]
fn release_intent_error_classifier_only_queues_database_failures() {
    let empty = || parse("{}");
    let corruption = legacy_tool_error(
        "DATABASE_CORRUPTION",
        "database is malformed",
        false,
        empty(),
    );
    let busy = legacy_tool_error("RESOURCE_BUSY", "database is locked", true, empty());
    let not_found = legacy_tool_error("NOT_FOUND", "agent not found", true, empty());
    let invalid = McpError {
        code: McpErrorCode::InvalidParams,
        message: "invalid path".to_string(),
        data: None,
    };
    assert!(mcp_error_supports_release_intent(&corruption));
    assert!(mcp_error_supports_release_intent(&busy));
    assert!(!mcp_error_supports_release_intent(&not_found));
    assert!(!mcp_error_supports_release_intent(&invalid));
    for kind in ["DATABASE_ERROR", "DATABASE_POOL_EXHAUSTED"] {
        let error = legacy_tool_error(kind, "x", true, empty());
        assert!(mcp_error_supports_release_intent(&error));
    }
    for (kind, queued) in [
        (DbErrorKind::Pool, true),
        (DbErrorKind::Sqlite, true),
        (DbErrorKind::Schema, true),
        (DbErrorKind::ResourceBusy, true),
        (DbErrorKind::PoolExhausted, true),
        (DbErrorKind::CircuitBreakerOpen, true),
        (DbErrorKind::IntegrityCorruption, true),
        (DbErrorKind::NotFound, false),
        (DbErrorKind::Other, false),
    ] {
        let err = failure(kind, "c", true, "X");
        assert_eq!(db_error_supports_release_intent(&err), queued);
    }
}

#[test]
fn release_intent_append_writes_hash_stamped_private_jsonl() {
    let mut log = String::new();
    let receipt = queue(
        &mut log,
        "/tmp/release-intent-project",
        Some(vec!["src/**".to_string()]),
        Some(vec![7]),
        "get_db_pool",
        "database disk image is malformed",
    );
    assert_eq!(receipt.content_sha256.len(), 64);
    assert_eq!(&receipt.content_sha256[..16], receipt.intent_id);

    let value = parse(log.trim());
    assert_eq!(
        value["schema_version"].as_u64(),
        Some(u64::from(RELEASE_INTENT_SCHEMA_VERSION))
    );
    assert_eq!(value["kind"].as_str(), Some(INTENT_KIND));
    assert_eq!(
        value["intent_id"].as_str(),
        Some(receipt.intent_id.as_str())
    );
    assert_eq!(
        value["content_sha256"].as_str(),
        Some(receipt.content_sha256.as_str())
    );
    assert_eq!(
        value["project_key"].as_str(),
        Some("/tmp/release-intent-project")
    );
    assert_eq!(value["agent_name"].as_str(), Some("BlueLake"));
    assert_eq!(value["paths"][0].as_str(), Some("src/**"));
    assert_eq!(value["file_reservation_ids"][0].as_i64(), Some(7));
    assert_eq!(value["failure"]["stage"].as_str(), Some("get_db_pool"));
    assert!(release_intent_record_has_valid_hash(&value));
}

#[test]
fn hashes_are_sha256_of_compact_json() {
    assert_eq!(
        hash_json_value(&parse("{}")),
        "44136fa355b3678a1146ad16f7e8649e94fb4fc21fe77e8310c060f61caaff8a"
    );
    assert_eq!(
        hash_json_value(&parse("\"\"")),
        "12ae32cb1ec02d01eda3581b127c1fee3b0dc53572ed6baf239721a03d82e126"
    );
}

#[test]
fn queued_release_intent_response_reports_queued_release() {
    let mut log = String::new();
    let request = release_file_reservations(
        "/tmp/queued-release".to_string(),
        "BlueLake".to_string(),
        None,
        Some(vec!["src/main.rs".to_string()]),
        None,
    );
    let queued = request.pool_unavailable("database is locked".to_string());
    let intent = queued.intent(5);
    append(&mut log, &intent.record);
    let payload = queued_release_intent_response(
        &intent,
        Ok("/root/degraded_intents/release_file_reservations.jsonl".to_string()),
        "2026-01-01T00:00:00.000000Z",
    )
    .expect("queued response");
    let parsed = parse(&payload);
    assert_eq!(parsed["released"].as_i64(), Some(0));
    assert_eq!(parsed["status"].as_str(), Some("queued"));
    assert_eq!(parsed["queued"].as_bool(), Some(true));
    assert_eq!(
        parsed["message"].as_str(),
        Some("lease release queued because DB unavailable")
    );
    assert!(parsed["released_at"].as_str().is_some());
    assert!(parsed["intent"]["id"].as_str().is_some());
    assert!(parsed["intent"]["content_sha256"].as_str().is_some());
    assert_eq!(
        parsed["intent"]["path"].as_str(),
        Some("/root/degraded_intents/release_file_reservations.jsonl")
    );
    assert_eq!(
        parsed["intent"]["replay"],
        "automatic_on_next_successful_release_file_reservations_call"
    );
    assert_eq!(read_queued_release_intents(&log).len(), 1);

    let failed = queued_release_intent_response(&intent, Err("disk full".to_string()), "now")
        .expect_err("write failed");
    assert!(failed.message.ends_with("also failed: disk full"));
    let data = failed.data.expect("data");
    assert_eq!(data["error"]["type"], "RELEASE_INTENT_WRITE_FAILED");
    assert_eq!(data["error"]["recoverable"], false);
    assert_eq!(data["error"]["data"]["error_detail"], "disk full");
}

#[test]
fn release_intent_reader_suppresses_replayed_intents() {
    let mut log = String::new();
    let receipt = queue(
        &mut log,
        "/tmp/replayed-release",
        None,
        Some(vec![42]),
        "list_unreleased_file_reservations",
        "database is locked",
    );
    assert_eq!(read_queued_release_intents(&log).len(), 1);
    let marker = append_release_replay_record(
        &receipt.intent_id,
        &receipt.content_sha256,
        "replayed",
        1,
        &None,
        2_000,
    );
    assert!(release_replay_record_has_valid_hash(&marker));
    append(&mut log, &marker);
    assert!(read_queued_release_intents(&log).is_empty());
}

#[test]
fn release_intent_reader_suppresses_abandoned_intents() {
    let mut log = String::new();
    let receipt = queue(
        &mut log,
        "/tmp/abandoned-release",
        None,
        Some(vec![42]),
        "list_unreleased_file_reservations",
        "database is locked",
    );
    assert_eq!(read_queued_release_intents(&log).len(), 1);
    let marker = append_release_replay_record(
        &receipt.intent_id,
        &receipt.content_sha256,
        "abandoned",
        0,
        &Some("agent no longer exists".to_string()),
        2_000,
    );
    append(&mut log, &marker);
    assert!(read_queued_release_intents(&log).is_empty());
}

#[test]
fn release_intent_reader_keeps_failed_intents() {
    let mut log = String::new();
    queue(&mut log, "/p", None, Some(vec![1]), "s", "d");
    let queued: Vec<QueuedReleaseIntent> = read_queued_release_intents(&log);
    let marker = replay_marker(
        &queued[0],
        ReplayEnd::Failed {
            detail: "locked".to_string(),
            retryable: true,
        },
        9,
    );
    assert_eq!(marker["status"], "failed");
    assert_eq!(marker["released"], 0);
    assert_eq!(marker["error_detail"], "locked");
    append(&mut log, &marker);
    assert_eq!(read_queued_release_intents(&log).len(), 1);
    let marker = replay_marker(&queued[0], ReplayEnd::Released(3), 10);
    assert_eq!(marker["status"], "replayed");
    assert_eq!(marker["released"], 3);
    assert!(marker["error_detail"].is_null());
    assert_eq!(marker["kind"], REPLAY_KIND);
    append(&mut log, &marker);
    assert!(read_queued_release_intents(&log).is_empty());
}

#[test]
fn release_intent_reader_isolates_torn_final_line() {
    let mut log = String::new();
    queue(
        &mut log,
        "/tmp/torn-release",
        None,
        Some(vec![7]),
        "list_unreleased_file_reservations",
        "database is locked",
    );
    assert!(log.ends_with('\n'));
    log.push_str("{\"kind\":\"release_file_reservations_intent\",\"partial");
    queue(
        &mut log,
        "/tmp/torn-release",
        None,
        Some(vec![8]),
        "release_reservations",
        "database is locked",
    );
    let intents = read_queued_release_intents(&log);
    assert_eq!(intents.len(), 2);
    assert_eq!(intents[0].file_reservation_ids, Some(vec![7]));
    assert_eq!(intents[1].file_reservation_ids, Some(vec![8]));
}

#[test]
fn release_intent_reader_ignores_unhashed_replay_marker() {
    let mut log = String::new();
    let receipt = queue(
        &mut log,
        "/tmp/unhashed-replay-release",
        None,
        Some(vec![42]),
        "release_reservations",
        "database is locked",
    );
    let mut fake_replay = parse("{\"replayed_ts\": 5, \"status\": \"replayed\", \"released\": 1, \"error_detail\": null}");
    fake_replay["schema_version"] = Value::from(RELEASE_INTENT_SCHEMA_VERSION);
    fake_replay["kind"] = Value::from(REPLAY_KIND);
    fake_replay["intent_id"] = Value::from(receipt.intent_id.as_str());
    append(&mut log, &fake_replay);
    let intents = read_queued_release_intents(&log);
    assert_eq!(intents.len(), 1);
    assert_eq!(intents[0].intent_id, receipt.intent_id);
}

#[test]
fn release_intent_reader_ignores_replay_marker_for_wrong_intent_hash() {
    let mut log = String::new();
    let receipt = queue(
        &mut log,
        "/tmp/wrong-hash-replay-release",
        None,
        Some(vec![42]),
        "release_reservations",
        "database is locked",
    );
    let mut wrong_intent_hash = format!("{}{}", receipt.intent_id, "0".repeat(48));
    if wrong_intent_hash == receipt.content_sha256 {
        wrong_intent_hash = format!("{}{}", receipt.intent_id, "f".repeat(48));
    }
    let marker = append_release_replay_record(
        &receipt.intent_id,
        &wrong_intent_hash,
        "replayed",
        1,
        &None,
        2_000,
    );
    append(&mut log, &marker);
    let intents = read_queued_release_intents(&log);
    assert_eq!(intents.len(), 1);
    assert_eq!(intents[0].intent_id, receipt.intent_id);
    assert_eq!(intents[0].content_sha256, receipt.content_sha256);
}

#[test]
fn release_intent_reader_skips_hash_mismatches() {
    let mut log = String::new();
    let receipt = queue(
        &mut log,
        "/tmp/hash-mismatch-release",
        None,
        Some(vec![42]),
        "release_reservations",
        "database is locked",
    );
    let first_line = log.lines().next().expect("release intent line").to_string();
    let mut tampered = parse(&first_line);
    tampered["agent_name"] = Value::String("RedLake".to_string());
    assert!(!release_intent_record_has_valid_hash(&tampered));
    append(&mut log, &tampered);
    let intents = read_queued_release_intents(&log);
    assert_eq!(intents.len(), 1);
    assert_eq!(intents[0].intent_id, receipt.intent_id);
    assert_eq!(intents[0].agent_name, "BlueLake");
}

#[test]
fn release_intent_reader_skips_what_is_no_record() {
    let mut log = String::from("\n   \nnot json\n[1,2]\n{\"kind\":\"other\"}\r\n");
    queue(
        &mut log,
        "/p\u{1}\n\"",
        Some(vec!["a\tb".to_string(), "\u{1f600}".to_string()]),
        None,
        "s",
        "d",
    );
    let intents = read_queued_release_intents(&log);
    assert_eq!(intents.len(), 1);
    assert_eq!(intents[0].project_key, "/p\u{1}\n\"");
    assert_eq!(
        intents[0].paths,
        Some(vec!["a\tb".to_string(), "\u{1f600}".to_string()])
    );
    assert_eq!(intents[0].file_reservation_ids, None);
    assert_eq!(intents[0].kind, INTENT_KIND);
    assert!(read_queued_release_intents("").is_empty());
}

#[test]
fn release_intent_reader_takes_carriage_returns_as_line_ends() {
    for ending in ["", "\r", "\r\r", "\n", "\r\n", "\r\r\n"] {
        let mut log = String::new();
        let first = queue(&mut log, "/one", None, Some(vec![1]), "stage", "detail");
        log.truncate(log.len() - 1);
        log.push_str(ending);
        let read = read_queued_release_intents(&log);
        assert_eq!(read.len(), 1, "{ending:?}");
        assert_eq!(read[0].content_sha256, first.content_sha256);
        let second = queue(&mut log, "/two", None, None, "stage", "detail");
        let read = read_queued_release_intents(&log);
        assert_eq!(read.len(), 2, "{ending:?}");
        assert_eq!(read[1].content_sha256, second.content_sha256);
    }
    let mut log = String::from("\u{a0}{}\r");
    assert!(read_queued_release_intents(&log).is_empty());
    queue(&mut log, "/one", None, None, "stage", "detail");
    assert_eq!(read_queued_release_intents(&log).len(), 1);
}
