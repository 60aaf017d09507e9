use file_reservations::archive::{
    active_archive_artifact_diverges, active_reservation_artifact_json, artifact_ids,
    dispatch_reservation_archive_write, reconcile_active_reservation_archive,
    reconcile_released_reservation_archive, released_reservation_artifact_json,
    released_rows_needing_archive_heal, released_ts_json_value,
    reservation_op_is_terminal_release, reservation_rows_needing_archive_heal, ts_is_positive,
    DirectArchiveWrite, WriteOp,
};
use file_reservations::filter::{collect_previous_expiries, renewal_filter_matches};
use file_reservations::model::{ArchiveReservationView, FileReservationRow, ProjectRow, Timestamp};
use serde_json::Value;
use std::collections::{BTreeMap, HashMap};

fn ts(micros: i64) -> Timestamp {
    Timestamp {
        micros,
        iso: format!("t{micros}"),
    }
}

fn reservation_row(
    id: i64,
    agent_id: i64,
    path_pattern: &str,
    expires_ts: i64,
    released_ts: Option<i64>,
) -> FileReservationRow {
    FileReservationRow {
        id: Some(id),
        project_id: 1,
        agent_id,
        path_pattern: path_pattern.to_string(),
        exclusive: 1,
        reason: String::new(),
        created_ts: ts(1),
        expires_ts: ts(expires_ts),
        released_ts: released_ts.map(ts),
    }
}

fn archive_view(
    id: i64,
    agent: &str,
    path_pattern: Option<&str>,
    exclusive: Option<bool>,
    released_ts: Option<i64>,
) -> ArchiveReservationView {
    ArchiveReservationView {
        reservation_id: id,
        agent_name: agent.to_string(),
        reason: String::new(),
        path_pattern: path_pattern.map(str::to_string),
        exclusive,
        released_ts,
        expires_ts: None,
    }
}

fn names(pairs: &[(i64, &str)]) -> HashMap<i64, String> {
    pairs
        .iter()
        .map(|(id, name)| (*id, (*name).to_string()))
        .collect()
}

fn project() -> ProjectRow {
    ProjectRow {
        id: Some(1),
        slug: "proj".to_string(),
        human_key: "/abs/proj".to_string(),
    }
}

/// Whether the pattern `a` covers the path `b`: the same, or below `dir/**`.
fn covers(a: &str, b: &str) -> bool {
    a == b || a.strip_suffix("**").is_some_and(|dir| b.starts_with(dir))
}

fn overlap_row(row: &FileReservationRow, paths: &Option<Vec<String>>) -> Vec<bool> {
    match paths {
        Some(list) => list
            .iter()
            .map(|p| covers(p, &row.path_pattern) || covers(&row.path_pattern, p))
            .collect(),
        None => Vec::new(),
    }
}

fn expiries(
    rows: &Vec<FileReservationRow>,
    agent_id: i64,
    paths: Option<Vec<String>>,
    ids: Option<Vec<i64>>,
) -> HashMap<i64, i64> {
    let overlaps: Vec<Vec<bool>> = rows.iter().map(|row| overlap_row(row, &paths)).collect();
    collect_previous_expiries(rows, agent_id, &paths, &ids, &overlaps)
}

fn matches_filter(
    row: &FileReservationRow,
    agent_id: i64,
    paths: Option<Vec<String>>,
    ids: Option<Vec<i64>>,
) -> bool {
    let overlaps = overlap_row(row, &paths);
    renewal_filter_matches(row, agent_id, &paths, &ids, &overlaps)
}

fn parse(text: &str) -> Value {
    serde_json::from_str(text).expect("json")
}

#[test]
fn released_ts_json_value_none_is_null() {
    assert!(released_ts_json_value(&None).is_null());
}

#[test]
fn released_ts_json_value_some_is_iso_string() {
    let value = released_ts_json_value(&Some(Timestamp {
        micros: 1_738_801_200_000_000,
        iso: "2025-02-06T00:20:00.000000Z".to_string(),
    }));
    assert_eq!(
        value,
        Value::String("2025-02-06T00:20:00.000000Z".to_string())
    );
}

#[test]
fn collect_previous_expiries_applies_agent_and_path_filters() {
    let rows = vec![
        reservation_row(1, 7, "src/**", 1_000, None),
        reservation_row(2, 7, "docs/*.md", 2_000, None),
        reservation_row(3, 9, "src/**", 3_000, None),
        reservation_row(4, 7, "src/**", 4_000, Some(100)),
    ];
    let map = expiries(&rows, 7, Some(vec!["src/**".to_string()]), None);
    assert_eq!(map.len(), 1);
    assert_eq!(map.get(&1), Some(&1_000));
}

#[test]
fn collect_previous_expiries_respects_id_filter() {
    let rows = vec![
        reservation_row(10, 5, "src/**", 10_000, None),
        reservation_row(11, 5, "src/**", 11_000, None),
    ];
    let map = expiries(&rows, 5, None, Some(vec![11]));
    assert_eq!(map.len(), 1);
    assert_eq!(map.get(&11), Some(&11_000));
}

#[test]
fn renewal_filter_matches_treats_explicit_empty_filters_as_match_none() {
    let mut row = reservation_row(42, 7, "src/main.rs", 1, None);
    row.created_ts = ts(0);
    assert!(!matches_filter(&row, 7, Some(Vec::new()), None));
    assert!(!matches_filter(&row, 7, None, Some(Vec::new())));
    assert!(!matches_filter(&row, 7, Some(Vec::new()), Some(Vec::new())));
    assert!(matches_filter(&row, 7, None, None));
    assert!(!matches_filter(&row, 8, None, None));
}

#[test]
fn renewal_filter_matches_uses_symmetric_overlap_for_paths() {
    let row = reservation_row(42, 7, "src/**", 1, None);
    assert!(matches_filter(
        &row,
        7,
        Some(vec!["src/main.rs".to_string()]),
        None
    ));
    assert!(!matches_filter(
        &row,
        7,
        Some(vec!["docs/x.md".to_string()]),
        None
    ));
}

#[test]
fn renewal_filter_matches_includes_defensively_active_nonpositive_released_ts() {
    let active_zero = reservation_row(42, 7, "src/**", 1, Some(0));
    assert!(matches_filter(
        &active_zero,
        7,
        Some(vec!["src/main.rs".to_string()]),
        None
    ));
    let released = reservation_row(43, 7, "src/**", 1, Some(1_700_000_000_000_000));
    assert!(!matches_filter(
        &released,
        7,
        Some(vec!["src/main.rs".to_string()]),
        None
    ));
}

#[test]
fn heal_emits_missing_artifact() {
    let rows = vec![reservation_row(1, 7, "src/**", 9_999, None)];
    let present = BTreeMap::new();
    let heal = reservation_rows_needing_archive_heal(
        "/abs/proj",
        &rows,
        &names(&[(7, "GreenCastle")]),
        &present,
    );
    assert_eq!(heal.len(), 1, "a missing artifact must be healed");
    assert_eq!(heal[0]["id"], 1);
    assert_eq!(heal[0]["agent"], "GreenCastle");
    assert_eq!(heal[0]["path_pattern"], "src/**");
    assert_eq!(heal[0]["exclusive"], true);
    assert_eq!(heal[0]["project"], "/abs/proj");
}

#[test]
fn heal_emits_stale_holder() {
    let rows = vec![reservation_row(1, 7, "src/**", 9_999, None)];
    let mut present = BTreeMap::new();
    present.insert(
        1,
        archive_view(1, "RustyOtter", Some("src/**"), Some(true), None),
    );
    let heal = reservation_rows_needing_archive_heal(
        "/abs/proj",
        &rows,
        &names(&[(7, "GreenCastle")]),
        &present,
    );
    assert_eq!(heal.len(), 1);
    assert_eq!(heal[0]["agent"], "GreenCastle");
}

#[test]
fn heal_emits_stale_path_pattern() {
    let rows = vec![reservation_row(1, 7, "src/a.rs", 9_999, None)];
    let mut present = BTreeMap::new();
    present.insert(
        1,
        archive_view(1, "GreenCastle", Some("src/b.rs"), Some(true), None),
    );
    let heal = reservation_rows_needing_archive_heal(
        "/abs/proj",
        &rows,
        &names(&[(7, "GreenCastle")]),
        &present,
    );
    assert_eq!(heal.len(), 1, "a divergent reserved path must be healed");
    assert_eq!(heal[0]["path_pattern"], "src/a.rs");
}

#[test]
fn heal_emits_stale_exclusive_flag() {
    let mut row = reservation_row(1, 7, "src/**", 9_999, None);
    row.exclusive = 0;
    let mut present = BTreeMap::new();
    present.insert(
        1,
        archive_view(1, "GreenCastle", Some("src/**"), Some(true), None),
    );
    let heal = reservation_rows_needing_archive_heal(
        "/abs/proj",
        &vec![row],
        &names(&[(7, "GreenCastle")]),
        &present,
    );
    assert_eq!(heal.len(), 1);
    assert_eq!(heal[0]["exclusive"], false);
}

#[test]
fn heal_emits_when_archive_claims_released_for_active_db_row() {
    let rows = vec![reservation_row(1, 7, "src/**", 9_999, None)];
    let mut present = BTreeMap::new();
    present.insert(
        1,
        archive_view(1, "GreenCastle", Some("src/**"), Some(true), Some(123)),
    );
    let heal = reservation_rows_needing_archive_heal(
        "/abs/proj",
        &rows,
        &names(&[(7, "GreenCastle")]),
        &present,
    );
    assert_eq!(heal.len(), 1);
}

fn fr_op(records: Vec<Value>) -> WriteOp {
    WriteOp::FileReservation {
        project_slug: "proj".to_string(),
        reservations: records,
    }
}

#[test]
fn terminal_release_classifier_gates_the_queued_fallback() {
    let active = parse("{\"id\": 1, \"agent\": \"GreenCastle\", \"path_pattern\": \"src/**\"}");
    let active_null_release = parse("{\"id\": 1, \"released_ts\": null}");
    let released = parse("{\"id\": 1, \"released_ts\": \"2026-07-05T00:00:00.000000Z\"}");

    assert!(reservation_op_is_terminal_release(&fr_op(vec![
        released.clone()
    ])));
    assert!(!reservation_op_is_terminal_release(&fr_op(vec![
        active.clone()
    ])));
    assert!(!reservation_op_is_terminal_release(&fr_op(vec![
        active_null_release
    ])));
    assert!(!reservation_op_is_terminal_release(&fr_op(vec![
        released, active
    ])));
    assert!(!reservation_op_is_terminal_release(&fr_op(Vec::new())));
    assert!(!reservation_op_is_terminal_release(&WriteOp::Other));
}

#[test]
fn only_failed_release_writes_are_queued() {
    let active = parse("{\"id\": 1}");
    let released = parse("{\"id\": 1, \"released_ts\": \"now\"}");
    let failed = DirectArchiveWrite::Failed("disk full".to_string());
    assert!(dispatch_reservation_archive_write(fr_op(vec![released.clone()]), &failed).is_some());
    assert!(dispatch_reservation_archive_write(fr_op(vec![active]), &failed).is_none());
    for done in [
        DirectArchiveWrite::Written,
        DirectArchiveWrite::SkippedDiskCritical,
    ] {
        assert!(dispatch_reservation_archive_write(fr_op(vec![released.clone()]), &done).is_none());
    }
}

#[test]
fn heal_emits_stale_expires_ts_after_renew() {
    let rows = vec![reservation_row(1, 7, "src/**", 9_999, None)];
    let mut stale = archive_view(1, "GreenCastle", Some("src/**"), Some(true), None);
    stale.expires_ts = Some(5_000);
    let mut present = BTreeMap::new();
    present.insert(1, stale);
    let heal = reservation_rows_needing_archive_heal(
        "/abs/proj",
        &rows,
        &names(&[(7, "GreenCastle")]),
        &present,
    );
    assert_eq!(heal.len(), 1, "stale pre-renew expiry must heal");
}

#[test]
fn heal_is_noop_when_expires_ts_matches() {
    let rows = vec![reservation_row(1, 7, "src/**", 9_999, None)];
    let mut view = archive_view(1, "GreenCastle", Some("src/**"), Some(true), None);
    view.expires_ts = Some(9_999);
    let mut present = BTreeMap::new();
    present.insert(1, view);
    let heal = reservation_rows_needing_archive_heal(
        "/abs/proj",
        &rows,
        &names(&[(7, "GreenCastle")]),
        &present,
    );
    assert!(heal.is_empty(), "a matching expiry must not re-emit");
}

#[test]
fn heal_is_noop_when_consistent() {
    let rows = vec![reservation_row(1, 7, "src/**", 9_999, None)];
    let mut present = BTreeMap::new();
    present.insert(
        1,
        archive_view(1, "GreenCastle", Some("src/**"), Some(true), None),
    );
    let heal = reservation_rows_needing_archive_heal(
        "/abs/proj",
        &rows,
        &names(&[(7, "GreenCastle")]),
        &present,
    );
    assert!(heal.is_empty());
}

#[test]
fn heal_skips_row_with_unknown_agent() {
    let rows = vec![reservation_row(1, 7, "src/**", 9_999, None)];
    let present = BTreeMap::new();
    let heal = reservation_rows_needing_archive_heal(
        "/abs/proj",
        &rows,
        &names(&[(9, "Other")]),
        &present,
    );
    assert!(heal.is_empty());
}

#[test]
fn heal_does_not_flag_archive_that_omits_path_or_exclusive() {
    let rows = vec![reservation_row(1, 7, "src/**", 9_999, None)];
    let mut present = BTreeMap::new();
    present.insert(1, archive_view(1, "GreenCastle", None, None, None));
    let heal = reservation_rows_needing_archive_heal(
        "/abs/proj",
        &rows,
        &names(&[(7, "GreenCastle")]),
        &present,
    );
    assert!(heal.is_empty());
}

/// What an archive scan makes of an artifact.
fn scanned(artifact: &Value) -> ArchiveReservationView {
    let text = artifact.to_string();
    let read: Value = parse(&text);
    ArchiveReservationView {
        reservation_id: read["id"].as_i64().expect("id"),
        agent_name: read["agent"].as_str().expect("agent").to_string(),
        reason: read["reason"].as_str().unwrap_or("").to_string(),
        path_pattern: read["path_pattern"].as_str().map(str::to_string),
        exclusive: read["exclusive"].as_bool(),
        released_ts: read["released_ts"]
            .as_str()
            .map(|t| t[1..].parse().expect("micros")),
        expires_ts: read["expires_ts"]
            .as_str()
            .map(|t| t[1..].parse().expect("micros")),
    }
}

#[test]
fn healed_artifact_json_round_trips_through_archive_scan() {
    let row = reservation_row(1, 7, "src/**", 9_999, None);
    let artifact = active_reservation_artifact_json("/abs/proj", "GreenCastle", &row);
    let view = scanned(&artifact);
    assert_eq!(view.agent_name, "GreenCastle");
    assert_eq!(view.path_pattern.as_deref(), Some("src/**"));
    assert_eq!(view.exclusive, Some(true));
    assert_eq!(view.released_ts, None);
    assert!(!active_archive_artifact_diverges(&view, &row, "GreenCastle"));
    assert!(!active_archive_artifact_diverges(&view, &row, " GreenCastle "));
    assert!(active_archive_artifact_diverges(&view, &row, "BlueLake"));
}

#[test]
fn released_heal_rewrites_stale_active_artifact() {
    let rows = vec![reservation_row(1, 7, "src/**", 9_999, Some(5_000))];
    let mut present = BTreeMap::new();
    present.insert(
        1,
        archive_view(1, "GreenCastle", Some("src/**"), Some(true), None),
    );
    let heal = released_rows_needing_archive_heal(
        "/abs/proj",
        &rows,
        &names(&[(7, "GreenCastle")]),
        &present,
    );
    assert_eq!(heal.len(), 1, "stale-active artifact must be rewritten");
    assert_eq!(heal[0]["agent"], "GreenCastle");
    assert!(!heal[0]["released_ts"].is_null());
}

#[test]
fn released_heal_is_noop_when_artifact_already_released() {
    let rows = vec![reservation_row(1, 7, "src/**", 9_999, Some(5_000))];
    let mut present = BTreeMap::new();
    present.insert(
        1,
        archive_view(1, "GreenCastle", Some("src/**"), Some(true), Some(5_000)),
    );
    let heal = released_rows_needing_archive_heal(
        "/abs/proj",
        &rows,
        &names(&[(7, "GreenCastle")]),
        &present,
    );
    assert!(heal.is_empty());
}

#[test]
fn released_heal_skips_missing_artifact_and_unknown_agent() {
    let rows = vec![
        reservation_row(1, 7, "src/**", 9_999, Some(5_000)),
        reservation_row(2, 8, "docs/**", 9_999, Some(5_000)),
    ];
    let mut present = BTreeMap::new();
    present.insert(
        2,
        archive_view(2, "Unknowable", Some("docs/**"), Some(true), None),
    );
    let heal = released_rows_needing_archive_heal(
        "/abs/proj",
        &rows,
        &names(&[(7, "GreenCastle")]),
        &present,
    );
    assert!(heal.is_empty());
}

#[test]
fn released_heal_artifact_round_trips_as_released() {
    let row = reservation_row(1, 7, "src/**", 9_999, Some(5_000));
    let artifact = released_reservation_artifact_json("/abs/proj", "GreenCastle", &row);
    let view = scanned(&artifact);
    assert_eq!(view.agent_name, "GreenCastle");
    assert!(ts_is_positive(view.released_ts));
    assert!(!ts_is_positive(None));
    assert!(!ts_is_positive(Some(0)));
}

#[test]
fn reconcile_writes_what_is_due() {
    let rows = vec![
        reservation_row(1, 7, "src/**", 9_999, None),
        reservation_row(2, 7, "docs/**", 9_999, None),
    ];
    assert_eq!(artifact_ids(&rows), [1, 2]);
    let known = names(&[(7, "GreenCastle")]);
    let mut present = BTreeMap::new();
    present.insert(
        2,
        archive_view(2, "GreenCastle", Some("docs/**"), Some(true), None),
    );
    let write = reconcile_active_reservation_archive(&project(), &rows, &known, &present)
        .expect("one artifact is missing");
    assert_eq!(
        write.context,
        "reservation archive reconcile-on-read project=proj"
    );
    assert!(!reservation_op_is_terminal_release(&write.op));
    match write.op {
        WriteOp::FileReservation {
            project_slug,
            reservations,
        } => {
            assert_eq!(project_slug, "proj");
            assert_eq!(reservations.len(), 1);
            assert_eq!(reservations[0]["id"], 1);
        }
        WriteOp::Other => panic!("wrong op"),
    }
    present.insert(
        1,
        archive_view(1, "GreenCastle", Some("src/**"), Some(true), None),
    );
    assert!(reconcile_active_reservation_archive(&project(), &rows, &known, &present).is_none());

    let released = vec![reservation_row(1, 7, "src/**", 9_999, Some(5_000))];
    let write = reconcile_released_reservation_archive(&project(), &released, &known, &present)
        .expect("the artifact says active");
    assert!(reservation_op_is_terminal_release(&write.op));
    assert_eq!(
        write.context,
        "reservation archive released-row reconcile-on-read project=proj"
    );
}

#[test]
fn healed_archive_needs_no_second_write() {
    let rows = vec![
        reservation_row(1, 7, "src/**", 500, None),
        reservation_row(2, 8, "docs", 600, None),
    ];
    let known = names(&[(7, "GreenCastle"), (8, "BlueLake")]);
    let mut present = BTreeMap::new();
    let write = reconcile_active_reservation_archive(&project(), &rows, &known, &present)
        .expect("both artifacts are missing");
    if let WriteOp::FileReservation { reservations, .. } = &write.op {
        assert_eq!(reservations.len(), 2);
        for record in reservations {
            let id = record["id"].as_i64().expect("id");
            present.insert(id, scanned(record));
        }
    }
    assert!(reconcile_active_reservation_archive(&project(), &rows, &known, &present).is_none());
    let released = vec![reservation_row(1, 7, "src/**", 500, Some(400))];
    let write = reconcile_released_reservation_archive(&project(), &released, &known, &present)
        .expect("the artifact says that it is held");
    if let WriteOp::FileReservation { reservations, .. } = &write.op {
        present.insert(1, scanned(&reservations[0]));
    }
    assert!(
        reconcile_released_reservation_archive(&project(), &released, &known, &present).is_none()
    );
}
