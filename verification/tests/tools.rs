use file_reservations::acquire::{
    file_reservation_paths, AcquireAnswer, AcquireCreated, AcquireHeal, AcquireHealNext,
    AcquireMatch, AcquireNext,
};
use file_reservations::archive::{
    artifact_ids, dispatch_reservation_archive_write, row_id, ArchiveWrite, DirectArchiveWrite,
    WriteOp,
};
use file_reservations::conflict::{
    check_file_reservation_conflicts, ConflictCheckCaller, ReservationConflictSnapshot,
    SnapshotReservation, MAX_CONFLICT_CHECK_PATHS, MAX_CONFLICT_CHECK_SNAPSHOT_ROWS,
};
use file_reservations::errors::legacy_tool_error;
use file_reservations::force::{
    force_release_file_reservation, ForceNext, HolderRow, MessageRow, Notification,
    PatternActivity,
};
use file_reservations::intent::{
    append_release_intent, append_release_intent_jsonl, read_queued_release_intents,
};
use file_reservations::machine::Machine;
use file_reservations::model::{
    AgentRow, ArchiveReservationView, DbErrorKind, DbFailure, DbOutcome,
    FileReservationRow, McpError, ProjectRow, ReservationConflictCheckResponse,
    ReservationResponse, RenewalResult, Timestamp,
};
use file_reservations::patterns::PatternFacts;
use file_reservations::release::{
    queued_release_intent_response, release_file_reservations, LookupError, ReleaseDone,
    ReleaseFailed, ReleaseHealNext, ReleaseNext, ReleaseReconcile, ReleaseReplay, ReleaseRequest,
    ReleaseSettled, ReleaseStop, ReplayDetail, ReplayEnd, ReplayNext,
};
use file_reservations::renew::renew_file_reservations;
use serde_json::Value;
use std::collections::{BTreeMap, HashSet};

const HOUR: i64 = 3_600_000_000;

fn machine() -> Machine {
    Machine::posix(Some("/home/agent".to_string()))
}

fn ts(micros: i64) -> Timestamp {
    Timestamp {
        micros,
        iso: format!("t{micros:020}"),
    }
}

fn parse(text: &str) -> Value {
    serde_json::from_str(text).expect("json")
}

// A small pattern engine: `*` and `?` inside a segment, `**` across segments, and
// a directory that covers what is below it.

fn normalized(pattern: &str) -> String {
    let parts: Vec<&str> = pattern
        .split(['/', '\\'])
        .filter(|part| !part.is_empty() && *part != ".")
        .collect();
    parts.join("/")
}

fn facts(pattern: &str) -> PatternFacts {
    let count = |c: char| pattern.chars().filter(|x| *x == c).count();
    PatternFacts {
        normalized: normalized(pattern),
        is_glob: pattern.contains(['*', '?', '[', '{']),
        is_matchable: count('[') == count(']') && count('{') == count('}'),
    }
}

fn all_facts(patterns: &[String]) -> Vec<PatternFacts> {
    patterns.iter().map(|p| facts(p)).collect()
}

fn segment_matches(glob: &[char], text: &[char]) -> bool {
    match glob.first() {
        None => text.is_empty(),
        Some('*') => {
            segment_matches(&glob[1..], text)
                || (!text.is_empty() && segment_matches(glob, &text[1..]))
        }
        Some('?') => !text.is_empty() && segment_matches(&glob[1..], &text[1..]),
        Some(c) => text.first() == Some(c) && segment_matches(&glob[1..], &text[1..]),
    }
}

fn glob_matches(glob: &[&str], path: &[&str]) -> bool {
    match glob.first() {
        None => path.is_empty(),
        Some(&"**") => {
            glob_matches(&glob[1..], path) || (!path.is_empty() && glob_matches(glob, &path[1..]))
        }
        Some(segment) => {
            let wanted: Vec<char> = segment.chars().collect();
            path.first().is_some_and(|first| {
                let text: Vec<char> = first.chars().collect();
                segment_matches(&wanted, &text)
            }) && glob_matches(&glob[1..], &path[1..])
        }
    }
}

fn covers(a: &str, b: &str) -> bool {
    let glob: Vec<&str> = a.split('/').collect();
    let path: Vec<&str> = b.split('/').collect();
    glob_matches(&glob, &path) || b.starts_with(&format!("{a}/"))
}

fn overlap(a: &str, b: &str) -> bool {
    a == b || covers(a, b) || covers(b, a)
}

/// A mail store in memory.
struct Mail {
    now: i64,
    projects: Vec<ProjectRow>,
    agents: Vec<(i64, HolderRow)>,
    rows: Vec<FileReservationRow>,
    artifacts: BTreeMap<i64, Value>,
    log: String,
    down: Option<&'static str>,
    stale_reads: u32,
    mail: Option<Timestamp>,
    activity: PatternActivity,
    messages: Vec<Value>,
    notices: Vec<Notification>,
}

fn db_failure(kind: DbErrorKind, name: &str, blocks_edits: bool) -> DbFailure {
    DbFailure {
        kind,
        detail: "database is locked".to_string(),
        class: "class".to_string(),
        blocks_edits,
        safe_to_continue_read_only: true,
        recommended_command: None,
        error: legacy_tool_error(name, "database is locked", true, parse("{}")),
    }
}

fn not_found(what: &str) -> McpError {
    legacy_tool_error("NOT_FOUND", what, true, parse("{}"))
}

enum Released {
    Done(i32),
    Queued(Value),
}

impl Mail {
    fn new() -> Mail {
        Mail {
            now: 1_000 * HOUR,
            projects: Vec::new(),
            agents: Vec::new(),
            rows: Vec::new(),
            artifacts: BTreeMap::new(),
            log: String::new(),
            down: None,
            stale_reads: 0,
            mail: None,
            activity: PatternActivity {
                matches: false,
                fs_activity: None,
                git_activity: None,
            },
            messages: Vec::new(),
            notices: Vec::new(),
        }
    }

    fn ensure_project(&mut self, key: &str) -> ProjectRow {
        let id = self.projects.len() as i64 + 1;
        let project = ProjectRow {
            id: Some(id),
            slug: format!("slug-{id}"),
            human_key: key.to_string(),
        };
        self.projects.push(project.clone());
        project
    }

    fn register_agent(&mut self, project: &ProjectRow, name: &str) -> i64 {
        let id = self.agents.len() as i64 + 1;
        self.agents.push((
            row_id(project.id),
            HolderRow {
                id: Some(id),
                name: name.to_string(),
                last_active_ts: ts(self.now),
            },
        ));
        id
    }

    fn create(
        &mut self,
        project_id: i64,
        agent_id: i64,
        paths: &[&str],
        ttl: i64,
        exclusive: bool,
        reason: &str,
    ) -> Vec<FileReservationRow> {
        let mut made = Vec::new();
        for path in paths {
            let row = FileReservationRow {
                id: Some(self.rows.len() as i64 + 1),
                project_id,
                agent_id,
                path_pattern: path.to_string(),
                exclusive: i64::from(exclusive),
                reason: reason.to_string(),
                created_ts: ts(self.now),
                expires_ts: ts(self.now + ttl * 1_000_000),
                released_ts: None,
            };
            self.rows.push(row.clone());
            made.push(row);
        }
        made
    }

    fn reservation(&mut self, project: &ProjectRow, agent: i64, path: &str, ttl: i64, exclusive: bool) -> i64 {
        let rows = self.create(
            row_id(project.id),
            agent,
            &[path],
            ttl,
            exclusive,
            "conflict-check test",
        );
        rows[0].id.expect("id")
    }

    fn unreleased(&self, project_id: i64) -> Vec<FileReservationRow> {
        self.rows
            .iter()
            .filter(|row| row.project_id == project_id && row.released_ts.is_none())
            .cloned()
            .collect()
    }

    fn active(&self, project_id: i64) -> Vec<FileReservationRow> {
        let mut rows = self.unreleased(project_id);
        rows.retain(|row| row.expires_ts.micros > self.now);
        rows
    }

    fn released_unexpired(&self, project_id: i64) -> Vec<FileReservationRow> {
        self.rows
            .iter()
            .filter(|row| {
                row.project_id == project_id
                    && row.released_ts.is_some()
                    && row.expires_ts.micros > self.now
            })
            .cloned()
            .collect()
    }

    fn project_agents(&self, project_id: i64) -> Vec<AgentRow> {
        self.agents
            .iter()
            .filter(|(id, _)| *id == project_id)
            .map(|(_, agent)| AgentRow {
                id: agent.id,
                name: agent.name.clone(),
            })
            .collect()
    }

    fn resolve_project(&self, key: &str) -> Result<ProjectRow, McpError> {
        if self.down == Some("resolve_project") {
            return Err(db_failure(DbErrorKind::Pool, "DATABASE_ERROR", true).error);
        }
        self.projects
            .iter()
            .find(|p| p.human_key == key || p.slug == key)
            .cloned()
            .ok_or_else(|| not_found("project not found"))
    }

    fn resolve_agent(&self, project_id: i64, name: &str) -> Result<AgentRow, McpError> {
        self.project_agents(project_id)
            .into_iter()
            .find(|agent| agent.name.eq_ignore_ascii_case(name))
            .ok_or_else(|| not_found("agent not found"))
    }

    fn release_rows(
        &mut self,
        project_id: i64,
        agent_id: i64,
        ids: Option<&[i64]>,
    ) -> Vec<FileReservationRow> {
        let now = self.now;
        let mut out = Vec::new();
        for row in &mut self.rows {
            let wanted = ids.is_none_or(|list| list.contains(&row_id(row.id)));
            if row.project_id == project_id
                && row.agent_id == agent_id
                && row.released_ts.is_none()
                && wanted
            {
                row.released_ts = Some(ts(now));
                out.push(row.clone());
            }
        }
        out
    }

    fn view(&self, id: i64) -> Option<ArchiveReservationView> {
        self.artifacts.get(&id).map(|value| ArchiveReservationView {
            reservation_id: id,
            agent_name: value["agent"].as_str().unwrap_or("").to_string(),
            reason: value["reason"].as_str().unwrap_or("").to_string(),
            path_pattern: value["path_pattern"].as_str().map(str::to_string),
            exclusive: value["exclusive"].as_bool(),
            released_ts: value["released_ts"]
                .as_str()
                .map(|t| t[1..].parse().expect("micros")),
            expires_ts: value["expires_ts"]
                .as_str()
                .map(|t| t[1..].parse().expect("micros")),
        })
    }

    fn present(&self, rows: &Vec<FileReservationRow>) -> BTreeMap<i64, ArchiveReservationView> {
        artifact_ids(rows)
            .into_iter()
            .filter_map(|id| self.view(id).map(|view| (id, view)))
            .collect()
    }

    fn write(&mut self, write: Option<ArchiveWrite>) {
        if let Some(due) = write {
            if let WriteOp::FileReservation { reservations, .. } = &due.op {
                for record in reservations {
                    let id = record["id"].as_i64().expect("id");
                    self.artifacts.insert(id, record.clone());
                }
            }
            let queued = dispatch_reservation_archive_write(due.op, &DirectArchiveWrite::Written);
            assert!(queued.is_none());
        }
    }

    fn agent_list(&self, project_id: i64) -> DbOutcome<Vec<AgentRow>> {
        if self.down == Some("agents") {
            DbOutcome::Failed(db_failure(DbErrorKind::Pool, "DATABASE_ERROR", true))
        } else {
            DbOutcome::Done(self.project_agents(project_id))
        }
    }

    fn released_list(
        &self,
        project_id: i64,
    ) -> (
        DbOutcome<Vec<FileReservationRow>>,
        BTreeMap<i64, ArchiveReservationView>,
    ) {
        if self.down == Some("released list") {
            let failed = DbOutcome::Failed(db_failure(DbErrorKind::Pool, "DATABASE_ERROR", true));
            return (failed, BTreeMap::new());
        }
        let rows = self.released_unexpired(project_id);
        let present = self.present(&rows);
        (DbOutcome::Done(rows), present)
    }

    fn reconcile_acquire(&mut self, project_id: i64, waiting: AcquireHeal) -> AcquireMatch {
        let present = self.present(&waiting.matching.active);
        let healed = waiting.with_agents(self.agent_list(project_id), &present);
        self.write(healed.write);
        match healed.next {
            AcquireHealNext::Match(matching) => matching,
            AcquireHealNext::Released(waiting) => {
                let (released, present) = self.released_list(project_id);
                let reconciled = waiting.with_released(released, &present);
                self.write(reconciled.write);
                reconciled.matching
            }
        }
    }

    fn reconcile_release(&mut self, waiting: ReleaseReconcile) -> ReleaseSettled {
        let project_id = row_id(waiting.done.project.id);
        let active = if self.down == Some("active list") {
            DbOutcome::Failed(db_failure(DbErrorKind::Pool, "DATABASE_ERROR", true))
        } else {
            DbOutcome::Done(self.active(project_id))
        };
        let mut next = waiting.with_active(active);
        loop {
            next = match next {
                ReleaseHealNext::Answer(settled) => return settled,
                ReleaseHealNext::Agents(waiting) => {
                    let present = self.present(&waiting.active);
                    let healed = waiting.with_agents(self.agent_list(project_id), &present);
                    self.write(healed.write);
                    healed.next
                }
                ReleaseHealNext::Released(waiting) => {
                    let (released, present) = self.released_list(project_id);
                    let reconciled = waiting.with_released(released, &present);
                    self.write(reconciled.write);
                    ReleaseHealNext::Answer(reconciled.settled)
                }
            };
        }
    }

    fn reserve(
        &mut self,
        key: &str,
        agent: &str,
        paths: &[&str],
        exclusive: Option<bool>,
    ) -> Result<ReservationResponse, McpError> {
        let wanted: Vec<String> = paths.iter().map(|p| p.to_string()).collect();
        let request = file_reservation_paths(
            key.to_string(),
            agent.to_string(),
            None,
            wanted,
            Some(3600),
            exclusive,
            None,
        )?;
        let project = self.resolve_project(&request.project_key)?;
        let project_id = row_id(project.id);
        let known = all_facts(&request.paths);
        let judged = request.for_project(project, &known, &machine())?;
        let known = all_facts(&judged.run.relatives);
        let waiting = judged.judge(&known)?;
        let agent = self.resolve_agent(project_id, &waiting.request.agent_name)?;
        let read = match self.down {
            Some("get_active_reservations") => DbOutcome::Failed(db_failure(
                DbErrorKind::IntegrityCorruption,
                "DATABASE_CORRUPTION",
                true,
            )),
            _ if self.stale_reads > 0 => {
                self.stale_reads -= 1;
                DbOutcome::Done(Vec::new())
            }
            _ => DbOutcome::Done(self.active(project_id)),
        };
        let waiting = waiting.with_active(agent, read)?;
        let matching = self.reconcile_acquire(project_id, waiting);
        let overlaps: Vec<Vec<bool>> = matching
            .wanted
            .iter()
            .map(|path| {
                matching
                    .active
                    .iter()
                    .map(|row| overlap(path, &row.path_pattern))
                    .collect()
            })
            .collect();
        let mut next = matching.decide(&overlaps);
        if let AcquireNext::NameHolders(waiting) = next {
            next = waiting.with_agents(DbOutcome::Done(self.project_agents(project_id)))?;
        }
        let answer: AcquireAnswer = match next {
            AcquireNext::Answer(answer) => answer,
            AcquireNext::NameHolders(_) => panic!("holders were named"),
            AcquireNext::Create(grant) => {
                let paths: Vec<String> = (0..grant.grant.len())
                    .map(|i| grant.grant.at(i).clone())
                    .collect();
                let list: Vec<&str> = paths.iter().map(String::as_str).collect();
                let agent_id = row_id(grant.agent.id);
                let exclusive = grant.request.exclusive;
                let held = self.active(project_id).iter().any(|row| {
                    row.agent_id != agent_id
                        && (exclusive || row.exclusive != 0)
                        && list.iter().any(|path| overlap(path, &row.path_pattern))
                });
                let out = if self.down == Some("create") {
                    DbOutcome::Failed(db_failure(DbErrorKind::Sqlite, "DATABASE_ERROR", true))
                } else if held {
                    DbOutcome::Failed(db_failure(DbErrorKind::ResourceBusy, "RESOURCE_BUSY", false))
                } else {
                    let reason = grant.request.reason.clone();
                    let ttl = grant.request.ttl;
                    DbOutcome::Done(self.create(
                        project_id, agent_id, &list, ttl, exclusive, &reason,
                    ))
                };
                match grant.created(out)? {
                    AcquireCreated::Answer(answer) => answer,
                    AcquireCreated::Recheck(grant) => {
                        let recheck = grant.reread(DbOutcome::Done(self.active(project_id)))?;
                        let matching =
                            recheck.with_agents(DbOutcome::Done(self.project_agents(project_id)))?;
                        let overlaps: Vec<Vec<bool>> = (0..matching.waiting.grant.len())
                            .map(|i| {
                                matching
                                    .active
                                    .iter()
                                    .map(|row| {
                                        overlap(matching.waiting.grant.at(i), &row.path_pattern)
                                    })
                                    .collect()
                            })
                            .collect();
                        matching.answer(&overlaps)
                    }
                }
            }
        };
        self.write(answer.write);
        Ok(answer.response)
    }

    fn run_release(&mut self, request: ReleaseRequest) -> Result<ReleaseDone, ReleaseFailed> {
        let lookup = |error: McpError| LookupError {
            detail: error.message.clone(),
            error,
        };
        let found = self.resolve_project(&request.project_key).map_err(lookup);
        let paths = request.with_project(found, &machine())?;
        let known = match &paths.run {
            Some(run) => all_facts(&run.relatives),
            None => Vec::new(),
        };
        let waiting = paths.judge(&known)?;
        let project_id = row_id(waiting.project.id);
        let found = self
            .resolve_agent(project_id, &waiting.request.agent_name)
            .map_err(lookup);
        let call = match waiting.with_agent(found)? {
            ReleaseNext::Release(call) => call,
            ReleaseNext::List(list) => {
                let out = if self.down == Some("list") {
                    DbOutcome::Failed(db_failure(DbErrorKind::Schema, "DATABASE_ERROR", true))
                } else {
                    DbOutcome::Done(self.unreleased(project_id))
                };
                let matching = list.with_rows(out)?;
                let overlaps: Vec<Vec<bool>> = matching
                    .rows
                    .iter()
                    .map(|row| match &matching.paths {
                        Some(paths) => paths
                            .iter()
                            .map(|path| overlap(path, &row.path_pattern))
                            .collect(),
                        None => Vec::new(),
                    })
                    .collect();
                matching.pick(&overlaps)
            }
        };
        let out = match self.down {
            Some("release") => {
                DbOutcome::Failed(db_failure(DbErrorKind::ResourceBusy, "RESOURCE_BUSY", false))
            }
            Some("odd") => DbOutcome::Failed(db_failure(DbErrorKind::Other, "ODD", false)),
            Some("panic") => DbOutcome::Panicked {
                message: "boom".to_string(),
                error: not_found("panicked"),
            },
            Some("cancel") => DbOutcome::Cancelled {
                reason: "Timeout".to_string(),
                error: not_found("cancelled"),
            },
            _ => {
                let agent_id = row_id(call.agent.id);
                DbOutcome::Done(self.release_rows(project_id, agent_id, call.ids.as_deref()))
            }
        };
        call.released(out)
    }

    fn release(
        &mut self,
        key: &str,
        agent: &str,
        paths: Option<Vec<String>>,
        ids: Option<Vec<i64>>,
    ) -> Result<Released, McpError> {
        let request =
            release_file_reservations(key.to_string(), agent.to_string(), None, paths, ids);
        if self.down == Some("pool") {
            let stop = ReleaseStop::Queue(request.pool_unavailable("no pool".to_string()));
            return self.stop(stop);
        }
        match self.run_release(request) {
            Ok(mut done) => {
                self.write(done.write.take());
                let waiting = if self.down == Some("log") {
                    done.with_log(None)
                } else {
                    let log = self.log.clone();
                    done.with_log(Some(log.as_str()))
                };
                let waiting = self.replay_queue(waiting);
                let settled = self.reconcile_release(waiting);
                let result = settled.answer("now".to_string());
                assert_eq!(result.released_at, "now");
                Ok(Released::Done(result.released))
            }
            Err(failed) => self.stop(failed.stop()),
        }
    }

    fn stop(&mut self, stop: ReleaseStop) -> Result<Released, McpError> {
        match stop {
            ReleaseStop::Fail(error) => Err(error),
            ReleaseStop::Queue(queued) => {
                let intent = queued.intent(self.now);
                self.append(&intent.record);
                let text =
                    queued_release_intent_response(&intent, Ok("/log".to_string()), "now")?;
                Ok(Released::Queued(parse(&text)))
            }
        }
    }

    fn append(&mut self, record: &Value) {
        let text = append_release_intent_jsonl(self.log.as_bytes().last().copied(), record);
        self.log.push_str(&text);
    }

    fn queue(&mut self, key: &str, agent: &str, paths: Option<Vec<String>>, ids: Option<Vec<i64>>) {
        let intent = append_release_intent(
            key,
            agent,
            &paths,
            &ids,
            "injected_db_unavailable",
            "database disk image is malformed",
            self.now,
        );
        self.append(&intent.record);
    }

    fn replay_queue(&mut self, waiting: ReleaseReplay) -> ReleaseReconcile {
        let mut waiting = waiting;
        loop {
            let ended = match waiting.next() {
                ReplayNext::Reconcile(waiting) => return waiting,
                ReplayNext::Mark(ended) => ended,
                ReplayNext::Run(run) => {
                    let end = match self.run_release(run.request) {
                        Ok(mut done) => {
                            self.write(done.write.take());
                            done.end()
                        }
                        Err(failed) => {
                            let failure = failed.replay();
                            let text = match &failure.detail {
                                ReplayDetail::Text(_) => "not used".to_string(),
                                ReplayDetail::TextOf(error) => error.message.clone(),
                            };
                            failure.end(text)
                        }
                    };
                    run.pending.ended(end)
                }
            };
            let marked = ended.mark(self.now);
            self.append(&marked.marker);
            waiting = marked.replay;
        }
    }

    /// A replay of the whole queue after a release that found nothing to release.
    fn replay(&mut self) {
        let done = ReleaseDone {
            project: self.projects[0].clone(),
            released: 0,
            write: None,
        };
        let log = self.log.clone();
        self.replay_queue(done.with_log(Some(log.as_str())));
    }

    fn renew(
        &mut self,
        key: &str,
        agent: &str,
        extend: Option<i64>,
        paths: Option<Vec<String>>,
        ids: Option<Vec<i64>>,
    ) -> Result<RenewalResult, McpError> {
        let request = renew_file_reservations(
            key.to_string(),
            agent.to_string(),
            None,
            extend,
            paths,
            ids,
        );
        let project = self.resolve_project(&request.project_key)?;
        let project_id = row_id(project.id);
        let waiting = request.with_project(project, &machine());
        let known = match &waiting.run {
            Some(run) => all_facts(&run.relatives),
            None => Vec::new(),
        };
        let waiting = waiting.judge(&known)?;
        let agent = self.resolve_agent(project_id, &waiting.request.agent_name)?;
        let matching = waiting.with_rows(agent, DbOutcome::Done(self.active(project_id)))?;
        let overlaps: Vec<Vec<bool>> = matching
            .rows
            .iter()
            .map(|row| match &matching.paths {
                Some(paths) => paths
                    .iter()
                    .map(|path| overlap(path, &row.path_pattern))
                    .collect(),
                None => Vec::new(),
            })
            .collect();
        let call = matching.pick(&overlaps);
        let extend = call.request.extend * 1_000_000;
        let mut renewed = Vec::new();
        for row in &mut self.rows {
            if call.ids.contains(&row_id(row.id)) {
                let base = row.expires_ts.micros.max(self.now);
                row.expires_ts = ts(base + extend);
                renewed.push(row.clone());
            }
        }
        let done = call.renewed(DbOutcome::Done(renewed))?;
        self.write(done.write.clone());
        let texts: Vec<String> = done.old_expiries.iter().map(|m| ts(*m).iso).collect();
        Ok(done.answer(&texts))
    }

    fn force(
        &mut self,
        key: &str,
        agent: &str,
        id: i64,
        note: Option<String>,
        notify: Option<bool>,
    ) -> Result<Value, McpError> {
        let request = force_release_file_reservation(
            key.to_string(),
            agent.to_string(),
            None,
            id,
            note,
            notify,
        );
        let project = self.resolve_project(&request.project_key)?;
        let project_id = row_id(project.id);
        let actor = self.resolve_agent(project_id, &request.agent_name)?;
        let by_id = |mail: &Mail| -> Vec<FileReservationRow> {
            mail.rows
                .iter()
                .filter(|row| row.id == Some(id))
                .cloned()
                .collect()
        };
        let found = DbOutcome::Done(by_id(self));
        let case = match request.with_reservation(project, actor, found, 1800, 900)? {
            ForceNext::Answer(text) => return Ok(parse(&text)),
            ForceNext::FindHolder(case) => case,
        };
        let holder_id = case.reservation.agent_id;
        let holder = match self
            .agents
            .iter()
            .find(|(_, agent)| agent.id == Some(holder_id))
        {
            Some((_, agent)) => DbOutcome::Done(agent.clone()),
            None => DbOutcome::Failed(db_failure(DbErrorKind::NotFound, "NOT_FOUND", false)),
        };
        let waiting = case.with_holder(holder, self.now)?;
        let waiting = waiting.with_mail(DbOutcome::Done(self.mail.clone()))?;
        let call = waiting.with_activity(self.activity.clone())?;
        let expires = call.case.reservation.expires_ts.micros;
        let now = self.now;
        let mut count = 0;
        if self.down != Some("race") {
            for row in &mut self.rows {
                if row.id == Some(id)
                    && row.released_ts.is_none()
                    && row.expires_ts.micros == expires
                {
                    row.released_ts = Some(ts(now));
                    count += 1;
                }
            }
        }
        let waiting = call.released(DbOutcome::Done(count))?;
        let reread = if self.down == Some("lost") {
            Vec::new()
        } else {
            by_id(self)
        };
        let done = waiting.read_back(DbOutcome::Done(reread))?;
        self.write(done.write.clone());
        let created = match &done.notification {
            None => None,
            Some(message) => {
                self.notices.push(message.clone());
                Some(if self.down == Some("message") {
                    DbOutcome::Failed(db_failure(DbErrorKind::ResourceBusy, "RESOURCE_BUSY", true))
                } else {
                    let row = MessageRow {
                        id: Some(77),
                        subject: message.subject.clone(),
                        body_md: message.body.clone(),
                        thread_id: message.thread_id.clone(),
                        importance: message.importance.clone(),
                        ack_required: i64::from(message.ack_required),
                        created_ts: ts(self.now),
                    };
                    let mut record = done.message_record(&row);
                    assert_eq!(record["to"][0], Value::from(done.recipient()));
                    record["body"] = Value::from(message.body.as_str());
                    record["recipient_id"] = Value::from(message.recipient_id);
                    self.messages.push(record);
                    DbOutcome::Done(row)
                })
            }
        };
        Ok(parse(&done.answer(&created)))
    }

    fn snapshot(
        &self,
        key: &str,
        caller: &ConflictCheckCaller,
        max: usize,
    ) -> DbOutcome<ReservationConflictSnapshot> {
        let missing =
            || DbOutcome::Failed(db_failure(DbErrorKind::NotFound, "NOT_FOUND", true));
        let Ok(project) = self.resolve_project(key) else {
            return missing();
        };
        let project_id = row_id(project.id);
        let caller_agent_id = match caller {
            ConflictCheckCaller::Anonymous => None,
            ConflictCheckCaller::Named(name) => match self.resolve_agent(project_id, name) {
                Ok(agent) => agent.id,
                Err(_) => return missing(),
            },
        };
        let mut reservations: Vec<SnapshotReservation> = self
            .active(project_id)
            .into_iter()
            .filter(|row| row.exclusive != 0)
            .map(|row| SnapshotReservation {
                id: row_id(row.id),
                agent_id: row.agent_id,
                agent_name: self
                    .agents
                    .iter()
                    .find(|(_, agent)| agent.id == Some(row.agent_id))
                    .map(|(_, agent)| agent.name.clone()),
                path_pattern: row.path_pattern,
                expires_ts: row.expires_ts,
            })
            .collect();
        let overflow = reservations.len() > max;
        if overflow {
            reservations.clear();
        }
        DbOutcome::Done(ReservationConflictSnapshot {
            human_key: project.human_key,
            caller_agent_id,
            reservations,
            overflow,
            captured_ts: ts(self.now),
        })
    }

    fn check(
        &self,
        key: &str,
        agent: Option<&str>,
        paths: Vec<String>,
        mode: Option<&str>,
    ) -> Result<ReservationConflictCheckResponse, McpError> {
        self.check_bounded(key, agent, paths, mode, MAX_CONFLICT_CHECK_SNAPSHOT_ROWS)
    }

    fn check_bounded(
        &self,
        key: &str,
        agent: Option<&str>,
        paths: Vec<String>,
        mode: Option<&str>,
        max: usize,
    ) -> Result<ReservationConflictCheckResponse, McpError> {
        let check = check_file_reservation_conflicts(
            key,
            &agent.map(str::to_string),
            paths,
            &mode.map(str::to_string),
        )?;
        let check = check.named(None);
        let out = self.snapshot(&check.project_key, &check.caller, max);
        let scan = check.read_snapshot(out, &machine())?;
        let known = all_facts(&scan.run.relatives);
        let held: Vec<PatternFacts> = scan
            .snapshot
            .reservations
            .iter()
            .map(|r| facts(&r.path_pattern))
            .collect();
        let matching = scan.screen(&known, &held)?;
        let overlaps: Vec<Vec<bool>> = matching
            .paths
            .iter()
            .map(|path| {
                matching
                    .holders
                    .iter()
                    .map(|holder| overlap(path, &holder.path_pattern))
                    .collect()
            })
            .collect();
        Ok(matching.answer(&overlaps))
    }

    fn states(&self) -> Vec<(Option<i64>, Option<i64>, i64)> {
        self.rows
            .iter()
            .map(|row| {
                (
                    row.id,
                    row.released_ts.as_ref().map(|t| t.micros),
                    row.expires_ts.micros,
                )
            })
            .collect()
    }
}

fn strings(list: &[&str]) -> Vec<String> {
    list.iter().map(|s| s.to_string()).collect()
}

fn error_type(error: McpError) -> String {
    let data = error.data.expect("error data");
    data["error"]["type"].as_str().expect("type").to_string()
}

fn count(released: Result<Released, McpError>) -> i32 {
    match released {
        Ok(Released::Done(n)) => n,
        Ok(Released::Queued(_)) => panic!("queued"),
        Err(error) => panic!("failed: {error:?}"),
    }
}

#[test]
fn conflict_check_is_authoritative_read_only_and_filters_non_blocking_rows() {
    let mut mail = Mail::new();
    let key = "/tmp/conflict-check-golden-1";
    let project = mail.ensure_project(key);
    let holder = mail.register_agent(&project, "GreenCastle");
    let caller = mail.register_agent(&project, "BlueLake");
    mail.reservation(&project, holder, "src/main.rs", 3_600, true);
    mail.reservation(&project, holder, "docs/**/*.md", 3_600, true);
    mail.reservation(&project, holder, "config", 3_600, true);
    mail.reservation(&project, caller, "own/**", 3_600, true);
    mail.reservation(&project, holder, "expired/**", -1, true);
    mail.reservation(&project, holder, "shared/**", 3_600, false);
    let released = mail.reservation(&project, holder, "released/**", 3_600, true);
    assert_eq!(mail.release_rows(1, holder, Some(&[released])).len(), 1);

    let before = mail.states();
    let response = mail
        .check(
            key,
            Some("bluelake"),
            strings(&[
                "src/main.rs",
                "src/**",
                "docs/guide/readme.md",
                "config/app.toml",
                "own/file.rs",
                "expired/file.rs",
                "released/file.rs",
                "shared/file.rs",
                "free/file.rs",
            ]),
            None,
        )
        .expect("conflict check");

    assert!(!response.conflict_free);
    assert!(response.read_only);
    assert_eq!(response.authoritative_source, "database_snapshot");
    assert_eq!(response.checked_paths, 9);
    let conflict_paths = response
        .conflicts
        .iter()
        .map(|conflict| conflict.path.as_str())
        .collect::<HashSet<_>>();
    assert_eq!(
        conflict_paths,
        HashSet::from([
            "src/main.rs",
            "src/**",
            "docs/guide/readme.md",
            "config/app.toml",
        ])
    );
    assert!(response.conflicts.iter().all(|conflict| {
        conflict
            .holders
            .iter()
            .all(|holder| holder.agent == "GreenCastle" && holder.exclusive)
    }));
    assert_eq!(
        response.clear_paths,
        [
            "own/file.rs",
            "expired/file.rs",
            "released/file.rs",
            "shared/file.rs",
            "free/file.rs",
        ]
    );
    assert_eq!(response.project, key);
    assert_eq!(response.total_conflicting_reservations, 4);
    assert!(!response.output_truncated);
    assert_eq!(before, mail.states());
}

#[test]
fn conflict_check_rejects_an_unregistered_caller_spoof() {
    let mut mail = Mail::new();
    let key = "/tmp/conflict-check-spoof-1";
    let project = mail.ensure_project(key);
    let holder = mail.register_agent(&project, "GreenCastle");
    mail.reservation(&project, holder, "src/guard.rs", 3_600, true);
    let agents_before = mail.project_agents(1).len();
    let error = mail
        .check(key, Some("GhostAgent"), strings(&["src/guard.rs"]), None)
        .expect_err("unregistered caller must fail closed");
    let data = error.data.expect("error data");
    assert_eq!(
        data["error"]["data"]["reservation_acquire"]["fail_closed"],
        true
    );
    assert_eq!(
        data["error"]["data"]["reservation_acquire"]["do_not_edit"],
        parse("[\"src/guard.rs\"]")
    );
    assert_eq!(agents_before, mail.project_agents(1).len());
}

#[test]
fn anonymous_conflict_check_includes_every_holder_and_has_no_activity_writes() {
    let mut mail = Mail::new();
    let key = "/tmp/conflict-check-anonymous-1";
    let project = mail.ensure_project(key);
    let first = mail.register_agent(&project, "GreenCastle");
    let second = mail.register_agent(&project, "BlueLake");
    mail.reservation(&project, first, "src/green.rs", 3_600, true);
    mail.reservation(&project, second, "src/blue.rs", 3_600, true);
    let before = mail.states();
    let response = mail
        .check(
            key,
            None,
            strings(&["src/green.rs", "src/blue.rs"]),
            Some("anonymous"),
        )
        .expect("anonymous conflict check");
    assert!(!response.conflict_free);
    assert!(response.read_only);
    assert_eq!(response.checked_paths, 2);
    assert_eq!(response.total_conflicting_reservations, 2);
    assert_eq!(response.conflicts.len(), 2);
    assert_eq!(
        response
            .conflicts
            .iter()
            .flat_map(|conflict| conflict.holders.iter())
            .map(|holder| holder.agent.as_str())
            .collect::<HashSet<_>>(),
        HashSet::from(["BlueLake", "GreenCastle"])
    );
    assert_eq!(before, mail.states());
}

#[test]
fn conflict_check_caller_modes_and_request_bounds_fail_closed() {
    let mail = Mail::new();
    let key = "/tmp/conflict-check-input-contract";
    let one = || strings(&["src/lib.rs"]);
    let kind = |r: Result<ReservationConflictCheckResponse, McpError>| {
        error_type(r.expect_err("must fail closed"))
    };
    assert_eq!(kind(mail.check(key, None, one(), None)), "MISSING_AGENT_NAME");
    assert_eq!(
        kind(mail.check(key, Some("BlueLake"), one(), Some("anonymous"))),
        "AMBIGUOUS_CALLER_MODE"
    );
    assert_eq!(
        kind(mail.check(key, None, one(), Some("all"))),
        "INVALID_CALLER_MODE"
    );
    let too_many: Vec<String> = (0..=MAX_CONFLICT_CHECK_PATHS)
        .map(|index| format!("src/{index}.rs"))
        .collect();
    assert_eq!(
        kind(mail.check(key, None, too_many, Some("anonymous"))),
        "TOO_MANY_PATHS"
    );
    let oversized: Vec<String> = (0..17)
        .map(|index| format!("{index:02}/{}", "a".repeat(4_092)))
        .collect();
    assert_eq!(
        kind(mail.check(key, None, oversized, Some("anonymous"))),
        "PAYLOAD_TOO_LARGE"
    );
}

#[test]
fn conflict_check_reports_each_bad_request() {
    let mail = Mail::new();
    let one = || strings(&["src/lib.rs"]);
    let kind = |r: Result<ReservationConflictCheckResponse, McpError>| {
        error_type(r.expect_err("must fail closed"))
    };
    assert_eq!(
        kind(mail.check("/p", Some("A"), Vec::new(), None)),
        "EMPTY_PATHS"
    );
    assert_eq!(
        kind(mail.check("/p", Some("A"), vec!["a".repeat(4_097)], None)),
        "PATH_TOO_LONG"
    );
    assert_eq!(
        kind(mail.check("/p", Some("A"), strings(&["a\0b"]), None)),
        "INVALID_PATH"
    );
    assert_eq!(
        kind(mail.check("  ", Some("A"), one(), None)),
        "INVALID_PROJECT_KEY"
    );
    assert_eq!(
        kind(mail.check("/p", Some(" \t"), one(), Some("named"))),
        "INVALID_AGENT_NAME"
    );
    assert_eq!(
        kind(mail.check("/p", Some(&"n".repeat(257)), one(), None)),
        "INVALID_AGENT_NAME"
    );
    let error = mail
        .check("/p", None, one(), Some("a\"b"))
        .expect_err("mode");
    assert_eq!(
        error.message,
        "caller_mode must be 'named' or 'anonymous', got \"a\\\"b\""
    );
    let many: Vec<String> = (0..201).map(|i| format!("{i}")).collect();
    let error = mail.check("/p", Some("A"), many, None).expect_err("many");
    assert_eq!(
        error.message,
        "Maximum 200 paths per conflict check, got 201"
    );
    let data = error.data.expect("data");
    assert_eq!(data["error"]["data"]["count"], 201);
    assert_eq!(data["error"]["data"]["max"], 200);
    let large: Vec<String> = (0..17).map(|_| "a".repeat(4_096)).collect();
    let data = mail
        .check("/p", Some("A"), large, None)
        .expect_err("large")
        .data
        .expect("data");
    assert_eq!(data["error"]["data"]["payload_bytes"], 17 * 4_096);
}

#[test]
fn conflict_check_takes_names_without_white_space() {
    let check = check_file_reservation_conflicts(
        "  /p\n",
        &Some(" BlueLake ".to_string()),
        strings(&["a"]),
        &Some(" named ".to_string()),
    )
    .expect("check");
    assert_eq!(check.project_key, "/p");
    match &check.caller {
        ConflictCheckCaller::Named(name) => assert_eq!(name, "BlueLake"),
        ConflictCheckCaller::Anonymous => panic!("named"),
    }
    match check.named(Some("bluelake".to_string())).caller {
        ConflictCheckCaller::Named(name) => assert_eq!(name, "bluelake"),
        ConflictCheckCaller::Anonymous => panic!("named"),
    }
}

#[test]
fn conflict_snapshot_is_fresh_and_enforces_its_sql_row_bound() {
    let mut mail = Mail::new();
    let key = "/tmp/conflict-check-fresh-1";
    let project = mail.ensure_project(key);
    let holder = mail.register_agent(&project, "GreenCastle");
    mail.register_agent(&project, "BlueLake");
    let first = mail.reservation(&project, holder, "src/first.rs", 3_600, true);
    mail.reservation(&project, holder, "src/second.rs", 3_600, true);

    let bounded = mail
        .check_bounded(
            key,
            Some("BlueLake"),
            strings(&["src/first.rs"]),
            None,
            1,
        )
        .expect_err("too many rows");
    assert_eq!(error_type(bounded), "RESERVATION_SNAPSHOT_TOO_LARGE");
    let primed = mail
        .check_bounded(
            key,
            Some("BlueLake"),
            strings(&["src/first.rs"]),
            None,
            10,
        )
        .expect("primed");
    assert!(!primed.conflict_free);
    let anonymous = mail
        .check_bounded(
            key,
            None,
            strings(&["src/**"]),
            Some("anonymous"),
            10,
        )
        .expect("anonymous");
    assert_eq!(anonymous.total_conflicting_reservations, 2);
    assert_eq!(mail.release_rows(1, holder, Some(&[first])).len(), 1);
    let response = mail
        .check(key, Some("BlueLake"), strings(&["src/first.rs"]), None)
        .expect("fresh conflict check");
    assert!(response.conflict_free);
    assert_eq!(response.clear_paths, ["src/first.rs"]);
}

#[test]
fn conflict_check_fails_closed_on_malformed_request_or_stored_pattern() {
    let mut mail = Mail::new();
    let key = "/tmp/conflict-check-invalid-1";
    let project = mail.ensure_project(key);
    let holder = mail.register_agent(&project, "GreenCastle");
    mail.register_agent(&project, "BlueLake");
    let malformed_request = mail
        .check(key, Some("BlueLake"), strings(&["[broken"]), None)
        .expect_err("malformed request must fail closed");
    assert_eq!(
        malformed_request.message,
        "Malformed conflict-check path pattern: \"[broken\""
    );
    let data = malformed_request.data.expect("error data");
    assert_eq!(data["error"]["data"]["fail_closed"], true);

    mail.reservation(&project, holder, "[broken", 3_600, true);
    let malformed_stored = mail
        .check(key, None, strings(&["src/main.rs"]), Some("anonymous"))
        .expect_err("malformed stored reservation must fail closed");
    let data = malformed_stored.data.expect("error data");
    assert_eq!(data["error"]["data"]["fail_closed"], true);
    assert_eq!(data["error"]["type"], "MALFORMED_ACTIVE_RESERVATION");
    assert_eq!(data["error"]["data"]["reservation_id"], 1);
}

#[test]
fn conflict_check_needs_known_holders_and_inside_paths() {
    let mut mail = Mail::new();
    let key = "/p";
    let project = mail.ensure_project(key);
    mail.register_agent(&project, "BlueLake");
    let outside = mail
        .check(key, Some("BlueLake"), strings(&["a", "../x"]), None)
        .expect_err("outside");
    assert_eq!(error_type(outside), "INVALID_PATH");
    let root = mail
        .check(key, Some("BlueLake"), strings(&["/p"]), None)
        .expect_err("root");
    assert_eq!(error_type(root), "INVALID_PATH_PATTERN");
    mail.reservation(&project, 99, "x", 3_600, true);
    let unknown = mail
        .check(key, Some("BlueLake"), strings(&["a"]), None)
        .expect_err("unknown holder");
    assert_eq!(
        unknown.message,
        "Active reservation 1 has no authoritative holder identity"
    );
    assert_eq!(error_type(unknown), "UNRESOLVED_RESERVATION_HOLDER");
}

#[test]
fn conflict_check_bounds_and_orders_its_holders() {
    let mut mail = Mail::new();
    let key = "/p";
    let project = mail.ensure_project(key);
    mail.register_agent(&project, "Caller");
    let b = mail.register_agent(&project, "Bee");
    let a = mail.register_agent(&project, "Ant");
    for _ in 0..2 {
        mail.reservation(&project, a, "dup/**", 3_600, true);
    }
    mail.reservation(&project, b, "dup/**", 3_600, true);
    mail.reservation(&project, b, "dup/a.rs", 3_600, true);
    let response = mail
        .check(key, Some("Caller"), strings(&["dup/a.rs", "./dup/a.rs"]), None)
        .expect("check");
    assert_eq!(response.checked_paths, 1);
    assert_eq!(response.total_conflicting_reservations, 4);
    let listed: Vec<(&str, &str)> = response.conflicts[0]
        .holders
        .iter()
        .map(|h| (h.path_pattern.as_str(), h.agent.as_str()))
        .collect();
    assert_eq!(
        listed,
        [("dup/**", "Bee"), ("dup/**", "Ant"), ("dup/a.rs", "Bee")]
    );

    for i in 0..60 {
        mail.reservation(&project, b, &format!("wide/{i:02}"), 3_600, true);
    }
    let response = mail
        .check(key, Some("Caller"), strings(&["wide/*"]), None)
        .expect("check");
    assert_eq!(response.total_conflicting_reservations, 60);
    assert_eq!(response.conflicts[0].holders.len(), 50);
    assert!(response.output_truncated);
    let many: Vec<String> = (0..25)
        .map(|i| format!("{}wide/*", "x/../".repeat(i)))
        .collect();
    let response = mail.check(key, Some("Caller"), many, None).expect("check");
    assert_eq!(response.checked_paths, 1);
    let globs: Vec<String> = (0..25)
        .map(|i| format!("wide/{}", "*".repeat(i + 1)))
        .collect();
    let response = mail.check(key, Some("Caller"), globs, None).expect("check");
    let total: usize = response.conflicts.iter().map(|c| c.holders.len()).sum();
    assert_eq!(total, 1_000);
    assert_eq!(response.conflicts.len(), 25);
    assert!(response.conflicts[24].holders.is_empty());
}

#[test]
fn empty_paths_detected() {
    let paths: Vec<String> = vec![];
    assert!(paths.is_empty());
    let error = file_reservation_paths(
        "/p".to_string(),
        "A".to_string(),
        None,
        paths,
        None,
        None,
        None,
    )
    .expect_err("empty");
    assert_eq!(error_type(error), "EMPTY_PATHS");
}

#[test]
fn non_empty_paths_accepted() {
    let paths = ["src/*.rs".to_string()];
    assert!(!paths.is_empty());
    assert!(file_reservation_paths(
        "/p".to_string(),
        "A".to_string(),
        None,
        paths.to_vec(),
        None,
        None,
        None,
    )
    .is_ok());
}

fn lease(asked: Option<i64>) -> i64 {
    file_reservation_paths(
        "/p".to_string(),
        "A".to_string(),
        Some("B".to_string()),
        strings(&["x"]),
        asked,
        None,
        Some("why".to_string()),
    )
    .expect("request")
    .ttl
}

#[test]
fn default_ttl_is_one_hour() {
    let ttl: i64 = 3600;
    assert_eq!(ttl, 3600);
    assert_eq!(lease(None), 3600);
}

#[test]
fn ttl_below_60_warns_but_accepted() {
    let ttl = 30_i64;
    assert!(ttl < 60);
    assert_eq!(lease(Some(ttl)), 60);
}

#[test]
fn ttl_exactly_60_is_minimum_valid() {
    let ttl = 60_i64;
    assert!(ttl >= 60);
    assert_eq!(lease(Some(ttl)), 60);
    assert_eq!(lease(Some(59)), 60);
}

#[test]
fn ttl_large_value_accepted() {
    let ttl = 86400_i64 * 365;
    assert!(ttl > 0);
    assert_eq!(ttl, 31_536_000);
    assert_eq!(lease(Some(ttl)), 31_536_000);
    assert_eq!(lease(Some(ttl + 1)), 31_536_000);
}

#[test]
fn default_exclusive_is_true() {
    let exclusive: bool = true;
    assert!(exclusive);
    let request = file_reservation_paths(
        "/p".to_string(),
        "a".to_string(),
        Some("A".to_string()),
        strings(&["x"]),
        None,
        None,
        None,
    )
    .expect("request");
    assert!(request.exclusive);
    assert_eq!(request.agent_name, "A");
    assert_eq!(request.reason, "");
}

#[test]
fn reserve_grants_what_nobody_holds() {
    let mut mail = Mail::new();
    let project = mail.ensure_project("/p");
    mail.register_agent(&project, "GreenCastle");
    mail.register_agent(&project, "BlueLake");
    let first = mail
        .reserve("/p", "GreenCastle", &["src/a.rs"], None)
        .expect("first");
    assert_eq!(first.granted.len(), 1);
    assert_eq!(first.granted[0].path_pattern, "src/a.rs");
    assert!(first.granted[0].exclusive);
    let second = mail
        .reserve(
            "/p",
            "BlueLake",
            &["src/*.rs", "docs/x.md", "./docs/x.md"],
            None,
        )
        .expect("second");
    assert_eq!(second.granted.len(), 1);
    assert_eq!(second.granted[0].path_pattern, "docs/x.md");
    assert_eq!(second.conflicts.len(), 1);
    assert_eq!(second.conflicts[0].path, "src/*.rs");
    assert_eq!(second.conflicts[0].holders[0].agent, "GreenCastle");
    let own = mail
        .reserve("/p", "GreenCastle", &["src/*.rs"], None)
        .expect("own");
    assert_eq!(own.granted.len(), 1);
    assert!(own.conflicts.is_empty());
    assert_eq!(mail.artifacts[&1]["agent"], "GreenCastle");
}

#[test]
fn shared_reservations_do_not_block_each_other() {
    let mut mail = Mail::new();
    let project = mail.ensure_project("/p");
    mail.register_agent(&project, "GreenCastle");
    mail.register_agent(&project, "BlueLake");
    mail.reserve("/p", "GreenCastle", &["a"], Some(false))
        .expect("shared");
    let shared = mail
        .reserve("/p", "BlueLake", &["a"], Some(false))
        .expect("shared");
    assert_eq!(shared.granted.len(), 1);
    let exclusive = mail
        .reserve("/p", "BlueLake", &["a"], Some(true))
        .expect("exclusive");
    assert!(exclusive.granted.is_empty());
    assert_eq!(exclusive.conflicts[0].holders.len(), 1);
    assert!(!exclusive.conflicts[0].holders[0].exclusive);
}

#[test]
fn reserve_orders_holders_and_makes_up_missing_names() {
    let mut mail = Mail::new();
    let project = mail.ensure_project("/p");
    mail.register_agent(&project, "Asker");
    mail.reservation(&project, 90, "z/**", 3_600, true);
    mail.reservation(&project, 50, "z/b", 7_200, true);
    mail.reservation(&project, 50, "z/b", 3_600, false);
    mail.reservation(&project, 50, "z/a", 3_600, true);
    let answer = mail
        .reserve("/p", "Asker", &["z/*"], None)
        .expect("answer");
    let listed: Vec<(String, String, bool)> = answer.conflicts[0]
        .holders
        .iter()
        .map(|h| (h.agent.clone(), h.path_pattern.clone(), h.exclusive))
        .collect();
    assert_eq!(
        listed,
        [
            ("agent_50".to_string(), "z/a".to_string(), true),
            ("agent_50".to_string(), "z/b".to_string(), false),
            ("agent_50".to_string(), "z/b".to_string(), true),
            ("agent_90".to_string(), "z/**".to_string(), true),
        ]
    );
}

#[test]
fn stale_read_becomes_a_conflict_answer() {
    let mut mail = Mail::new();
    let project = mail.ensure_project("/p");
    let holder = mail.register_agent(&project, "GreenCastle");
    mail.register_agent(&project, "BlueLake");
    mail.reservation(&project, holder, "src/b", 3_600, true);
    mail.reservation(&project, holder, "src/a", 3_600, true);
    mail.stale_reads = 1;
    let answer = mail
        .reserve("/p", "BlueLake", &["src/*", "docs"], None)
        .expect("answer");
    assert!(answer.granted.is_empty());
    assert_eq!(answer.conflicts.len(), 1);
    let patterns: Vec<&str> = answer.conflicts[0]
        .holders
        .iter()
        .map(|h| h.path_pattern.as_str())
        .collect();
    assert_eq!(patterns, ["src/a", "src/b"]);
}

#[test]
fn reserve_fails_closed_when_the_database_does() {
    let mut mail = Mail::new();
    let project = mail.ensure_project("/p");
    mail.register_agent(&project, "GreenCastle");
    for step in ["get_active_reservations", "create"] {
        mail.down = Some(step);
        let error = mail
            .reserve("/p", "GreenCastle", &["src/a", "src/b"], None)
            .expect_err("down");
        let data = error.data.expect("data");
        assert_eq!(
            data["error"]["data"]["reservation_acquire"]["do_not_edit"],
            parse("[\"src/a\", \"src/b\"]")
        );
        assert_eq!(
            data["error"]["data"]["reservation_acquire"]["operation"],
            "file_reservation_paths"
        );
    }
}

#[test]
fn reserve_refuses_bad_paths() {
    let mut mail = Mail::new();
    let project = mail.ensure_project("/p");
    mail.register_agent(&project, "A");
    let mut kind = |paths: &[&str]| {
        let error = mail.reserve("/p", "A", paths, None).expect_err("refused");
        let data = error.data.expect("data");
        (
            data["error"]["type"].as_str().unwrap().to_string(),
            data["error"]["data"]["reason"]
                .as_str()
                .unwrap_or("")
                .to_string(),
        )
    };
    let pair = |a: &str, b: &str| (a.to_string(), b.to_string());
    assert_eq!(
        kind(&["ok", "**/*"]),
        pair("SUSPICIOUS_PATTERN", "suspicious_pattern")
    );
    assert_eq!(
        kind(&["../x"]),
        pair("INVALID_PATH", "path_outside_project")
    );
    assert_eq!(
        kind(&["a/.."]),
        pair("INVALID_PATH", "targets_project_root")
    );
    assert_eq!(kind(&["a[b"]), pair("INVALID_PATH", "invalid_pattern"));
    let many: Vec<String> = (0..201).map(|i| format!("f{i}")).collect();
    let list: Vec<&str> = many.iter().map(String::as_str).collect();
    assert_eq!(kind(&list).0, "TOO_MANY_PATHS");
}

#[test]
fn reconcile_on_read_heals_missing_artifact_after_crash_gap() {
    let mut mail = Mail::new();
    let key = "/tmp/f1-reconcile-1";
    let project = mail.ensure_project(key);
    mail.register_agent(&project, "GreenCastle");
    mail.reserve(key, "GreenCastle", &["src/**"], Some(true))
        .expect("initial reservation");
    assert!(mail.artifacts.contains_key(&1));
    mail.artifacts.remove(&1);
    mail.register_agent(&project, "BlueLake");
    mail.reserve(key, "BlueLake", &["docs/**"], Some(false))
        .expect("second reservation triggers reconcile-on-read");
    let healed = mail.artifacts.get(&1).expect("healed");
    assert_eq!(healed["agent"], "GreenCastle");
    assert_eq!(healed["path_pattern"], "src/**");
    assert_eq!(healed["exclusive"], true);
}

#[test]
fn released_row_stale_active_artifact_heals_on_next_access() {
    let mut mail = Mail::new();
    let key = "/tmp/released-heal-1";
    let project = mail.ensure_project(key);
    mail.register_agent(&project, "GreenCastle");
    mail.reserve(key, "GreenCastle", &["src/**"], Some(true))
        .expect("initial reservation");
    let active_artifact = mail.artifacts[&1].clone();
    assert_eq!(count(mail.release(key, "GreenCastle", None, None)), 1);
    assert!(!mail.artifacts[&1]["released_ts"].is_null());
    mail.artifacts.insert(1, active_artifact);
    assert!(mail.artifacts[&1]["released_ts"].is_null());
    mail.register_agent(&project, "BlueLake");
    mail.reserve(key, "BlueLake", &["docs/**"], Some(false))
        .expect("second reservation triggers released-row reconcile");
    let healed = &mail.artifacts[&1];
    assert_eq!(healed["agent"], "GreenCastle");
    assert!(healed.get("released_ts").is_some_and(|t| !t.is_null()));
}

#[test]
fn release_double_release_is_a_clean_noop() {
    let mut mail = Mail::new();
    let key = "/tmp/f3-double-release-1";
    let project = mail.ensure_project(key);
    mail.register_agent(&project, "GreenCastle");
    mail.reserve(key, "GreenCastle", &["src/**"], Some(true))
        .expect("reserve");
    assert!(count(mail.release(key, "GreenCastle", None, None)) >= 1);
    assert_eq!(count(mail.release(key, "GreenCastle", None, None)), 0);
    assert_eq!(
        count(mail.release(key, "GreenCastle", Some(strings(&["src/**"])), None)),
        0
    );
}

#[test]
fn release_reconciles_missing_archive_artifact_for_other_active_holder() {
    let mut mail = Mail::new();
    let key = "/tmp/f3-release-reconcile-1";
    let project = mail.ensure_project(key);
    mail.register_agent(&project, "GreenCastle");
    mail.register_agent(&project, "BlueLake");
    mail.reserve(key, "GreenCastle", &["src/**"], Some(true))
        .expect("holder reserve");
    mail.reserve(key, "BlueLake", &["docs/**"], Some(false))
        .expect("releaser reserve");
    assert!(mail.artifacts.contains_key(&1));
    mail.artifacts.remove(&1);
    assert_eq!(count(mail.release(key, "BlueLake", None, None)), 1);
    let healed = mail.artifacts.get(&1).expect("healed");
    assert_eq!(healed["agent"], "GreenCastle");
    assert_eq!(healed["path_pattern"], "src/**");
}

#[test]
fn replay_release_intent_does_not_release_lease_reacquired_by_other_agent() {
    let mut mail = Mail::new();
    let key = "/tmp/f3-replay-revalidate-1";
    let project = mail.ensure_project(key);
    let holder = mail.register_agent(&project, "GreenCastle");
    let reacquirer = mail.register_agent(&project, "BlueLake");
    mail.reserve(key, "GreenCastle", &["src/**"], Some(true))
        .expect("holder reserve");
    mail.queue(key, "GreenCastle", Some(strings(&["src/**"])), None);
    assert_eq!(mail.release_rows(1, holder, Some(&[1])).len(), 1);
    mail.reserve(key, "BlueLake", &["src/**"], Some(true))
        .expect("reacquire");
    mail.replay();
    assert!(mail
        .active(1)
        .iter()
        .any(|row| row.agent_id == reacquirer && row.released_ts.is_none()));
    assert!(read_queued_release_intents(&mail.log).is_empty());
}

#[test]
fn replay_queued_release_intent_releases_once() {
    let mut mail = Mail::new();
    let key = "/tmp/replay-release-intent-1";
    let project = mail.ensure_project(key);
    let agent = mail.register_agent(&project, "BlueLake");
    let id = mail.reservation(&project, agent, "src/**", 3600, true);
    mail.queue(key, "BlueLake", None, Some(vec![id]));
    mail.replay();
    mail.replay();
    assert!(mail.rows[0].released_ts.is_some());
    assert!(read_queued_release_intents(&mail.log).is_empty());
    assert_eq!(mail.log.lines().count(), 2);
}

#[test]
fn replay_abandons_release_intent_for_missing_agent() {
    let mut mail = Mail::new();
    let key = "/tmp/abandon-release-intent-1";
    mail.ensure_project(key);
    mail.queue(key, "GhostAgent", None, Some(vec![1]));
    assert_eq!(read_queued_release_intents(&mail.log).len(), 1);
    mail.replay();
    mail.replay();
    assert!(read_queued_release_intents(&mail.log).is_empty());
    let marker = parse(mail.log.lines().last().expect("marker"));
    assert_eq!(marker["status"], "abandoned");
    assert_eq!(marker["error_detail"], "agent not found");
}

#[test]
fn replay_keeps_what_the_database_refuses() {
    let mut mail = Mail::new();
    let key = "/p";
    let project = mail.ensure_project(key);
    mail.register_agent(&project, "BlueLake");
    mail.queue(key, "BlueLake", None, Some(vec![1]));
    for (step, detail) in [
        ("resolve_project", "database is locked"),
        ("list", "database is locked"),
        ("release", "database is locked"),
        ("panic", "panicked: boom"),
        ("cancel", "cancelled: Timeout"),
    ] {
        mail.down = Some(step);
        mail.replay();
        let marker = parse(mail.log.lines().last().expect("marker"));
        assert_eq!(marker["status"], "failed");
        assert_eq!(marker["error_detail"], detail);
        assert_eq!(read_queued_release_intents(&mail.log).len(), 1);
    }
    mail.down = Some("odd");
    mail.replay();
    assert!(read_queued_release_intents(&mail.log).is_empty());
}

#[test]
fn replay_abandons_what_was_wrong_from_the_start() {
    let mut mail = Mail::new();
    let project = mail.ensure_project("/p");
    mail.register_agent(&project, "BlueLake");
    mail.queue("/p", "BlueLake", Some(strings(&["/elsewhere"])), None);
    mail.replay();
    let marker = parse(mail.log.lines().last().expect("marker"));
    assert_eq!(marker["status"], "abandoned");
    assert!(marker["error_detail"]
        .as_str()
        .unwrap()
        .contains("outside the project root"));
}

#[test]
fn release_intent_retry_reports_current_release_before_replay() {
    let mut mail = Mail::new();
    let key = "/tmp/release-intent-retry-1";
    let project = mail.ensure_project(key);
    let agent = mail.register_agent(&project, "BlueLake");
    let id = mail.reservation(&project, agent, "src/**", 3600, true);
    mail.queue(key, "BlueLake", None, Some(vec![id]));
    assert_eq!(count(mail.release(key, "BlueLake", None, Some(vec![id]))), 1);
    assert!(read_queued_release_intents(&mail.log).is_empty());
}

#[test]
fn release_is_queued_when_the_database_is_unavailable() {
    for (step, stage) in [
        ("pool", "get_db_pool"),
        ("resolve_project", "resolve_project"),
        ("list", "list_unreleased_file_reservations"),
        ("release", "release_reservations"),
    ] {
        let mut mail = Mail::new();
        let project = mail.ensure_project("/p");
        let agent = mail.register_agent(&project, "BlueLake");
        mail.reservation(&project, agent, "src/**", 3600, true);
        mail.down = Some(step);
        let paths = Some(strings(&["./src/a"]));
        match mail.release("/p", "BlueLake", paths.clone(), None) {
            Ok(Released::Queued(answer)) => assert_eq!(answer["queued"], true),
            _ => panic!("not queued"),
        }
        let record = parse(mail.log.trim());
        assert_eq!(record["failure"]["stage"], stage);
        let queued = read_queued_release_intents(&mail.log);
        assert_eq!(queued[0].paths, paths);
        mail.down = None;
        mail.replay();
        assert!(mail.rows[0].released_ts.is_some());
        assert!(read_queued_release_intents(&mail.log).is_empty());
    }
    let mut mail = Mail::new();
    mail.ensure_project("/p");
    assert!(mail.release("/p", "Nobody", None, None).is_err());
    assert!(mail.release("/q", "Nobody", None, None).is_err());
    assert!(mail.log.is_empty());
}

#[test]
fn release_file_reservations_filtered_ids_include_expired_unreleased_rows() {
    let mut mail = Mail::new();
    let key = "/tmp/release-expired-1";
    let project = mail.ensure_project(key);
    let agent = mail.register_agent(&project, "AmberRiver");
    let id = mail.reservation(&project, agent, "src/**", 3600, true);
    mail.rows[0].expires_ts = ts(mail.now - 1);
    assert_eq!(
        count(mail.release(key, "AmberRiver", None, Some(vec![id]))),
        1
    );
}

#[test]
fn release_filters_pick_by_path_and_id() {
    let mut mail = Mail::new();
    let project = mail.ensure_project("/p");
    let agent = mail.register_agent(&project, "A");
    let other = mail.register_agent(&project, "B");
    mail.reservation(&project, agent, "src/**", 3600, true);
    mail.reservation(&project, agent, "docs", 3600, true);
    mail.reservation(&project, other, "src/**", 3600, false);
    assert_eq!(
        count(mail.release("/p", "A", Some(strings(&["src/x.rs"])), Some(vec![2]))),
        0
    );
    assert_eq!(
        count(mail.release("/p", "A", Some(strings(&["src/x.rs"])), None)),
        1
    );
    assert!(mail.rows[0].released_ts.is_some());
    assert!(mail.rows[2].released_ts.is_none());
    assert_eq!(count(mail.release("/p", "A", None, Some(Vec::new()))), 0);
    assert_eq!(count(mail.release("/p", "A", None, None)), 1);
}

#[test]
fn renew_extends_and_reports_the_old_expiry() {
    let mut mail = Mail::new();
    let project = mail.ensure_project("/p");
    let agent = mail.register_agent(&project, "A");
    let other = mail.register_agent(&project, "B");
    mail.reservation(&project, agent, "src/**", 3600, true);
    mail.reservation(&project, agent, "docs", 3600, true);
    mail.reservation(&project, other, "lib", 3600, true);
    let old = mail.rows[0].expires_ts.clone();
    let result = mail
        .renew("/p", "A", None, Some(strings(&["src/a.rs"])), None)
        .expect("renewal");
    assert_eq!(result.renewed, 1);
    assert_eq!(result.file_reservations[0].id, 1);
    assert_eq!(result.file_reservations[0].old_expires_ts, old.iso);
    assert_eq!(
        result.file_reservations[0].new_expires_ts,
        ts(old.micros + 1_800_000_000).iso
    );
    assert_eq!(mail.artifacts[&1]["expires_ts"], Value::from(mail.rows[0].expires_ts.iso.clone()));
    let result = mail.renew("/p", "A", Some(1), None, None).expect("all");
    assert_eq!(result.renewed, 2);
    assert_eq!(
        mail.rows[1].expires_ts.micros,
        mail.now + HOUR + 60_000_000
    );
    assert_eq!(mail.rows[2].expires_ts.micros, mail.now + HOUR);
    let none = mail
        .renew("/p", "A", None, None, Some(vec![3]))
        .expect("none");
    assert_eq!(none.renewed, 0);
    let error = mail
        .renew("/p", "A", None, Some(strings(&["/x"])), None)
        .expect_err("outside");
    assert_eq!(error_type(error), "INVALID_PATH");
}

#[test]
fn renew_falls_back_to_the_extension() {
    let mut mail = Mail::new();
    let project = mail.ensure_project("/p");
    let agent = mail.register_agent(&project, "A");
    mail.reservation(&project, agent, "src/**", 3600, true);
    let request = renew_file_reservations(
        "/p".to_string(),
        "A".to_string(),
        None,
        Some(120),
        None,
        None,
    );
    let waiting = request.with_project(project, &Machine::posix(None));
    let waiting = waiting.judge(&Vec::new()).expect("no filter");
    let agent_row = mail.resolve_agent(1, "A").expect("agent");
    let matching = waiting
        .with_rows(agent_row, DbOutcome::Done(Vec::new()))
        .expect("rows");
    let call = matching.pick(&Vec::new());
    assert!(call.ids.is_empty());
    let mut early = mail.rows[0].clone();
    early.expires_ts = ts(i64::MIN + 5);
    let done = call
        .renewed(DbOutcome::Done(vec![mail.rows[0].clone(), early]))
        .expect("renewed");
    assert_eq!(
        done.old_expiries,
        [mail.rows[0].expires_ts.micros - 120_000_000, i64::MIN]
    );
    let result = done.answer(&strings(&["x", "y"]));
    assert_eq!(result.file_reservations[1].old_expires_ts, "y");
}

#[test]
fn force_release_file_reservation_ignores_stale_cached_missing_holder_agent() {
    let mut mail = Mail::new();
    let key = "/tmp/force-release-stale-holder-1";
    let project = mail.ensure_project(key);
    let holder = mail.register_agent(&project, "AmberRiver");
    mail.register_agent(&project, "BlueLake");
    let id = mail.reservation(&project, holder, "src/**", 3600, true);
    mail.agents.retain(|(_, agent)| agent.id != Some(holder));
    mail.rows[0].expires_ts = ts(mail.now - 1);
    let parsed = mail
        .force(key, "BlueLake", id, None, Some(true))
        .expect("force release succeeds");
    assert_eq!(parsed["released"].as_i64(), Some(1));
    let expected_holder = format!("[unknown-agent-{holder}]");
    assert_eq!(
        parsed["reservation"]["agent"].as_str(),
        Some(expected_holder.as_str())
    );
    assert_eq!(parsed["reservation"]["notified"].as_bool(), Some(false));
    assert!(parsed["reservation"]["last_agent_activity_ts"].is_null());
    assert_eq!(
        parsed["reservation"]["stale_reasons"],
        parse("[\"agent_missing\", \"no_recent_mail_activity>900s\", \"path_pattern_unmatched\"]")
    );
}

#[test]
fn force_release_file_reservation_reports_committed_release_timestamp() {
    let mut mail = Mail::new();
    let key = "/tmp/force-release-db-ts-1";
    let project = mail.ensure_project(key);
    let holder = mail.register_agent(&project, "AmberRiver");
    mail.register_agent(&project, "BlueLake");
    let id = mail.reservation(&project, holder, "src/release-timestamp.rs", 3600, true);
    mail.rows[0].expires_ts = ts(mail.now - 1);
    let parsed = mail
        .force(key, "BlueLake", id, None, Some(false))
        .expect("force release succeeds");
    assert_eq!(parsed["released"].as_i64(), Some(1));
    let db_release_iso = mail.rows[0].released_ts.clone().expect("released").iso;
    assert_eq!(
        parsed["released_at"].as_str(),
        Some(db_release_iso.as_str())
    );
    assert_eq!(
        parsed["reservation"]["released_ts"].as_str(),
        Some(db_release_iso.as_str())
    );
    assert!(mail.messages.is_empty());
    assert_eq!(
        mail.artifacts[&id]["released_ts"].as_str(),
        Some(db_release_iso.as_str())
    );
}

fn idle_mail() -> (Mail, i64) {
    let mut mail = Mail::new();
    let project = mail.ensure_project("/p");
    let holder = mail.register_agent(&project, "Holder");
    mail.register_agent(&project, "Actor");
    let id = mail.reservation(&project, holder, "src/**", 360_000, true);
    mail.now += 2 * HOUR;
    (mail, id)
}

#[test]
fn force_release_is_refused_while_there_is_activity() {
    let recent = |mail: &Mail| Some(ts(mail.now - 900_000_000));
    let (mut mail, id) = idle_mail();
    mail.agents[0].1.last_active_ts = ts(mail.now - 1_800_000_000);
    let error = mail
        .force("/p", "Actor", id, None, None)
        .expect_err("active holder");
    let data = error.data.expect("data");
    assert_eq!(data["error"]["type"], "RESERVATION_ACTIVE");
    assert_eq!(
        data["error"]["data"]["stale_reasons"][0],
        "agent_recently_active"
    );
    mail.agents[0].1.last_active_ts = ts(mail.now - 1_800_000_001);
    mail.mail = recent(&mail);
    let error = mail.force("/p", "Actor", id, None, None).expect_err("mail");
    assert_eq!(error_type(error), "RESERVATION_ACTIVE");
    mail.mail = None;
    mail.activity.matches = true;
    mail.activity.fs_activity = recent(&mail);
    assert!(mail.force("/p", "Actor", id, None, None).is_err());
    mail.activity.fs_activity = None;
    mail.activity.git_activity = recent(&mail);
    let data = mail
        .force("/p", "Actor", id, None, None)
        .expect_err("git")
        .data
        .expect("data");
    assert_eq!(
        data["error"]["data"]["stale_reasons"],
        parse("[\"agent_inactive>1800s\", \"no_recent_mail_activity>900s\", \"no_recent_filesystem_activity>900s\", \"git_activity_recent\"]")
    );
    mail.activity.git_activity = Some(ts(mail.now - 900_000_001));
    let done = mail.force("/p", "Actor", id, None, None).expect("idle");
    assert_eq!(done["reservation"]["notified"], true);
    let again = mail.force("/p", "Actor", id, None, None).expect("again");
    assert_eq!(again["already_released"], true);
    assert_eq!(again["released"], 0);
}

#[test]
fn force_release_notifies_the_holder() {
    let (mut mail, id) = idle_mail();
    mail.mail = Some(ts(mail.now - HOUR));
    let note = "\u{20ac}".repeat(1_366);
    let done = mail
        .force("/p", "Actor", id, Some(note), None)
        .expect("idle");
    assert_eq!(done["reservation"]["agent"], "Holder");
    let message = &mail.messages[0];
    assert_eq!(message["from"], "Actor");
    assert_eq!(message["to"], parse("[\"Holder\"]"));
    assert_eq!(message["recipient_id"], 1);
    assert_eq!(
        message["subject"],
        "[file-reservations] Released stale lock on src/**"
    );
    let body = message["body"].as_str().expect("body");
    let start = "Your file reservation on `src/**` (id=1) was force-released by **Actor**.\n\n**Observed signals:**\n- agent_inactive>1800s\n- no_recent_mail_activity>900s\n- path_pattern_unmatched\n\n**Details:**\n- last agent activity \u{2248} 7200s ago\n- last mail activity \u{2248} 3600s ago\n- inactivity threshold=1800s grace=900s\n\n**Note:** ";
    assert!(body.starts_with(start), "{body}");
    let rest = &body[start.len()..];
    assert_eq!(rest.matches('\u{20ac}').count(), 1_365);
    assert!(rest.ends_with("\n\nYou can re-acquire the reservation if still needed."));

    let (mut mail, id) = idle_mail();
    mail.force("/p", "Holder", id, None, None).expect("own");
    assert!(mail.messages.is_empty());
}

#[test]
fn force_release_reports_what_went_wrong() {
    let (mut mail, id) = idle_mail();
    let error = mail
        .force("/p", "Actor", 99, None, None)
        .expect_err("unknown id");
    assert_eq!(
        error.message,
        "File reservation id=99 not found for project '/p'."
    );
    assert_eq!(error_type(error), "NOT_FOUND");
    let other = mail.ensure_project("/q");
    mail.register_agent(&other, "Actor");
    let error = mail
        .force("/q", "Actor", id, None, None)
        .expect_err("other project");
    assert_eq!(error_type(error), "NOT_FOUND");
    mail.down = Some("race");
    let error = mail.force("/p", "Actor", id, None, None).expect_err("race");
    assert_eq!(error_type(error), "CONFLICT");
    mail.down = Some("lost");
    let error = mail.force("/p", "Actor", id, None, None).expect_err("lost");
    assert_eq!(error_type(error), "INCONSISTENT_STATE");
}

#[test]
fn each_refused_check_names_all_paths_as_off_limits() {
    let mut mail = Mail::new();
    let project = mail.ensure_project("/p");
    mail.register_agent(&project, "A");
    mail.reservation(&project, 99, "held", 3_600, true);
    let refusals: Vec<(&str, Option<&str>, Vec<String>, Option<&str>)> = vec![
        ("/p", Some("A"), Vec::new(), None),
        ("/p", Some("A"), vec!["x".to_string(); 201], None),
        ("/p", Some("A"), vec!["a".repeat(4_097)], None),
        ("/p", Some("A"), vec!["a".repeat(4_096); 17], None),
        ("/p", Some("A"), strings(&["a", "b\0"]), None),
        ("", Some("A"), strings(&["a", "b"]), None),
        ("/p", None, strings(&["a", "b"]), None),
        ("/p", Some("A"), strings(&["a", "b"]), Some("anonymous")),
        ("/p", None, strings(&["a", "b"]), Some("other")),
        ("/p", Some("A"), strings(&["a", "../b"]), None),
        ("/p", Some("A"), strings(&["a", "/p"]), None),
        ("/p", Some("A"), strings(&["a", "{b"]), None),
        ("/p", Some("A"), strings(&["a", "b"]), None),
    ];
    for (key, agent, paths, mode) in refusals {
        let error = mail
            .check(key, agent, paths.clone(), mode)
            .expect_err("refused");
        let data = error.data.expect("data");
        assert_eq!(data["error"]["data"]["fail_closed"], true);
        assert_eq!(data["error"]["data"]["do_not_edit"], Value::from(paths));
    }
}

#[test]
fn long_requests_are_granted_in_order() {
    let mut mail = Mail::new();
    let project = mail.ensure_project("/p");
    mail.register_agent(&project, "A");
    let paths: Vec<String> = (0..20).rev().map(|i| format!("f{i:02}")).collect();
    let list: Vec<&str> = paths.iter().map(String::as_str).collect();
    let answer = mail.reserve("/p", "A", &list, None).expect("granted");
    let granted: Vec<&str> = answer
        .granted
        .iter()
        .map(|g| g.path_pattern.as_str())
        .collect();
    assert_eq!(granted, list);
}

#[test]
fn force_release_stands_when_the_notification_fails() {
    let (mut mail, id) = idle_mail();
    mail.down = Some("message");
    let done = mail.force("/p", "Actor", id, None, None).expect("idle");
    assert_eq!(done["released"], 1);
    assert_eq!(done["reservation"]["notified"], false);
    assert_eq!(mail.notices.len(), 1);
    assert!(mail.messages.is_empty());
    assert!(mail.rows[0].released_ts.is_some());

    let (mut mail, id) = idle_mail();
    let done = mail
        .force("/p", "Actor", id, None, Some(false))
        .expect("idle");
    assert_eq!(done["released"], 1);
    assert_eq!(done["reservation"]["notified"], false);
    assert!(mail.notices.is_empty());
}

#[test]
fn notification_is_plain_mail_to_the_holder() {
    let (mut mail, id) = idle_mail();
    let done = mail.force("/p", "Actor", id, None, None).expect("idle");
    assert_eq!(done["reservation"]["notified"], true);
    let notice = &mail.notices[0];
    assert_eq!(notice.project_id, 1);
    assert_eq!(notice.sender_id, 2);
    assert_eq!(notice.recipient_id, 1);
    assert_eq!(notice.recipient_kind, "to");
    assert_eq!(notice.thread_id, None);
    assert_eq!(notice.importance, "normal");
    assert!(!notice.ack_required);
    assert_eq!(notice.attachments, "[]");
    assert_eq!(
        notice.subject,
        "[file-reservations] Released stale lock on src/**"
    );
}

/// A project whose first reservation has lost its artifact, and whose second one is
/// released but has an artifact that says it is held.
fn gapped_mail() -> Mail {
    let mut mail = Mail::new();
    let project = mail.ensure_project("/p");
    mail.register_agent(&project, "GreenCastle");
    let other = mail.register_agent(&project, "BlueLake");
    mail.reserve("/p", "GreenCastle", &["src/**"], Some(true))
        .expect("first");
    mail.reserve("/p", "BlueLake", &["docs/**"], Some(true))
        .expect("second");
    mail.artifacts.remove(&1);
    assert_eq!(mail.release_rows(1, other, Some(&[2])).len(), 1);
    assert!(mail.artifacts[&2]["released_ts"].is_null());
    mail
}

#[test]
fn reserve_goes_on_where_the_archive_cannot_be_reconciled() {
    for (down, active, released) in [
        (None, true, true),
        (Some("released list"), true, false),
        (Some("agents"), false, false),
    ] {
        let mut mail = gapped_mail();
        mail.down = down;
        let response = mail
            .reserve("/p", "BlueLake", &["lib/**"], Some(true))
            .expect("granted");
        assert_eq!(response.granted.len(), 1);
        assert_eq!(mail.artifacts.contains_key(&1), active, "{down:?}");
        assert_eq!(
            !mail.artifacts[&2]["released_ts"].is_null(),
            released,
            "{down:?}"
        );
    }
}

#[test]
fn release_is_answered_where_the_archive_cannot_be_reconciled() {
    for (down, active, released) in [
        (None, true, true),
        (Some("released list"), true, false),
        (Some("agents"), false, false),
        (Some("active list"), false, false),
    ] {
        let mut mail = gapped_mail();
        mail.down = down;
        assert_eq!(count(mail.release("/p", "BlueLake", None, None)), 0);
        assert_eq!(mail.artifacts.contains_key(&1), active, "{down:?}");
        assert_eq!(
            !mail.artifacts[&2]["released_ts"].is_null(),
            released,
            "{down:?}"
        );
    }
}

#[test]
fn release_replays_the_queue_and_counts_its_own() {
    let mut mail = Mail::new();
    let project = mail.ensure_project("/p");
    let agent = mail.register_agent(&project, "BlueLake");
    let other = mail.register_agent(&project, "GreenCastle");
    mail.reservation(&project, agent, "src/**", 3600, true);
    let queued = mail.reservation(&project, other, "docs/**", 3600, true);
    mail.queue("/p", "GreenCastle", None, Some(vec![queued]));
    mail.down = Some("log");
    assert_eq!(count(mail.release("/p", "BlueLake", None, None)), 1);
    assert!(mail.rows[1].released_ts.is_none());
    mail.down = None;
    assert_eq!(count(mail.release("/p", "BlueLake", None, None)), 0);
    assert!(mail.rows[1].released_ts.is_some());
    assert!(read_queued_release_intents(&mail.log).is_empty());
}

fn release_done() -> ReleaseDone {
    ReleaseDone {
        project: ProjectRow {
            id: Some(1),
            slug: "p".to_string(),
            human_key: "/p".to_string(),
        },
        released: 4,
        write: None,
    }
}

/// Ends each release that waits in the log as `ends` says, and gives the ids of the
/// reservations that were asked to be released.
fn end_queue(mail: &mut Mail, ends: Vec<ReplayEnd>) -> Vec<i64> {
    let log = mail.log.clone();
    let mut waiting = release_done().with_log(Some(log.as_str()));
    assert_eq!(waiting.queue.len(), ends.len());
    let mut asked = Vec::new();
    for end in ends {
        let run = match waiting.next() {
            ReplayNext::Run(run) => run,
            _ => panic!("a queued release is run"),
        };
        assert_eq!(run.request.project_key, "/p");
        assert_eq!(run.request.agent_name, "BlueLake");
        asked.extend(run.request.file_reservation_ids.expect("ids"));
        let marked = run.pending.ended(end).mark(9);
        mail.append(&marked.marker);
        waiting = marked.replay;
    }
    match waiting.next() {
        ReplayNext::Reconcile(waiting) => assert_eq!(waiting.done.released, 4),
        _ => panic!("the queue is done with"),
    }
    asked
}

#[test]
fn replayed_queue_keeps_only_what_is_to_be_tried_again() {
    let mut mail = Mail::new();
    for id in 1..=4 {
        mail.queue("/p", "BlueLake", None, Some(vec![id]));
    }
    let failed = |retryable: bool| ReplayEnd::Failed {
        detail: "detail".to_string(),
        retryable,
    };
    let ends = vec![
        ReplayEnd::Released(2),
        failed(true),
        failed(false),
        failed(true),
    ];
    assert_eq!(end_queue(&mut mail, ends), [1, 2, 3, 4]);
    let ends = vec![ReplayEnd::Released(0), failed(true)];
    assert_eq!(end_queue(&mut mail, ends), [2, 4]);
    assert_eq!(end_queue(&mut mail, vec![failed(false)]), [4]);
    assert!(end_queue(&mut mail, Vec::new()).is_empty());
    let statuses: Vec<String> = mail
        .log
        .lines()
        .skip(4)
        .map(|line| parse(line)["status"].as_str().expect("status").to_string())
        .collect();
    assert_eq!(
        statuses,
        ["replayed", "failed", "abandoned", "failed", "replayed", "failed", "abandoned"]
    );
}

#[test]
fn queued_record_of_another_kind_counts_as_replayed() {
    let mut mail = Mail::new();
    mail.queue("/p", "BlueLake", None, Some(vec![1]));
    let mut waiting = release_done().with_log(Some(mail.log.as_str()));
    waiting.queue[0].kind = "another_kind".to_string();
    let ended = match waiting.next() {
        ReplayNext::Mark(ended) => ended,
        _ => panic!("nothing is run"),
    };
    let marked = ended.mark(9);
    assert_eq!(marked.marker["status"], "replayed");
    assert_eq!(marked.marker["released"], 0);
    assert_eq!(marked.replay.at, 1);
}

#[test]
fn named_check_leaves_out_only_the_callers_leases() {
    let mut mail = Mail::new();
    let project = mail.ensure_project("/p");
    let ant = mail.register_agent(&project, "Ant");
    let bee = mail.register_agent(&project, "Bee");
    mail.reservation(&project, bee, "src/**", 3_600, true);
    mail.reservation(&project, ant, "src/**", 3_600, true);
    mail.reservation(&project, ant, "src/a.rs", 3_600, true);
    mail.reservation(&project, ant, "docs/**", 3_600, true);
    let paths = || strings(&["src/a.rs", "docs/b.md", "lib/c.rs"]);
    let all = mail
        .check("/p", None, paths(), Some("anonymous"))
        .expect("anonymous");
    let rest = mail.check("/p", Some("Ant"), paths(), None).expect("named");
    let listed = |r: &ReservationConflictCheckResponse| -> Vec<(String, Vec<(String, String)>)> {
        r.conflicts
            .iter()
            .map(|c| {
                let holders = c
                    .holders
                    .iter()
                    .map(|h| (h.agent.clone(), h.path_pattern.clone()))
                    .collect();
                (c.path.clone(), holders)
            })
            .collect()
    };
    let holder = |agent: &str, pattern: &str| (agent.to_string(), pattern.to_string());
    assert_eq!(
        listed(&all),
        [
            (
                "src/a.rs".to_string(),
                vec![
                    holder("Ant", "src/**"),
                    holder("Bee", "src/**"),
                    holder("Ant", "src/a.rs")
                ]
            ),
            ("docs/b.md".to_string(), vec![holder("Ant", "docs/**")]),
        ]
    );
    assert_eq!(
        listed(&rest),
        [("src/a.rs".to_string(), vec![holder("Bee", "src/**")])]
    );
    assert_eq!(all.clear_paths, ["lib/c.rs"]);
    assert_eq!(rest.clear_paths, ["docs/b.md", "lib/c.rs"]);
    assert_eq!(all.checked_paths, 3);
    assert_eq!(rest.checked_paths, 3);
    assert!(!all.output_truncated && !rest.output_truncated);
}

#[test]
fn healed_artifact_is_the_one_that_was_lost() {
    let mut mail = Mail::new();
    let project = mail.ensure_project("/p");
    mail.register_agent(&project, "GreenCastle");
    mail.register_agent(&project, "BlueLake");
    mail.reserve("/p", "GreenCastle", &["src/**"], Some(true))
        .expect("first");
    let granted = mail.artifacts.remove(&1).expect("granted");
    mail.reserve("/p", "BlueLake", &["docs/**"], Some(true))
        .expect("second");
    assert_eq!(mail.artifacts[&1], granted);
    assert_eq!(count(mail.release("/p", "GreenCastle", None, None)), 1);
    let released = mail.artifacts.insert(1, granted).expect("released");
    mail.reserve("/p", "BlueLake", &["lib/**"], Some(true))
        .expect("third");
    assert_eq!(mail.artifacts[&1], released);
    assert!(!released["released_ts"].is_null());
}
