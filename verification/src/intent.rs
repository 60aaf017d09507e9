//! The log of releases that could not reach the database: what is appended to
//! it, and what is still to be done.

use crate::digest::{content_hash, hash_json_value, hex_digit};
use crate::json::{
    int_list, is_field, is_json_of, is_record, json_as_int, json_as_list, json_as_str, json_count,
    json_encoding, json_get, json_index, json_int, json_ints, json_is_null, json_null, json_object,
    json_optional_text, json_parse, json_parsed, json_string, json_text, json_texts, json_tree,
    json_trees, optional_text, optional_view, text_list, tree_index, tree_member, with, JsonTree,
};
use crate::text::{
    byte_len, ended_lines, has_prefix, line_is_appended, lines, lines_of, same_text, texts, trim,
    trimmed, utf8_len, with_line, without_return,
};
use serde_json::Value;
use vstd::prelude::*;
use vstd::utf8::{encode_utf8, is_ascii_chars, is_ascii_chars_encode_utf8};

verus! {

/// The version of the records of the log.
pub const RELEASE_INTENT_SCHEMA_VERSION: u32 = 1;

/// The directory of the log, below the storage root.
pub const RELEASE_INTENT_DIR: &'static str = "degraded_intents";

/// The file of the log.
pub const RELEASE_INTENT_LOG_FILE: &'static str = "release_file_reservations.jsonl";

/// The file that is locked while the log is written.
pub const RELEASE_INTENT_LOCK_FILE: &'static str = ".release_file_reservations.jsonl.lock";

/// A release that waits in the log.
#[derive(Debug, Clone)]
pub struct QueuedReleaseIntent {
    pub kind: String,
    pub intent_id: String,
    pub content_sha256: String,
    pub project_key: String,
    pub agent_name: String,
    pub paths: Option<Vec<String>>,
    pub file_reservation_ids: Option<Vec<i64>>,
}

/// A release that waits in the log, as plain values.
pub struct IntentView {
    pub kind: Seq<char>,
    pub intent_id: Seq<char>,
    pub content_sha256: Seq<char>,
    pub project_key: Seq<char>,
    pub agent_name: Seq<char>,
    pub paths: Option<Seq<Seq<char>>>,
    pub file_reservation_ids: Option<Seq<i64>>,
}

/// The characters of the strings of an optional list.
pub open spec fn optional_texts(list: Option<Vec<String>>) -> Option<Seq<Seq<char>>> {
    match list {
        Some(items) => Some(texts(items@)),
        None => None,
    }
}

/// The integers of an optional list.
pub open spec fn optional_ids(list: Option<Vec<i64>>) -> Option<Seq<i64>> {
    match list {
        Some(items) => Some(items@),
        None => None,
    }
}

impl View for QueuedReleaseIntent {
    type V = IntentView;

    open spec fn view(&self) -> IntentView {
        IntentView {
            kind: self.kind@,
            intent_id: self.intent_id@,
            content_sha256: self.content_sha256@,
            project_key: self.project_key@,
            agent_name: self.agent_name@,
            paths: optional_texts(self.paths),
            file_reservation_ids: optional_ids(self.file_reservation_ids),
        }
    }
}

/// A list of strings, or `null`.
pub open spec fn optional_text_list(list: Option<Seq<Seq<char>>>) -> JsonTree {
    match list {
        Some(items) => text_list(items),
        None => JsonTree::Null,
    }
}

/// A list of integers, or `null`.
pub open spec fn optional_int_list(list: Option<Seq<i64>>) -> JsonTree {
    match list {
        Some(items) => int_list(items),
        None => JsonTree::Null,
    }
}

fn optional_texts_value(list: &Option<Vec<String>>) -> (r: Value)
    ensures
        json_tree(r) == optional_text_list(optional_texts(*list)),
{
    match list {
        Some(items) => json_texts(items),
        None => json_null(),
    }
}

fn optional_ids_value(list: &Option<Vec<i64>>) -> (r: Value)
    ensures
        json_tree(r) == optional_int_list(optional_ids(*list)),
{
    match list {
        Some(items) => json_ints(items),
        None => json_null(),
    }
}

/// What the content hash of a release record covers.
pub open spec fn intent_payload(record: JsonTree) -> JsonTree {
    JsonTree::Object(
        map![
            "schema_version"@ => tree_index(record, "schema_version"@),
            "kind"@ => tree_index(record, "kind"@),
            "created_ts"@ => tree_index(record, "created_ts"@),
            "project_key"@ => tree_index(record, "project_key"@),
            "agent_name"@ => tree_index(record, "agent_name"@),
            "paths"@ => tree_index(record, "paths"@),
            "file_reservation_ids"@ => tree_index(record, "file_reservation_ids"@),
            "failure"@ => tree_index(record, "failure"@),
        ],
    )
}

/// What the content hash of a replay marker covers.
pub open spec fn replay_payload(record: JsonTree) -> JsonTree {
    JsonTree::Object(
        map![
            "schema_version"@ => tree_index(record, "schema_version"@),
            "kind"@ => tree_index(record, "kind"@),
            "intent_id"@ => tree_index(record, "intent_id"@),
            "intent_content_sha256"@ => tree_index(record, "intent_content_sha256"@),
            "replayed_ts"@ => tree_index(record, "replayed_ts"@),
            "status"@ => tree_index(record, "status"@),
            "released"@ => tree_index(record, "released"@),
            "error_detail"@ => tree_index(record, "error_detail"@),
        ],
    )
}

/// What the content hash of a release record covers.
pub fn release_intent_hash_payload(record: &Value) -> (r: Value)
    ensures
        json_tree(r) == intent_payload(json_tree(*record)),
{
    let out = with(json_object(), "schema_version", json_index(record, "schema_version"));
    let out = with(out, "kind", json_index(record, "kind"));
    let out = with(out, "created_ts", json_index(record, "created_ts"));
    let out = with(out, "project_key", json_index(record, "project_key"));
    let out = with(out, "agent_name", json_index(record, "agent_name"));
    let out = with(out, "paths", json_index(record, "paths"));
    let out = with(out, "file_reservation_ids", json_index(record, "file_reservation_ids"));
    with(out, "failure", json_index(record, "failure"))
}

/// What the content hash of a replay marker covers.
pub fn release_replay_hash_payload(record: &Value) -> (r: Value)
    ensures
        json_tree(r) == replay_payload(json_tree(*record)),
{
    let out = with(json_object(), "schema_version", json_index(record, "schema_version"));
    let out = with(out, "kind", json_index(record, "kind"));
    let out = with(out, "intent_id", json_index(record, "intent_id"));
    let out = with(out, "intent_content_sha256", json_index(record, "intent_content_sha256"));
    let out = with(out, "replayed_ts", json_index(record, "replayed_ts"));
    let out = with(out, "status", json_index(record, "status"));
    let out = with(out, "released", json_index(record, "released"));
    with(out, "error_detail", json_index(record, "error_detail"))
}

/// The string member `key` of an object.
pub open spec fn text_member(tree: JsonTree, key: Seq<char>) -> Option<Seq<char>> {
    match tree_member(tree, key) {
        Some(JsonTree::Text(text)) => Some(text),
        _ => None,
    }
}

/// Whether a release record carries the hash of its content, and an id that is
/// the start of that hash.
pub open spec fn has_valid_intent_hash(record: JsonTree) -> bool {
    &&& text_member(record, "content_sha256"@) matches Some(hash)
    &&& text_member(record, "intent_id"@) matches Some(id)
    &&& utf8_len(hash) == 64
    &&& utf8_len(id) == 16
    &&& hash == content_hash(intent_payload(record))
    &&& id.is_prefix_of(hash)
}

/// Whether a replay marker carries the hash of its content, and the id and hash
/// of a release record.
pub open spec fn has_valid_replay_hash(record: JsonTree) -> bool {
    &&& text_member(record, "content_sha256"@) matches Some(hash)
    &&& text_member(record, "intent_id"@) matches Some(id)
    &&& text_member(record, "intent_content_sha256"@) matches Some(intent_hash)
    &&& utf8_len(hash) == 64
    &&& utf8_len(id) == 16
    &&& utf8_len(intent_hash) == 64
    &&& id.is_prefix_of(intent_hash)
    &&& hash == content_hash(replay_payload(record))
}

fn text_of<'a>(record: &'a Value, key: &str) -> (r: Option<&'a str>)
    ensures
        match r {
            Some(text) => text_member(json_tree(*record), key@) == Some(text@),
            None => text_member(json_tree(*record), key@) is None,
        },
{
    match json_get(record, key) {
        Some(value) => json_as_str(value),
        None => None,
    }
}

/// Whether a release record carries the hash of its content.
pub fn release_intent_record_has_valid_hash(record: &Value) -> (r: bool)
    ensures
        r == has_valid_intent_hash(json_tree(*record)),
{
    let hash = match text_of(record, "content_sha256") {
        Some(text) => text,
        None => return false,
    };
    let id = match text_of(record, "intent_id") {
        Some(text) => text,
        None => return false,
    };
    let computed = hash_json_value(&release_intent_hash_payload(record));
    byte_len(hash) == 64 && byte_len(id) == 16 && same_text(hash, computed.as_str()) && has_prefix(
        hash,
        id,
    )
}

/// Whether a replay marker carries the hash of its content.
pub fn release_replay_record_has_valid_hash(record: &Value) -> (r: bool)
    ensures
        r == has_valid_replay_hash(json_tree(*record)),
{
    let hash = match text_of(record, "content_sha256") {
        Some(text) => text,
        None => return false,
    };
    let id = match text_of(record, "intent_id") {
        Some(text) => text,
        None => return false,
    };
    let intent_hash = match text_of(record, "intent_content_sha256") {
        Some(text) => text,
        None => return false,
    };
    let computed = hash_json_value(&release_replay_hash_payload(record));
    byte_len(hash) == 64 && byte_len(id) == 16 && byte_len(intent_hash) == 64 && has_prefix(
        intent_hash,
        id,
    ) && same_text(hash, computed.as_str())
}

/// The strings of a list, where each item is a string.
pub open spec fn strings_of(items: Seq<JsonTree>) -> Option<Seq<Seq<char>>> {
    if forall|i: int| 0 <= i < items.len() ==> (#[trigger] items[i]) is Text {
        Some(items.map_values(|item: JsonTree| item->Text_0))
    } else {
        None
    }
}

/// Whether `tree` is an integer that fits 64 bits with a sign.
pub open spec fn is_small_int(tree: JsonTree) -> bool {
    tree matches JsonTree::Int(n) && i64::MIN <= n <= i64::MAX
}

/// The integers of a list, where each item is one that fits.
pub open spec fn integers_of(items: Seq<JsonTree>) -> Option<Seq<i64>> {
    if forall|i: int| 0 <= i < items.len() ==> is_small_int(#[trigger] items[i]) {
        Some(items.map_values(|item: JsonTree| item->Int_0 as i64))
    } else {
        None
    }
}

/// The paths of a release record: a list of strings, or nothing. The outer
/// option tells whether it is well formed.
pub open spec fn paths_of(member: Option<JsonTree>) -> Option<Option<Seq<Seq<char>>>> {
    match member {
        None => Some(None),
        Some(JsonTree::Null) => Some(None),
        Some(JsonTree::List(items)) => match strings_of(items) {
            Some(list) => Some(Some(list)),
            None => None,
        },
        Some(_) => None,
    }
}

/// The reservation ids of a release record: a list of integers, or nothing. The
/// outer option tells whether it is well formed.
pub open spec fn reservation_ids_of(member: Option<JsonTree>) -> Option<Option<Seq<i64>>> {
    match member {
        None => Some(None),
        Some(JsonTree::Null) => Some(None),
        Some(JsonTree::List(items)) => match integers_of(items) {
            Some(list) => Some(Some(list)),
            None => None,
        },
        Some(_) => None,
    }
}

/// The release that a record asks for, where it is well formed.
pub open spec fn intent_of(record: JsonTree) -> Option<IntentView> {
    match (
        text_member(record, "kind"@),
        text_member(record, "intent_id"@),
        text_member(record, "content_sha256"@),
        text_member(record, "project_key"@),
        text_member(record, "agent_name"@),
        paths_of(tree_member(record, "paths"@)),
        reservation_ids_of(tree_member(record, "file_reservation_ids"@)),
    ) {
        (
            Some(kind),
            Some(intent_id),
            Some(content_sha256),
            Some(project_key),
            Some(agent_name),
            Some(paths),
            Some(file_reservation_ids),
        ) => Some(
            IntentView {
                kind,
                intent_id,
                content_sha256,
                project_key,
                agent_name,
                paths,
                file_reservation_ids,
            },
        ),
        _ => None,
    }
}

fn read_strings(items: &Vec<Value>) -> (r: Option<Vec<String>>)
    ensures
        strings_of(json_trees(items@)) == optional_texts(r),
{
    let mut out: Vec<String> = Vec::new();
    let mut i: usize = 0;
    while i < items.len()
        invariant
            i <= items.len(),
            out.len() == i,
            forall|k: int|
                0 <= k < i ==> json_tree(#[trigger] items@[k]) == JsonTree::Text(out@[k]@),
        decreases items.len() - i,
    {
        match json_as_str(&items[i]) {
            Some(text) => out.push(text.to_owned()),
            None => {
                proof {
                    assert(!(json_trees(items@)[i as int] is Text));
                }
                return None;
            },
        }
        i = i + 1;
    }
    proof {
        assert forall|k: int| 0 <= k < items.len() implies (#[trigger] json_trees(
            items@,
        )[k]) is Text by {
            assert(json_tree(items@[k]) == JsonTree::Text(out@[k]@));
        }
        assert(json_trees(items@).map_values(|item: JsonTree| item->Text_0) =~= texts(out@)) by {
            assert forall|k: int| 0 <= k < items.len() implies #[trigger] json_trees(
                items@,
            )[k]->Text_0 == out@[k]@ by {
                assert(json_tree(items@[k]) == JsonTree::Text(out@[k]@));
            }
        }
    }
    Some(out)
}

fn read_integers(items: &Vec<Value>) -> (r: Option<Vec<i64>>)
    ensures
        integers_of(json_trees(items@)) == optional_ids(r),
{
    let mut out: Vec<i64> = Vec::new();
    let mut i: usize = 0;
    while i < items.len()
        invariant
            i <= items.len(),
            out.len() == i,
            forall|k: int|
                0 <= k < i ==> json_tree(#[trigger] items@[k]) == JsonTree::Int(out@[k] as int),
        decreases items.len() - i,
    {
        match json_as_int(&items[i]) {
            Some(n) => out.push(n),
            None => {
                proof {
                    assert(!is_small_int(json_trees(items@)[i as int]));
                }
                return None;
            },
        }
        i = i + 1;
    }
    proof {
        assert forall|k: int| 0 <= k < items.len() implies is_small_int(
            #[trigger] json_trees(items@)[k],
        ) by {
            assert(json_tree(items@[k]) == JsonTree::Int(out@[k] as int));
        }
        assert(json_trees(items@).map_values(|item: JsonTree| item->Int_0 as i64) =~= out@) by {
            assert forall|k: int| 0 <= k < items.len() implies #[trigger] json_trees(
                items@,
            )[k]->Int_0 == out@[k] by {
                assert(json_tree(items@[k]) == JsonTree::Int(out@[k] as int));
            }
        }
    }
    Some(out)
}

fn read_paths(record: &Value) -> (r: Option<Option<Vec<String>>>)
    ensures
        match r {
            Some(list) => paths_of(tree_member(json_tree(*record), "paths"@)) == Some(
                optional_texts(list),
            ),
            None => paths_of(tree_member(json_tree(*record), "paths"@)) is None,
        },
{
    match json_get(record, "paths") {
        None => Some(None),
        Some(value) => {
            if json_is_null(value) {
                return Some(None);
            }
            match json_as_list(value) {
                Some(items) => match read_strings(items) {
                    Some(list) => Some(Some(list)),
                    None => None,
                },
                None => None,
            }
        },
    }
}

fn read_reservation_ids(record: &Value) -> (r: Option<Option<Vec<i64>>>)
    ensures
        match r {
            Some(list) => reservation_ids_of(
                tree_member(json_tree(*record), "file_reservation_ids"@),
            ) == Some(optional_ids(list)),
            None => reservation_ids_of(
                tree_member(json_tree(*record), "file_reservation_ids"@),
            ) is None,
        },
{
    match json_get(record, "file_reservation_ids") {
        None => Some(None),
        Some(value) => {
            if json_is_null(value) {
                return Some(None);
            }
            match json_as_list(value) {
                Some(items) => match read_integers(items) {
                    Some(list) => Some(Some(list)),
                    None => None,
                },
                None => None,
            }
        },
    }
}

fn read_intent(record: &Value) -> (r: Option<QueuedReleaseIntent>)
    ensures
        match r {
            Some(intent) => intent_of(json_tree(*record)) == Some(intent@),
            None => intent_of(json_tree(*record)) is None,
        },
{
    let kind = text_of(record, "kind");
    let intent_id = text_of(record, "intent_id");
    let content_sha256 = text_of(record, "content_sha256");
    let project_key = text_of(record, "project_key");
    let agent_name = text_of(record, "agent_name");
    let paths = read_paths(record);
    let file_reservation_ids = read_reservation_ids(record);
    match (kind, intent_id, content_sha256, project_key, agent_name, paths, file_reservation_ids) {
        (
            Some(kind),
            Some(intent_id),
            Some(content_sha256),
            Some(project_key),
            Some(agent_name),
            Some(paths),
            Some(file_reservation_ids),
        ) => Some(
            QueuedReleaseIntent {
                kind: kind.to_owned(),
                intent_id: intent_id.to_owned(),
                content_sha256: content_sha256.to_owned(),
                project_key: project_key.to_owned(),
                agent_name: agent_name.to_owned(),
                paths,
                file_reservation_ids,
            },
        ),
        _ => None,
    }
}

/// What a line of the log says.
pub enum LogEntry {
    /// Nothing that counts.
    Nothing,
    /// The release with this id and content hash needs no more work.
    Done(Seq<char>, Seq<char>),
    /// A release is to be done.
    Queued(IntentView),
}

/// Whether a marker of this status ends the work on its release.
pub open spec fn is_terminal_status(status: Option<Seq<char>>) -> bool {
    status == Some("replayed"@) || status == Some("abandoned"@)
}

/// What a record of the log says.
pub open spec fn entry_of_record(record: JsonTree) -> LogEntry {
    let kind = text_member(record, "kind"@);
    if kind == Some("release_file_reservations_replay"@) && is_terminal_status(
        text_member(record, "status"@),
    ) {
        if has_valid_replay_hash(record) {
            LogEntry::Done(
                text_member(record, "intent_id"@)->0,
                text_member(record, "intent_content_sha256"@)->0,
            )
        } else {
            LogEntry::Nothing
        }
    } else if kind == Some("release_file_reservations_intent"@) && has_valid_intent_hash(record) {
        match intent_of(record) {
            Some(intent) => LogEntry::Queued(intent),
            None => LogEntry::Nothing,
        }
    } else {
        LogEntry::Nothing
    }
}

/// `line` without the carriage returns at its end.
pub open spec fn unreturned(line: Seq<char>) -> Seq<char>
    decreases line.len(),
{
    if line.len() > 0 && line.last() == '\r' {
        unreturned(line.drop_last())
    } else {
        line
    }
}

/// What a line of the log says. Carriage returns after a record are white space,
/// and say nothing.
pub open spec fn entry_of_line(line: Seq<char>) -> LogEntry {
    let text = unreturned(line);
    if trimmed(text).len() == 0 {
        LogEntry::Nothing
    } else {
        match json_parsed(text) {
            Some(record) => entry_of_record(record),
            None => LogEntry::Nothing,
        }
    }
}

/// What the lines of a log say.
pub open spec fn log_entries(log: Seq<char>) -> Seq<LogEntry> {
    lines(log).map_values(|line: Seq<char>| entry_of_line(line))
}

/// Whether `entry` is a release on which `entries` does not end the work.
pub open spec fn is_open_entry(entry: LogEntry, entries: Seq<LogEntry>) -> bool {
    match entry {
        LogEntry::Queued(intent) => !entries.contains(
            LogEntry::Done(intent.intent_id, intent.content_sha256),
        ),
        _ => false,
    }
}

/// The releases among `entries` that are still to be done, in order.
pub open spec fn open_entries(entries: Seq<LogEntry>) -> Seq<LogEntry> {
    entries.filter(|entry: LogEntry| is_open_entry(entry, entries))
}

/// What a line of the log says, as the reader holds it.
enum ReadEntry {
    Nothing,
    Done(String, String),
    Queued(QueuedReleaseIntent),
}

spec fn read_entry_view(entry: ReadEntry) -> LogEntry {
    match entry {
        ReadEntry::Nothing => LogEntry::Nothing,
        ReadEntry::Done(id, hash) => LogEntry::Done(id@, hash@),
        ReadEntry::Queued(intent) => LogEntry::Queued(intent@),
    }
}

fn is_status(record: &Value, status: &str) -> (r: bool)
    ensures
        r == (text_member(json_tree(*record), "status"@) == Some(status@)),
{
    match text_of(record, "status") {
        Some(text) => same_text(text, status),
        None => false,
    }
}

fn read_record(record: &Value) -> (r: ReadEntry)
    ensures
        read_entry_view(r) == entry_of_record(json_tree(*record)),
{
    proof {
        reveal_strlit("release_file_reservations_replay");
        reveal_strlit("release_file_reservations_intent");
        assert("release_file_reservations_replay"@[26] == 'r');
        assert("release_file_reservations_intent"@[26] == 'i');
    }
    let kind = match text_of(record, "kind") {
        Some(text) => text,
        None => return ReadEntry::Nothing,
    };
    if same_text(kind, "release_file_reservations_replay") {
        if !is_status(record, "replayed") && !is_status(record, "abandoned") {
            return ReadEntry::Nothing;
        }
        if !release_replay_record_has_valid_hash(record) {
            return ReadEntry::Nothing;
        }
        return match (text_of(record, "intent_id"), text_of(record, "intent_content_sha256")) {
            (Some(id), Some(hash)) => ReadEntry::Done(id.to_owned(), hash.to_owned()),
            _ => ReadEntry::Nothing,
        };
    }
    if same_text(kind, "release_file_reservations_intent") {
        if !release_intent_record_has_valid_hash(record) {
            return ReadEntry::Nothing;
        }
        return match read_intent(record) {
            Some(intent) => ReadEntry::Queued(intent),
            None => ReadEntry::Nothing,
        };
    }
    ReadEntry::Nothing
}

fn without_returns(line: &str) -> (r: String)
    ensures
        r@ == unreturned(line@),
{
    let mut n: usize = line.unicode_len();
    proof {
        assert(line@.take(n as int) =~= line@);
    }
    while n > 0 && line.get_char(n - 1) == '\r'
        invariant
            n <= line@.len(),
            unreturned(line@.take(n as int)) == unreturned(line@),
        ensures
            n <= line@.len(),
            n > 0 ==> line@[n - 1] != '\r',
            unreturned(line@.take(n as int)) == unreturned(line@),
        decreases n,
    {
        proof {
            assert(line@.take(n as int).drop_last() =~= line@.take(n - 1));
        }
        n = n - 1;
    }
    proof {
        assert(line@.subrange(0, n as int) =~= line@.take(n as int));
    }
    line.substring_char(0, n).to_owned()
}

fn read_line(line: &str) -> (r: ReadEntry)
    ensures
        read_entry_view(r) == entry_of_line(line@),
{
    let text = without_returns(line);
    let bare = trim(text.as_str());
    if bare.as_str().unicode_len() == 0 {
        return ReadEntry::Nothing;
    }
    match json_parse(text.as_str()) {
        Some(record) => read_record(&record),
        None => ReadEntry::Nothing,
    }
}

/// The views of the entries that were read.
spec fn read_entries_view(entries: Seq<ReadEntry>) -> Seq<LogEntry> {
    entries.map_values(|entry: ReadEntry| read_entry_view(entry))
}

/// The entries of these releases.
pub open spec fn queued_entries(intents: Seq<QueuedReleaseIntent>) -> Seq<LogEntry> {
    intents.map_values(|intent: QueuedReleaseIntent| LogEntry::Queued(intent@))
}

fn read_entries(log: &str) -> (r: Vec<ReadEntry>)
    ensures
        read_entries_view(r@) == log_entries(log@),
{
    let all = lines_of(log);
    let mut out: Vec<ReadEntry> = Vec::new();
    let mut i: usize = 0;
    while i < all.len()
        invariant
            i <= all.len(),
            out.len() == i,
            texts(all@) == lines(log@),
            forall|k: int|
                0 <= k < i ==> read_entry_view(#[trigger] out@[k]) == entry_of_line(all@[k]@),
        decreases all.len() - i,
    {
        out.push(read_line(all[i].as_str()));
        i = i + 1;
    }
    proof {
        assert(read_entries_view(out@) =~= log_entries(log@)) by {
            assert forall|k: int| 0 <= k < all.len() implies #[trigger] log_entries(log@)[k]
                == read_entry_view(out@[k]) by {
                assert(texts(all@)[k] == all@[k]@);
            }
        }
    }
    out
}

fn ends_work(entries: &Vec<ReadEntry>, id: &str, hash: &str) -> (r: bool)
    ensures
        r == read_entries_view(entries@).contains(LogEntry::Done(id@, hash@)),
{
    let mut i: usize = 0;
    while i < entries.len()
        invariant
            i <= entries.len(),
            forall|k: int|
                0 <= k < i ==> read_entry_view(#[trigger] entries@[k]) != LogEntry::Done(
                    id@,
                    hash@,
                ),
        decreases entries.len() - i,
    {
        if let ReadEntry::Done(done_id, done_hash) = &entries[i] {
            if same_text(done_id.as_str(), id) && same_text(done_hash.as_str(), hash) {
                proof {
                    assert(read_entries_view(entries@)[i as int] == LogEntry::Done(id@, hash@));
                }
                return true;
            }
        }
        i = i + 1;
    }
    proof {
        let views = read_entries_view(entries@);
        assert forall|k: int| 0 <= k < views.len() implies views[k] != LogEntry::Done(
            id@,
            hash@,
        ) by {
            assert(views[k] == read_entry_view(entries@[k]));
        }
    }
    false
}

fn open_flags(entries: &Vec<ReadEntry>) -> (r: Vec<bool>)
    ensures
        r@.len() == entries@.len(),
        forall|k: int|
            0 <= k < r@.len() ==> (#[trigger] r@[k]) == is_open_entry(
                read_entry_view(entries@[k]),
                read_entries_view(entries@),
            ),
{
    let mut flags: Vec<bool> = Vec::new();
    let mut i: usize = 0;
    while i < entries.len()
        invariant
            i <= entries.len(),
            flags.len() == i,
            forall|k: int|
                0 <= k < i ==> (#[trigger] flags@[k]) == is_open_entry(
                    read_entry_view(entries@[k]),
                    read_entries_view(entries@),
                ),
        decreases entries.len() - i,
    {
        let open = match &entries[i] {
            ReadEntry::Queued(intent) => !ends_work(
                entries,
                intent.intent_id.as_str(),
                intent.content_sha256.as_str(),
            ),
            _ => false,
        };
        flags.push(open);
        i = i + 1;
    }
    flags
}

/// The releases that the log still asks for, in order. A line that is not a
/// record, or whose content hash is wrong, counts for nothing; a release is done
/// with when a marker anywhere in the log says so of its id and content hash.
pub fn read_queued_release_intents(log: &str) -> (r: Vec<QueuedReleaseIntent>)
    ensures
        queued_entries(r@) == open_entries(log_entries(log@)),
{
    let entries = read_entries(log);
    let flags = open_flags(&entries);
    let ghost views = log_entries(log@);
    let ghost open = |entry: LogEntry| is_open_entry(entry, views);
    let ghost read = entries@;
    let mut out: Vec<QueuedReleaseIntent> = Vec::new();
    let mut i: usize = 0;
    proof {
        assert(views.take(0) =~= Seq::empty());
        assert(queued_entries(out@) =~= Seq::empty());
    }
    for entry in it: entries.into_iter()
        invariant
            it.seq() == read,
            i == it.index(),
            read_entries_view(read) == views,
            flags@.len() == read.len(),
            forall|k: int|
                0 <= k < flags@.len() ==> (#[trigger] flags@[k]) == is_open_entry(
                    read_entry_view(read[k]),
                    views,
                ),
            open == (|entry: LogEntry| is_open_entry(entry, views)),
            queued_entries(out@) == views.take(i as int).filter(open),
    {
        let ghost had = queued_entries(out@);
        proof {
            assert(i < flags.len());
            assert(views[i as int] == read_entry_view(read[i as int]));
            assert(views.take(i + 1).drop_last() =~= views.take(i as int));
            reveal(Seq::filter);
        }
        if let ReadEntry::Queued(intent) = entry {
            if flags[i] {
                out.push(intent);
                proof {
                    assert(queued_entries(out@) =~= had.push(LogEntry::Queued(intent@)));
                }
            }
        }
        i = i + 1;
    }
    proof {
        assert(views.take(views.len() as int) =~= views);
    }
    out
}

/// Where and why a release could not reach the database.
pub open spec fn failure_tree(stage: Seq<char>, detail: Seq<char>) -> JsonTree {
    JsonTree::Object(
        map![
            "stage"@ => JsonTree::Text(stage),
            "error_detail"@ => JsonTree::Text(detail),
        ],
    )
}

/// What a record of a queued release says, without its id and hash.
pub open spec fn intent_content(
    project_key: Seq<char>,
    agent_name: Seq<char>,
    paths: Option<Seq<Seq<char>>>,
    ids: Option<Seq<i64>>,
    stage: Seq<char>,
    detail: Seq<char>,
    created_ts: i64,
) -> JsonTree {
    JsonTree::Object(
        map![
            "schema_version"@ => JsonTree::Int(RELEASE_INTENT_SCHEMA_VERSION as int),
            "kind"@ => JsonTree::Text("release_file_reservations_intent"@),
            "created_ts"@ => JsonTree::Int(created_ts as int),
            "project_key"@ => JsonTree::Text(project_key),
            "agent_name"@ => JsonTree::Text(agent_name),
            "paths"@ => optional_text_list(paths),
            "file_reservation_ids"@ => optional_int_list(ids),
            "failure"@ => failure_tree(stage, detail),
        ],
    )
}

/// The record of a queued release, with this hash of its content.
pub open spec fn intent_record(
    hash: Seq<char>,
    project_key: Seq<char>,
    agent_name: Seq<char>,
    paths: Option<Seq<Seq<char>>>,
    ids: Option<Seq<i64>>,
    stage: Seq<char>,
    detail: Seq<char>,
    created_ts: i64,
) -> JsonTree {
    JsonTree::Object(
        map![
            "schema_version"@ => JsonTree::Int(RELEASE_INTENT_SCHEMA_VERSION as int),
            "kind"@ => JsonTree::Text("release_file_reservations_intent"@),
            "intent_id"@ => JsonTree::Text(hash.take(16)),
            "content_sha256"@ => JsonTree::Text(hash),
            "created_ts"@ => JsonTree::Int(created_ts as int),
            "project_key"@ => JsonTree::Text(project_key),
            "agent_name"@ => JsonTree::Text(agent_name),
            "paths"@ => optional_text_list(paths),
            "file_reservation_ids"@ => optional_int_list(ids),
            "failure"@ => failure_tree(stage, detail),
        ],
    )
}

/// A record that is to be appended to the log, with its id and hash.
#[derive(Debug, Clone)]
pub struct ReleaseIntent {
    pub record: Value,
    pub intent_id: String,
    pub content_sha256: String,
}

/// Whether `intent` is the record of this queued release.
pub open spec fn is_intent(
    intent: ReleaseIntent,
    project_key: Seq<char>,
    agent_name: Seq<char>,
    paths: Option<Seq<Seq<char>>>,
    ids: Option<Seq<i64>>,
    stage: Seq<char>,
    detail: Seq<char>,
    created_ts: i64,
) -> bool {
    let hash = content_hash(
        intent_content(project_key, agent_name, paths, ids, stage, detail, created_ts),
    );
    &&& intent.content_sha256@ == hash
    &&& intent.intent_id@ == hash.take(16)
    &&& json_tree(intent.record) == intent_record(
        hash,
        project_key,
        agent_name,
        paths,
        ids,
        stage,
        detail,
        created_ts,
    )
}

/// The record that queues a release. Its hash covers all that it says, and its
/// id is the start of the hash.
pub fn append_release_intent(
    project_key: &str,
    agent_name: &str,
    paths: &Option<Vec<String>>,
    ids: &Option<Vec<i64>>,
    stage: &str,
    detail: &str,
    created_ts: i64,
) -> (r: ReleaseIntent)
    ensures
        is_intent(
            r,
            project_key@,
            agent_name@,
            optional_texts(*paths),
            optional_ids(*ids),
            stage@,
            detail@,
            created_ts,
        ),
        r.content_sha256@.len() == 64,
{
    let failure = with(json_object(), "stage", json_text(stage));
    let failure = with(failure, "error_detail", json_text(detail));
    let content = with(json_object(), "schema_version", json_count(RELEASE_INTENT_SCHEMA_VERSION as u64));
    let content = with(content, "kind", json_text("release_file_reservations_intent"));
    let content = with(content, "created_ts", json_int(created_ts));
    let content = with(content, "project_key", json_text(project_key));
    let content = with(content, "agent_name", json_text(agent_name));
    let content = with(content, "paths", optional_texts_value(paths));
    let content = with(content, "file_reservation_ids", optional_ids_value(ids));
    let content = with(content, "failure", failure);
    let content_sha256 = hash_json_value(&content);
    let intent_id = content_sha256.as_str().substring_char(0, 16).to_owned();
    proof {
        assert(intent_id@ =~= content_sha256@.take(16));
    }
    let failure = with(json_object(), "stage", json_text(stage));
    let failure = with(failure, "error_detail", json_text(detail));
    let record = with(json_object(), "schema_version", json_count(RELEASE_INTENT_SCHEMA_VERSION as u64));
    let record = with(record, "kind", json_text("release_file_reservations_intent"));
    let record = with(record, "intent_id", json_text(intent_id.as_str()));
    let record = with(record, "content_sha256", json_text(content_sha256.as_str()));
    let record = with(record, "created_ts", json_int(created_ts));
    let record = with(record, "project_key", json_text(project_key));
    let record = with(record, "agent_name", json_text(agent_name));
    let record = with(record, "paths", optional_texts_value(paths));
    let record = with(record, "file_reservation_ids", optional_ids_value(ids));
    let record = with(record, "failure", failure);
    ReleaseIntent { record, intent_id, content_sha256 }
}

/// What a replay marker says, without its hash.
pub open spec fn replay_content(
    intent_id: Seq<char>,
    intent_hash: Seq<char>,
    status: Seq<char>,
    released: int,
    detail: Option<Seq<char>>,
    replayed_ts: i64,
) -> JsonTree {
    JsonTree::Object(
        map![
            "schema_version"@ => JsonTree::Int(RELEASE_INTENT_SCHEMA_VERSION as int),
            "kind"@ => JsonTree::Text("release_file_reservations_replay"@),
            "intent_id"@ => JsonTree::Text(intent_id),
            "intent_content_sha256"@ => JsonTree::Text(intent_hash),
            "replayed_ts"@ => JsonTree::Int(replayed_ts as int),
            "status"@ => JsonTree::Text(status),
            "released"@ => JsonTree::Int(released),
            "error_detail"@ => optional_text(detail),
        ],
    )
}

/// The replay marker of a queued release.
pub open spec fn replay_record(
    intent_id: Seq<char>,
    intent_hash: Seq<char>,
    status: Seq<char>,
    released: int,
    detail: Option<Seq<char>>,
    replayed_ts: i64,
) -> JsonTree {
    JsonTree::Object(
        map![
            "schema_version"@ => JsonTree::Int(RELEASE_INTENT_SCHEMA_VERSION as int),
            "kind"@ => JsonTree::Text("release_file_reservations_replay"@),
            "intent_id"@ => JsonTree::Text(intent_id),
            "content_sha256"@ => JsonTree::Text(
                content_hash(
                    replay_content(intent_id, intent_hash, status, released, detail, replayed_ts),
                ),
            ),
            "intent_content_sha256"@ => JsonTree::Text(intent_hash),
            "replayed_ts"@ => JsonTree::Int(replayed_ts as int),
            "status"@ => JsonTree::Text(status),
            "released"@ => JsonTree::Int(released),
            "error_detail"@ => optional_text(detail),
        ],
    )
}

/// The marker that says how the replay of a queued release ended.
pub fn append_release_replay_record(
    intent_id: &str,
    intent_hash: &str,
    status: &str,
    released: u64,
    detail: &Option<String>,
    replayed_ts: i64,
) -> (r: Value)
    ensures
        json_tree(r) == replay_record(
            intent_id@,
            intent_hash@,
            status@,
            released as int,
            optional_view(*detail),
            replayed_ts,
        ),
        content_hash(
            replay_content(
                intent_id@,
                intent_hash@,
                status@,
                released as int,
                optional_view(*detail),
                replayed_ts,
            ),
        ).len() == 64,
{
    let content = with(json_object(), "schema_version", json_count(RELEASE_INTENT_SCHEMA_VERSION as u64));
    let content = with(content, "kind", json_text("release_file_reservations_replay"));
    let content = with(content, "intent_id", json_text(intent_id));
    let content = with(content, "intent_content_sha256", json_text(intent_hash));
    let content = with(content, "replayed_ts", json_int(replayed_ts));
    let content = with(content, "status", json_text(status));
    let content = with(content, "released", json_count(released));
    let content = with(content, "error_detail", json_optional_text(detail));
    let content_sha256 = hash_json_value(&content);
    let record = with(json_object(), "schema_version", json_count(RELEASE_INTENT_SCHEMA_VERSION as u64));
    let record = with(record, "kind", json_text("release_file_reservations_replay"));
    let record = with(record, "intent_id", json_text(intent_id));
    let record = with(record, "content_sha256", json_text(content_sha256.as_str()));
    let record = with(record, "intent_content_sha256", json_text(intent_hash));
    let record = with(record, "replayed_ts", json_int(replayed_ts));
    let record = with(record, "status", json_text(status));
    let record = with(record, "released", json_count(released));
    with(record, "error_detail", json_optional_text(detail))
}

/// Whether a log whose last byte is `last_byte` broke off in the middle of a
/// line. A log without a last byte is empty.
pub open spec fn is_torn(last_byte: Option<u8>) -> bool {
    last_byte is Some && last_byte->0 != 10
}

/// What is appended to a log for the line `line`.
pub open spec fn appended_text(last_byte: Option<u8>, line: Seq<char>) -> Seq<char> {
    if is_torn(last_byte) {
        "\n"@ + line + "\n"@
    } else {
        line + "\n"@
    }
}

/// What is appended to the log for `record`: its line, after a line feed where
/// the log broke off in the middle of one.
pub fn append_release_intent_jsonl(last_byte: Option<u8>, record: &Value) -> (r: String)
    ensures
        r@ == appended_text(last_byte, json_encoding(json_tree(*record))),
        is_json_of(json_encoding(json_tree(*record)), json_tree(*record)),
{
    let line = json_string(record);
    let torn = match last_byte {
        Some(byte) => byte != 10,
        None => false,
    };
    if torn {
        "\n".to_owned().concat(line.as_str()).concat("\n")
    } else {
        line.concat("\n")
    }
}

/// A content hash is 64 bytes long, and so are 16 bytes of it 16.
proof fn hash_lengths(tree: JsonTree)
    requires
        content_hash(tree).len() == 64,
    ensures
        utf8_len(content_hash(tree)) == 64,
        utf8_len(content_hash(tree).take(16)) == 16,
{
    let hash = content_hash(tree);
    reveal_strlit("0123456789abcdef");
    assert forall|n: int| 0 <= n < 16 implies (#[trigger] hex_digit(n)) as u32 <= 127 by {
        assert("0123456789abcdef"@.len() == 16);
        assert("0123456789abcdef"@[0] == '0');
        assert("0123456789abcdef"@[1] == '1');
        assert("0123456789abcdef"@[2] == '2');
        assert("0123456789abcdef"@[3] == '3');
        assert("0123456789abcdef"@[4] == '4');
        assert("0123456789abcdef"@[5] == '5');
        assert("0123456789abcdef"@[6] == '6');
        assert("0123456789abcdef"@[7] == '7');
        assert("0123456789abcdef"@[8] == '8');
        assert("0123456789abcdef"@[9] == '9');
        assert("0123456789abcdef"@[10] == 'a');
        assert("0123456789abcdef"@[11] == 'b');
        assert("0123456789abcdef"@[12] == 'c');
        assert("0123456789abcdef"@[13] == 'd');
        assert("0123456789abcdef"@[14] == 'e');
        assert("0123456789abcdef"@[15] == 'f');
    }
    assert(is_ascii_chars(hash)) by {
        assert forall|i: int| 0 <= i < hash.len() implies (#[trigger] hash[i]) as u32 <= 127 by {
            let bytes = crate::digest::sha256_of(encode_utf8(json_encoding(tree)));
            let b = bytes[i / 2] as int;
            assert(0 <= b / 16 < 16);
            assert(0 <= b % 16 < 16);
            assert(hash[i] == hex_digit(b / 16) || hash[i] == hex_digit(b % 16));
        }
    }
    is_ascii_chars_encode_utf8(hash);
    assert(is_ascii_chars(hash.take(16)));
    is_ascii_chars_encode_utf8(hash.take(16));
}

/// The record of a queued release is a record that reads back, and asks for that
/// release.
pub proof fn intent_record_is_read_back(
    intent: ReleaseIntent,
    project_key: Seq<char>,
    agent_name: Seq<char>,
    paths: Option<Seq<Seq<char>>>,
    ids: Option<Seq<i64>>,
    stage: Seq<char>,
    detail: Seq<char>,
    created_ts: i64,
)
    requires
        is_intent(intent, project_key, agent_name, paths, ids, stage, detail, created_ts),
        intent.content_sha256@.len() == 64,
    ensures
        is_record(json_tree(intent.record)),
        has_valid_intent_hash(json_tree(intent.record)),
        entry_of_record(json_tree(intent.record)) == LogEntry::Queued(
            IntentView {
                kind: "release_file_reservations_intent"@,
                intent_id: intent.intent_id@,
                content_sha256: intent.content_sha256@,
                project_key,
                agent_name,
                paths,
                file_reservation_ids: ids,
            },
        ),
{
    reveal_strlit("schema_version");
    reveal_strlit("kind");
    reveal_strlit("intent_id");
    reveal_strlit("content_sha256");
    reveal_strlit("created_ts");
    reveal_strlit("project_key");
    reveal_strlit("agent_name");
    reveal_strlit("paths");
    reveal_strlit("file_reservation_ids");
    reveal_strlit("failure");
    assert("schema_version"@.len() == 14);
    assert("kind"@.len() == 4);
    assert("intent_id"@.len() == 9);
    assert("content_sha256"@.len() == 14);
    assert("created_ts"@.len() == 10);
    assert("project_key"@.len() == 11);
    assert("agent_name"@.len() == 10);
    assert("paths"@.len() == 5);
    assert("file_reservation_ids"@.len() == 20);
    assert("failure"@.len() == 7);
    assert("schema_version"@[0] == 's');
    assert("content_sha256"@[0] == 'c');
    assert("created_ts"@[0] == 'c');
    assert("agent_name"@[0] == 'a');
    reveal_strlit("stage");
    reveal_strlit("error_detail");
    reveal_strlit("release_file_reservations_replay");
    reveal_strlit("release_file_reservations_intent");
    assert("release_file_reservations_replay"@[26] == 'r');
    assert("release_file_reservations_intent"@[26] == 'i');
    let content = intent_content(
        project_key,
        agent_name,
        paths,
        ids,
        stage,
        detail,
        created_ts,
    );
    let hash = content_hash(content);
    hash_lengths(content);
    let record = json_tree(intent.record);
    assert(intent_payload(record)->Object_0 =~= content->Object_0);
    assert(hash.take(16).is_prefix_of(hash)) by {
        assert(hash.take(16) =~= hash.subrange(0, hash.take(16).len() as int));
    }
    if let Some(list) = paths {
        let items = list.map_values(|s: Seq<char>| JsonTree::Text(s));
        assert(items.map_values(|item: JsonTree| item->Text_0) =~= list);
        assert(is_field(text_list(list)));
    }
    if let Some(list) = ids {
        let items = list.map_values(|n: i64| JsonTree::Int(n as int));
        assert(items.map_values(|item: JsonTree| item->Int_0 as i64) =~= list);
        assert(is_field(int_list(list)));
    }
    assert(is_field(failure_tree(stage, detail)));
    assert(is_record(record));
    assert(paths_of(tree_member(record, "paths"@)) == Some(paths));
    assert(reservation_ids_of(tree_member(record, "file_reservation_ids"@)) == Some(ids));
}

/// A replay marker reads back as one; a marker that ends the work says so of the
/// id and hash of its release, another one counts for nothing.
pub proof fn replay_record_is_read_back(
    intent_id: Seq<char>,
    intent_hash: Seq<char>,
    status: Seq<char>,
    released: u64,
    detail: Option<Seq<char>>,
    replayed_ts: i64,
)
    requires
        utf8_len(intent_id) == 16,
        utf8_len(intent_hash) == 64,
        intent_id.is_prefix_of(intent_hash),
        content_hash(
            replay_content(intent_id, intent_hash, status, released as int, detail, replayed_ts),
        ).len() == 64,
    ensures
        ({
            let record = replay_record(
                intent_id,
                intent_hash,
                status,
                released as int,
                detail,
                replayed_ts,
            );
            &&& is_record(record)
            &&& has_valid_replay_hash(record)
            &&& entry_of_record(record) == (if is_terminal_status(Some(status)) {
                LogEntry::Done(intent_id, intent_hash)
            } else {
                LogEntry::Nothing
            })
        }),
{
    reveal_strlit("schema_version");
    reveal_strlit("kind");
    reveal_strlit("intent_id");
    reveal_strlit("content_sha256");
    reveal_strlit("intent_content_sha256");
    reveal_strlit("replayed_ts");
    reveal_strlit("status");
    reveal_strlit("released");
    reveal_strlit("error_detail");
    assert("schema_version"@.len() == 14);
    assert("kind"@.len() == 4);
    assert("intent_id"@.len() == 9);
    assert("content_sha256"@.len() == 14);
    assert("intent_content_sha256"@.len() == 21);
    assert("replayed_ts"@.len() == 11);
    assert("status"@.len() == 6);
    assert("released"@.len() == 8);
    assert("error_detail"@.len() == 12);
    assert("schema_version"@[0] == 's');
    assert("content_sha256"@[0] == 'c');
    reveal_strlit("release_file_reservations_replay");
    reveal_strlit("release_file_reservations_intent");
    assert("release_file_reservations_replay"@[26] == 'r');
    assert("release_file_reservations_intent"@[26] == 'i');
    let content = replay_content(
        intent_id,
        intent_hash,
        status,
        released as int,
        detail,
        replayed_ts,
    );
    hash_lengths(content);
    let record = replay_record(
        intent_id,
        intent_hash,
        status,
        released as int,
        detail,
        replayed_ts,
    );
    assert(replay_payload(record)->Object_0 =~= content->Object_0);
    assert(is_record(record));
}

/// What is appended to a log for a line puts it after the log, on a line of its own.
/// `last_byte` tells how the log ends.
pub proof fn appended_text_is_line(log: Seq<char>, last_byte: Option<u8>, line: Seq<char>)
    requires
        is_torn(last_byte) == (log.len() > 0 && log.last() != '\n'),
    ensures
        log + appended_text(last_byte, line) == with_line(log, line),
{
    reveal_strlit("\n");
    assert("\n"@ =~= seq!['\n']);
    assert(log + appended_text(last_byte, line) =~= with_line(log, line));
}

/// A record that is appended to a log is one more entry of it, and the entries
/// before it stay what they are, also where the log broke off in the middle of a
/// line. `last_byte` tells how the log ends.
pub proof fn appended_record_is_read(
    log: Seq<char>,
    last_byte: Option<u8>,
    text: Seq<char>,
    record: JsonTree,
)
    requires
        is_torn(last_byte) == (log.len() > 0 && log.last() != '\n'),
        is_json_of(text, record),
        is_record(record),
    ensures
        log_entries(log + appended_text(last_byte, text)) == log_entries(log).push(
            entry_of_record(record),
        ),
{
    appended_text_is_line(log, last_byte, text);
    assert(!text.contains('\n')) by {
        assert('\n' < ' ');
    }
    assert(!text.contains('\r')) by {
        assert('\r' < ' ');
    }
    line_is_appended(log, text);
    assert(unreturned(text) == text);
    assert(trimmed(text) == text);
    let read = |line: Seq<char>| entry_of_line(line);
    let ended = ended_lines(log);
    if log.len() > 0 && log.last() == '\r' {
        assert(entry_of_line(without_return(lines(log).last())) == entry_of_line(lines(log).last()));
        assert(ended.map_values(read) =~= lines(log).map_values(read));
    }
    assert(ended.push(text).map_values(read) =~= ended.map_values(read).push(entry_of_line(text)));
}

/// A release that is queued anew is the last that is to be done, unless a marker
/// already ended it.
pub proof fn queued_release_is_open(entries: Seq<LogEntry>, intent: IntentView)
    requires
        !entries.contains(LogEntry::Done(intent.intent_id, intent.content_sha256)),
    ensures
        open_entries(entries.push(LogEntry::Queued(intent))) == open_entries(entries).push(
            LogEntry::Queued(intent),
        ),
{
    reveal(Seq::filter);
    let entry = LogEntry::Queued(intent);
    let all = entries.push(entry);
    let before = |e: LogEntry| is_open_entry(e, entries);
    let after = |e: LogEntry| is_open_entry(e, all);
    assert forall|e: LogEntry| #[trigger] is_open_entry(e, all) == is_open_entry(e, entries) by {
        if let LogEntry::Queued(i) = e {
            let done = LogEntry::Done(i.intent_id, i.content_sha256);
            if entries.contains(done) {
                let k = choose|k: int| 0 <= k < entries.len() && entries[k] == done;
                assert(all[k] == done);
            }
            if all.contains(done) {
                let k = choose|k: int| 0 <= k < all.len() && all[k] == done;
                assert(k < entries.len());
                assert(entries[k] == done);
            }
        }
    }
    assert(before =~= after);
    assert(all.drop_last() =~= entries);
}

/// A marker that ends the work on a release takes that release from those that
/// are to be done, and no other.
pub proof fn marker_closes_release(entries: Seq<LogEntry>, id: Seq<char>, hash: Seq<char>)
    ensures
        open_entries(entries.push(LogEntry::Done(id, hash))) == open_entries(entries).filter(
            |e: LogEntry| !(e matches LogEntry::Queued(i) && i.intent_id == id && i.content_sha256
                == hash),
        ),
{
    let marker = LogEntry::Done(id, hash);
    let all = entries.push(marker);
    let other = |e: LogEntry|
        !(e matches LogEntry::Queued(i) && i.intent_id == id && i.content_sha256 == hash);
    let before = |e: LogEntry| is_open_entry(e, entries);
    let after = |e: LogEntry| is_open_entry(e, all);
    assert forall|e: LogEntry| #[trigger] is_open_entry(e, all) == (is_open_entry(e, entries)
        && other(e)) by {
        if let LogEntry::Queued(i) = e {
            let done = LogEntry::Done(i.intent_id, i.content_sha256);
            if entries.contains(done) {
                let k = choose|k: int| 0 <= k < entries.len() && entries[k] == done;
                assert(all[k] == done);
            }
            if all.contains(done) && done != marker {
                let k = choose|k: int| 0 <= k < all.len() && all[k] == done;
                assert(entries[k] == done);
            }
            if done == marker {
                assert(all[entries.len() as int] == done);
            }
        }
    }
    filter_twice(entries, before, other, after);
    reveal(Seq::filter);
    assert(all.drop_last() =~= entries);
}

pub(crate) proof fn filter_twice(
    entries: Seq<LogEntry>,
    first: spec_fn(LogEntry) -> bool,
    second: spec_fn(LogEntry) -> bool,
    both: spec_fn(LogEntry) -> bool,
)
    requires
        forall|e: LogEntry| #[trigger] both(e) == (first(e) && second(e)),
    ensures
        entries.filter(both) == entries.filter(first).filter(second),
    decreases entries.len(),
{
    reveal(Seq::filter);
    if entries.len() > 0 {
        filter_twice(entries.drop_last(), first, second, both);
        let head = entries.drop_last().filter(first);
        assert(both(entries.last()) == (first(entries.last()) && second(entries.last())));
        assert(head.push(entries.last()).drop_last() =~= head);
    }
}

/// An entry that counts for nothing changes nothing: a torn line, a record with
/// a wrong hash, or a marker of a replay that is to be tried again.
pub proof fn nothing_changes_nothing(entries: Seq<LogEntry>)
    ensures
        open_entries(entries.push(LogEntry::Nothing)) == open_entries(entries),
{
    reveal(Seq::filter);
    let all = entries.push(LogEntry::Nothing);
    let before = |e: LogEntry| is_open_entry(e, entries);
    let after = |e: LogEntry| is_open_entry(e, all);
    assert forall|e: LogEntry| #[trigger] is_open_entry(e, all) == is_open_entry(e, entries) by {
        if let LogEntry::Queued(i) = e {
            let done = LogEntry::Done(i.intent_id, i.content_sha256);
            if entries.contains(done) {
                let k = choose|k: int| 0 <= k < entries.len() && entries[k] == done;
                assert(all[k] == done);
            }
            if all.contains(done) {
                let k = choose|k: int| 0 <= k < all.len() && all[k] == done;
                assert(entries[k] == done);
            }
        }
    }
    assert(before =~= after);
    assert(all.drop_last() =~= entries);
}

/// What is queued is read back: once the record of a release is appended to a log,
/// the log asks for that release after all that it asked for before, unless a
/// marker of the log already ended it.
pub proof fn appended_release_is_read_back(
    log: Seq<char>,
    last_byte: Option<u8>,
    text: Seq<char>,
    intent: ReleaseIntent,
    project_key: Seq<char>,
    agent_name: Seq<char>,
    paths: Option<Seq<Seq<char>>>,
    ids: Option<Seq<i64>>,
    stage: Seq<char>,
    detail: Seq<char>,
    created_ts: i64,
)
    requires
        is_torn(last_byte) == (log.len() > 0 && log.last() != '\n'),
        is_intent(intent, project_key, agent_name, paths, ids, stage, detail, created_ts),
        intent.content_sha256@.len() == 64,
        is_json_of(text, json_tree(intent.record)),
        !log_entries(log).contains(LogEntry::Done(intent.intent_id@, intent.content_sha256@)),
    ensures
        open_entries(log_entries(log + appended_text(last_byte, text))) == open_entries(
            log_entries(log),
        ).push(
            LogEntry::Queued(
                IntentView {
                    kind: "release_file_reservations_intent"@,
                    intent_id: intent.intent_id@,
                    content_sha256: intent.content_sha256@,
                    project_key,
                    agent_name,
                    paths,
                    file_reservation_ids: ids,
                },
            ),
        ),
{
    intent_record_is_read_back(
        intent,
        project_key,
        agent_name,
        paths,
        ids,
        stage,
        detail,
        created_ts,
    );
    appended_record_is_read(log, last_byte, text, json_tree(intent.record));
    queued_release_is_open(
        log_entries(log),
        IntentView {
            kind: "release_file_reservations_intent"@,
            intent_id: intent.intent_id@,
            content_sha256: intent.content_sha256@,
            project_key,
            agent_name,
            paths,
            file_reservation_ids: ids,
        },
    );
}

/// Once a marker that ends the work on a release is appended to a log, the log no
/// longer asks for that release, and asks for all others as before; a marker of
/// another status changes nothing.
pub proof fn appended_marker_is_read_back(
    log: Seq<char>,
    last_byte: Option<u8>,
    text: Seq<char>,
    intent_id: Seq<char>,
    intent_hash: Seq<char>,
    status: Seq<char>,
    released: u64,
    detail: Option<Seq<char>>,
    replayed_ts: i64,
)
    requires
        is_torn(last_byte) == (log.len() > 0 && log.last() != '\n'),
        utf8_len(intent_id) == 16,
        utf8_len(intent_hash) == 64,
        intent_id.is_prefix_of(intent_hash),
        content_hash(
            replay_content(intent_id, intent_hash, status, released as int, detail, replayed_ts),
        ).len() == 64,
        is_json_of(
            text,
            replay_record(intent_id, intent_hash, status, released as int, detail, replayed_ts),
        ),
    ensures
        open_entries(log_entries(log + appended_text(last_byte, text))) == (if is_terminal_status(
            Some(status),
        ) {
            open_entries(log_entries(log)).filter(
                |e: LogEntry| !(e matches LogEntry::Queued(i) && i.intent_id == intent_id
                    && i.content_sha256 == intent_hash),
            )
        } else {
            open_entries(log_entries(log))
        }),
{
    replay_record_is_read_back(intent_id, intent_hash, status, released, detail, replayed_ts);
    let record = replay_record(
        intent_id,
        intent_hash,
        status,
        released as int,
        detail,
        replayed_ts,
    );
    appended_record_is_read(log, last_byte, text, record);
    marker_closes_release(log_entries(log), intent_id, intent_hash);
    nothing_changes_nothing(log_entries(log));
}

/// Whether a queued release carries the hash of its content, and an id that is the
/// start of it.
pub open spec fn is_identified(intent: IntentView) -> bool {
    &&& intent.kind == "release_file_reservations_intent"@
    &&& utf8_len(intent.intent_id) == 16
    &&& utf8_len(intent.content_sha256) == 64
    &&& intent.intent_id.is_prefix_of(intent.content_sha256)
}

/// Each release that a log still asks for is identified by the hash of its content.
pub proof fn open_releases_are_identified(log: Seq<char>, intent: IntentView)
    requires
        open_entries(log_entries(log)).contains(LogEntry::Queued(intent)),
    ensures
        is_identified(intent),
        !log_entries(log).contains(LogEntry::Done(intent.intent_id, intent.content_sha256)),
{
    let entries = log_entries(log);
    let open = |entry: LogEntry| is_open_entry(entry, entries);
    let entry = LogEntry::Queued(intent);
    filtered_is_there(entries, open, entry);
    let k = choose|k: int| 0 <= k < entries.len() && entries[k] == entry;
    assert(entries[k] == entry_of_line(lines(log)[k]));
}

pub(crate) proof fn filtered_is_there(
    entries: Seq<LogEntry>,
    keep: spec_fn(LogEntry) -> bool,
    entry: LogEntry,
)
    requires
        entries.filter(keep).contains(entry),
    ensures
        entries.contains(entry),
        keep(entry),
    decreases entries.len(),
{
    reveal(Seq::filter);
    if entries.len() > 0 {
        let head = entries.drop_last();
        let all = entries.filter(keep);
        let n = choose|n: int| 0 <= n < all.len() && all[n] == entry;
        if n < head.filter(keep).len() {
            assert(head.filter(keep)[n] == entry);
            filtered_is_there(head, keep, entry);
            let m = choose|m: int| 0 <= m < head.len() && head[m] == entry;
            assert(entries[m] == entry);
        } else {
            assert(entries[entries.len() - 1] == entry);
        }
    }
}

/// A record whose content hash is wrong counts for nothing.
pub proof fn wrong_hash_counts_for_nothing(record: JsonTree)
    requires
        !has_valid_intent_hash(record),
        !has_valid_replay_hash(record),
    ensures
        entry_of_record(record) == LogEntry::Nothing,
{
}

} // verus!
