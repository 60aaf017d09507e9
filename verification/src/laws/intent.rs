//! The log of queued releases: what a record says, what a line counts for, and what is
//! still to be done.

use crate::digest::content_hash;
use crate::intent::{
    appended_text, entry_of_line, entry_of_record, failure_tree, has_valid_intent_hash,
    has_valid_replay_hash, integers_of, intent_content, intent_of, intent_payload, is_intent,
    is_terminal_status, is_torn, log_entries, open_entries, optional_ids, optional_int_list,
    optional_text_list, optional_texts, paths_of, queued_entries, replay_content, replay_payload,
    replay_record, reservation_ids_of, strings_of, text_member, unreturned, LogEntry,
    QueuedReleaseIntent, ReleaseIntent,
};
use crate::json::{json_parsed, json_tree, tree_member, JsonTree};
use crate::laws::acquire::is_rising;
use crate::laws::errors::{lists_are_faithful, members_are_found};
use crate::text::{lines, texts, trimmed, utf8_len};
use vstd::prelude::*;

verus! {

/// Whether an object has the text `text` under `key`.
pub open spec fn tells_text(tree: JsonTree, key: Seq<char>, text: Seq<char>) -> bool {
    &&& tree is Object
    &&& tree->Object_0.contains_key(key)
    &&& tree->Object_0[key] == JsonTree::Text(text)
}

/// The text under a key is found just where there is one.
pub proof fn texts_are_found(tree: JsonTree, key: Seq<char>, text: Seq<char>)
    ensures
        text_member(tree, key) == Some(text) <==> tells_text(tree, key, text),
        text_member(tree, key) is None <==> !(tree is Object && tree->Object_0.contains_key(key)
            && tree->Object_0[key] is Text),
{
    members_are_found(tree, key);
}

/// Whether `payload` has just the members `keys` of `record`, with `null` for those that
/// are missing.
pub open spec fn covers_just(
    payload: JsonTree,
    record: Map<Seq<char>, JsonTree>,
    keys: Set<Seq<char>>,
) -> bool {
    &&& payload is Object
    &&& payload->Object_0.dom() == keys
    &&& forall|key: Seq<char>|
        #[trigger] keys.contains(key) ==> payload->Object_0[key] == (if record.contains_key(key) {
            record[key]
        } else {
            JsonTree::Null
        })
}

/// The members of a queued release that its hash covers.
pub open spec fn intent_keys() -> Set<Seq<char>> {
    set![
        "schema_version"@, "kind"@, "created_ts"@, "project_key"@, "agent_name"@, "paths"@,
        "file_reservation_ids"@, "failure"@,
    ]
}

/// The members of a marker that its hash covers.
pub open spec fn marker_keys() -> Set<Seq<char>> {
    set![
        "schema_version"@, "kind"@, "intent_id"@, "intent_content_sha256"@, "replayed_ts"@,
        "status"@, "released"@, "error_detail"@,
    ]
}

proof fn keys_differ()
    ensures
        "schema_version"@.len() == 14,
        "kind"@.len() == 4,
        "created_ts"@.len() == 10,
        "project_key"@.len() == 11,
        "agent_name"@.len() == 10,
        "created_ts"@[0] == 'c',
        "agent_name"@[0] == 'a',
        "paths"@.len() == 5,
        "file_reservation_ids"@.len() == 20,
        "failure"@.len() == 7,
        "intent_id"@.len() == 9,
        "content_sha256"@.len() == 14,
        "schema_version"@[0] == 's',
        "content_sha256"@[0] == 'c',
        "intent_content_sha256"@.len() == 21,
        "replayed_ts"@.len() == 11,
        "status"@.len() == 6,
        "released"@.len() == 8,
        "error_detail"@.len() == 12,
        "stage"@.len() == 5,
{
    reveal_strlit("schema_version");
    reveal_strlit("kind");
    reveal_strlit("created_ts");
    reveal_strlit("project_key");
    reveal_strlit("agent_name");
    reveal_strlit("paths");
    reveal_strlit("file_reservation_ids");
    reveal_strlit("failure");
    reveal_strlit("intent_id");
    reveal_strlit("content_sha256");
    reveal_strlit("intent_content_sha256");
    reveal_strlit("replayed_ts");
    reveal_strlit("status");
    reveal_strlit("released");
    reveal_strlit("error_detail");
    reveal_strlit("stage");
}

/// The hash of a record covers all that it says but its own hash and, in a queued
/// release, the id that is made from it.
pub proof fn hashes_cover_the_content(record: JsonTree)
    requires
        record is Object,
    ensures
        covers_just(intent_payload(record), record->Object_0, intent_keys()),
        covers_just(replay_payload(record), record->Object_0, marker_keys()),
{
    keys_differ();
    assert(intent_payload(record)->Object_0.dom() =~= intent_keys());
    assert(replay_payload(record)->Object_0.dom() =~= marker_keys());
    assert forall|key: Seq<char>| #[trigger] intent_keys().contains(key) implies intent_payload(
        record,
    )->Object_0[key] == (if record->Object_0.contains_key(key) {
        record->Object_0[key]
    } else {
        JsonTree::Null
    }) by {
        members_are_found(record, key);
    }
    assert forall|key: Seq<char>| #[trigger] marker_keys().contains(key) implies replay_payload(
        record,
    )->Object_0[key] == (if record->Object_0.contains_key(key) {
        record->Object_0[key]
    } else {
        JsonTree::Null
    }) by {
        members_are_found(record, key);
    }
}

/// Whether `id` is the start of `hash`, character by character, and both have the bytes
/// of an id and of a hash.
pub open spec fn is_id_of(id: Seq<char>, hash: Seq<char>) -> bool {
    &&& utf8_len(id) == 16
    &&& utf8_len(hash) == 64
    &&& id.len() <= hash.len()
    &&& forall|i: int| 0 <= i < id.len() ==> #[trigger] id[i] == hash[i]
}

/// A record of a queued release is sound just where the hash that it carries is that of
/// what it says and its id is the start of that; a marker, where its hash is that of what
/// it says and its release has an id and a hash.
pub proof fn sound_records_carry_their_hash(record: JsonTree)
    ensures
        has_valid_intent_hash(record) <==> exists|id: Seq<char>, hash: Seq<char>|
            {
                &&& #[trigger] tells_text(record, "intent_id"@, id)
                &&& #[trigger] tells_text(record, "content_sha256"@, hash)
                &&& hash == content_hash(intent_payload(record))
                &&& is_id_of(id, hash)
            },
        has_valid_replay_hash(record) <==> exists|id: Seq<char>, hash: Seq<char>, of: Seq<char>|
            {
                &&& #[trigger] tells_text(record, "intent_id"@, id)
                &&& #[trigger] tells_text(record, "content_sha256"@, hash)
                &&& #[trigger] tells_text(record, "intent_content_sha256"@, of)
                &&& hash == content_hash(replay_payload(record))
                &&& utf8_len(hash) == 64
                &&& is_id_of(id, of)
            },
{
    let id = text_member(record, "intent_id"@);
    let hash = text_member(record, "content_sha256"@);
    let of = text_member(record, "intent_content_sha256"@);
    texts_are_found(record, "intent_id"@, id->0);
    texts_are_found(record, "content_sha256"@, hash->0);
    texts_are_found(record, "intent_content_sha256"@, of->0);
    if has_valid_intent_hash(record) {
        assert(tells_text(record, "intent_id"@, id->0));
        assert(tells_text(record, "content_sha256"@, hash->0));
        assert(is_id_of(id->0, hash->0));
    }
    if has_valid_replay_hash(record) {
        assert(tells_text(record, "intent_id"@, id->0));
        assert(tells_text(record, "content_sha256"@, hash->0));
        assert(tells_text(record, "intent_content_sha256"@, of->0));
        assert(is_id_of(id->0, of->0));
    }
    if exists|id: Seq<char>, hash: Seq<char>|
        {
            &&& #[trigger] tells_text(record, "intent_id"@, id)
            &&& #[trigger] tells_text(record, "content_sha256"@, hash)
            &&& hash == content_hash(intent_payload(record))
            &&& is_id_of(id, hash)
        } {
        assert(id->0.is_prefix_of(hash->0)) by {
            assert(id->0 =~= hash->0.subrange(0, id->0.len() as int));
        }
    }
    if exists|id: Seq<char>, hash: Seq<char>, of: Seq<char>|
        {
            &&& #[trigger] tells_text(record, "intent_id"@, id)
            &&& #[trigger] tells_text(record, "content_sha256"@, hash)
            &&& #[trigger] tells_text(record, "intent_content_sha256"@, of)
            &&& hash == content_hash(replay_payload(record))
            &&& utf8_len(hash) == 64
            &&& is_id_of(id, of)
        } {
        assert(id->0.is_prefix_of(of->0)) by {
            assert(id->0 =~= of->0.subrange(0, id->0.len() as int));
        }
    }
}

/// A list of strings is read where every item is one, and a list of integers where every
/// item is one of 64 bits; one item that is not makes the whole list unreadable.
pub proof fn lists_are_read_whole(items: Seq<JsonTree>)
    ensures
        strings_of(items) is Some <==> forall|i: int|
            0 <= i < items.len() ==> (#[trigger] items[i]) is Text,
        strings_of(items) matches Some(list) ==> {
            &&& list.len() == items.len()
            &&& forall|i: int|
                #![trigger items[i]]
                #![trigger list[i]]
                0 <= i < items.len() ==> items[i] == JsonTree::Text(list[i])
        },
        integers_of(items) is Some <==> forall|i: int|
            0 <= i < items.len() ==> (#[trigger] items[i]) is Int && -0x8000_0000_0000_0000
                <= items[i]->Int_0 <= 0x7fff_ffff_ffff_ffff,
        integers_of(items) matches Some(list) ==> {
            &&& list.len() == items.len()
            &&& forall|i: int|
                #![trigger items[i]]
                #![trigger list[i]]
                0 <= i < items.len() ==> items[i] == JsonTree::Int(list[i] as int)
        },
{
    if forall|i: int|
        0 <= i < items.len() ==> (#[trigger] items[i]) is Int && -0x8000_0000_0000_0000
            <= items[i]->Int_0 <= 0x7fff_ffff_ffff_ffff {
        assert forall|i: int| 0 <= i < items.len() implies crate::intent::is_small_int(
            #[trigger] items[i],
        ) by {}
    }
    if let Some(list) = integers_of(items) {
        assert forall|i: int|
            #![trigger items[i]]
            #![trigger list[i]]
            0 <= i < items.len() implies items[i] == JsonTree::Int(list[i] as int) by {
            assert(crate::intent::is_small_int(items[i]));
        }
    }
    if integers_of(items) is Some {
        assert forall|i: int| 0 <= i < items.len() implies (#[trigger] items[i]) is Int
            && -0x8000_0000_0000_0000 <= items[i]->Int_0 <= 0x7fff_ffff_ffff_ffff by {
            assert(crate::intent::is_small_int(items[i]));
        }
    }
}

/// A filter of a queued release is nothing where it is missing or `null`, what its list
/// says where that can be read, and unreadable else.
pub proof fn filters_are_read_whole(member: Option<JsonTree>)
    ensures
        member is None || member->0 is Null ==> paths_of(member) == Some(
            None::<Seq<Seq<char>>>,
        ) && reservation_ids_of(member) == Some(None::<Seq<i64>>),
        member is Some && member->0 is List ==> {
            let items = member->0->List_0;
            &&& strings_of(items) is Some ==> paths_of(member) == Some(strings_of(items))
            &&& strings_of(items) is None ==> paths_of(member) is None
            &&& integers_of(items) is Some ==> reservation_ids_of(member) == Some(
                integers_of(items),
            )
            &&& integers_of(items) is None ==> reservation_ids_of(member) is None
        },
        member is Some && member->0 !is Null && member->0 !is List ==> paths_of(member) is None
            && reservation_ids_of(member) is None,
{
}

/// A release is read from a record just where all its texts are there and its filters
/// can be read, and says what they say.
pub proof fn releases_are_read_whole(record: JsonTree)
    ensures
        intent_of(record) is Some <==> {
            &&& text_member(record, "kind"@) is Some
            &&& text_member(record, "intent_id"@) is Some
            &&& text_member(record, "content_sha256"@) is Some
            &&& text_member(record, "project_key"@) is Some
            &&& text_member(record, "agent_name"@) is Some
            &&& paths_of(tree_member(record, "paths"@)) is Some
            &&& reservation_ids_of(tree_member(record, "file_reservation_ids"@)) is Some
        },
        intent_of(record) matches Some(intent) ==> {
            &&& tells_text(record, "kind"@, intent.kind)
            &&& tells_text(record, "intent_id"@, intent.intent_id)
            &&& tells_text(record, "content_sha256"@, intent.content_sha256)
            &&& tells_text(record, "project_key"@, intent.project_key)
            &&& tells_text(record, "agent_name"@, intent.agent_name)
            &&& paths_of(tree_member(record, "paths"@)) == Some(intent.paths)
            &&& reservation_ids_of(tree_member(record, "file_reservation_ids"@)) == Some(
                intent.file_reservation_ids,
            )
        },
{
    if let Some(intent) = intent_of(record) {
        texts_are_found(record, "kind"@, intent.kind);
        texts_are_found(record, "intent_id"@, intent.intent_id);
        texts_are_found(record, "content_sha256"@, intent.content_sha256);
        texts_are_found(record, "project_key"@, intent.project_key);
        texts_are_found(record, "agent_name"@, intent.agent_name);
    }
}

/// A record counts as a marker that ends a release just where it is one, of a replay
/// that was done or given up, and its hash is right; and as a queued release just where
/// it is one, its hash is right and it can be read. Every other one counts for nothing.
pub proof fn records_count_for_what_they_are(record: JsonTree)
    ensures
        ({
            let marker = tells_text(record, "kind"@, "release_file_reservations_replay"@);
            let queued = tells_text(record, "kind"@, "release_file_reservations_intent"@);
            let ends = tells_text(record, "status"@, "replayed"@) || tells_text(
                record,
                "status"@,
                "abandoned"@,
            );
            &&& marker && ends && has_valid_replay_hash(record) <==> entry_of_record(
                record,
            ) is Done
            &&& entry_of_record(record) matches LogEntry::Done(id, hash) ==> tells_text(
                record,
                "intent_id"@,
                id,
            ) && tells_text(record, "intent_content_sha256"@, hash)
            &&& queued && has_valid_intent_hash(record) && intent_of(record) is Some
                <==> entry_of_record(record) is Queued
            &&& entry_of_record(record) matches LogEntry::Queued(intent) ==> intent_of(record)
                == Some(intent)
        }),
{
    texts_are_found(record, "kind"@, "release_file_reservations_replay"@);
    texts_are_found(record, "kind"@, "release_file_reservations_intent"@);
    texts_are_found(record, "status"@, "replayed"@);
    texts_are_found(record, "status"@, "abandoned"@);
    texts_are_found(record, "intent_id"@, text_member(record, "intent_id"@)->0);
    texts_are_found(
        record,
        "intent_content_sha256"@,
        text_member(record, "intent_content_sha256"@)->0,
    );
    reveal_strlit("release_file_reservations_replay");
    reveal_strlit("release_file_reservations_intent");
    assert("release_file_reservations_replay"@[26] == 'r');
    assert("release_file_reservations_intent"@[26] == 'i');
}

/// A marker ends the work on its release just where the replay was done or given up.
pub proof fn only_two_statuses_end_the_work(status: Seq<char>)
    ensures
        is_terminal_status(Some(status)) <==> status == "replayed"@ || status == "abandoned"@,
        !is_terminal_status(None),
{
}

/// All carriage returns at the end of a line are left out, and nothing else.
pub proof fn returns_are_left_out(line: Seq<char>)
    ensures
        unreturned(line).is_prefix_of(line),
        unreturned(line).len() > 0 ==> unreturned(line).last() != '\r',
        forall|i: int| unreturned(line).len() <= i < line.len() ==> #[trigger] line[i] == '\r',
    decreases line.len(),
{
    if line.len() > 0 && line.last() == '\r' {
        let head = line.drop_last();
        returns_are_left_out(head);
        assert forall|i: int| unreturned(line).len() <= i < line.len() implies #[trigger] line[i]
            == '\r' by {
            if i < head.len() {
                assert(head[i] == line[i]);
            }
        }
    }
}

/// Each line of a log counts for what its record is, in order; a blank line, and one that
/// is no JSON, counts for nothing.
pub proof fn every_line_counts(log: Seq<char>)
    ensures
        log_entries(log).len() == lines(log).len(),
        forall|i: int|
            #![trigger log_entries(log)[i]]
            #![trigger lines(log)[i]]
            0 <= i < lines(log).len() ==> log_entries(log)[i] == entry_of_line(lines(log)[i]),
        forall|line: Seq<char>|
            trimmed(unreturned(line)).len() == 0 || json_parsed(unreturned(line)) is None
                ==> #[trigger] entry_of_line(line) == LogEntry::Nothing,
        forall|line: Seq<char>|
            trimmed(unreturned(line)).len() > 0 && json_parsed(unreturned(line)) is Some
                ==> #[trigger] entry_of_line(line) == entry_of_record(
                json_parsed(unreturned(line))->0,
            ),
{
}

/// Whether the entry at `k` is a release that no marker anywhere ends.
pub open spec fn is_still_open(entries: Seq<LogEntry>, k: int) -> bool {
    &&& entries[k] is Queued
    &&& forall|m: int|
        0 <= m < entries.len() ==> #[trigger] entries[m] != LogEntry::Done(
            entries[k]->Queued_0.intent_id,
            entries[k]->Queued_0.content_sha256,
        )
}

proof fn filter_positions(
    entries: Seq<LogEntry>,
    keep: spec_fn(LogEntry) -> bool,
) -> (at: Seq<int>)
    ensures
        at.len() == entries.filter(keep).len(),
        is_rising(at),
        forall|i: int|
            #![trigger at[i]]
            0 <= i < at.len() ==> 0 <= at[i] < entries.len() && entries.filter(keep)[i]
                == entries[at[i]],
        forall|k: int|
            #![trigger entries[k]]
            0 <= k < entries.len() ==> (at.contains(k) <==> keep(entries[k])),
    decreases entries.len(),
{
    reveal(Seq::filter);
    if entries.len() == 0 {
        Seq::empty()
    } else {
        let head = entries.drop_last();
        let last = entries.len() - 1;
        let before = filter_positions(head, keep);
        let at = if keep(entries[last]) {
            before.push(last)
        } else {
            before
        };
        assert forall|k: int|
            #![trigger entries[k]]
            0 <= k < entries.len() implies (at.contains(k) <==> keep(entries[k])) by {
            if k < last {
                assert(head[k] == entries[k]);
                if before.contains(k) {
                    let i = choose|i: int| 0 <= i < before.len() && before[i] == k;
                    assert(at[i] == k);
                }
                if at.contains(k) {
                    let i = choose|i: int| 0 <= i < at.len() && at[i] == k;
                    assert(before[i] == k);
                }
            } else if keep(entries[last]) {
                assert(at[at.len() - 1] == last);
            } else if at.contains(k) {
                let i = choose|i: int| 0 <= i < at.len() && at[i] == k;
                assert(before[i] < last);
            }
        }
        assert forall|i: int|
            #![trigger at[i]]
            0 <= i < at.len() implies 0 <= at[i] < entries.len() && entries.filter(keep)[i]
            == entries[at[i]] by {
            if i < before.len() {
                assert(at[i] == before[i]);
                assert(head[before[i]] == entries[before[i]]);
            }
        }
        at
    }
}

/// What a log still asks for are all the releases in it that no marker ends, wherever
/// that stands, in order. The result gives their positions.
pub proof fn every_open_release_is_asked_for(entries: Seq<LogEntry>) -> (at: Seq<int>)
    ensures
        at.len() == open_entries(entries).len(),
        is_rising(at),
        forall|i: int|
            #![trigger at[i]]
            0 <= i < at.len() ==> 0 <= at[i] < entries.len() && open_entries(entries)[i]
                == entries[at[i]],
        forall|k: int|
            0 <= k < entries.len() ==> (at.contains(k) <==> #[trigger] is_still_open(entries, k)),
{
    let keep = |entry: LogEntry| crate::intent::is_open_entry(entry, entries);
    let at = filter_positions(entries, keep);
    assert forall|k: int| 0 <= k < entries.len() implies (at.contains(k)
        <==> #[trigger] is_still_open(entries, k)) by {
        assert(at.contains(k) <==> keep(entries[k]));
        if let LogEntry::Queued(intent) = entries[k] {
            let done = LogEntry::Done(intent.intent_id, intent.content_sha256);
            if entries.contains(done) {
                let m = choose|m: int| 0 <= m < entries.len() && entries[m] == done;
                assert(entries[m] == done);
            } else {
                assert forall|m: int| 0 <= m < entries.len() implies #[trigger] entries[m]
                    != done by {
                    if entries[m] == done {
                        assert(entries.contains(done));
                    }
                }
            }
        }
    }
    at
}

/// The releases that are read are those that are asked for, one by one, with all that
/// they say.
pub proof fn read_releases_are_faithful(intents: Seq<QueuedReleaseIntent>)
    ensures
        queued_entries(intents).len() == intents.len(),
        forall|i: int|
            #![trigger queued_entries(intents)[i]]
            #![trigger intents[i]]
            0 <= i < intents.len() ==> {
                let entry = queued_entries(intents)[i];
                &&& entry is Queued
                &&& entry->Queued_0.kind == intents[i].kind@
                &&& entry->Queued_0.intent_id == intents[i].intent_id@
                &&& entry->Queued_0.content_sha256 == intents[i].content_sha256@
                &&& entry->Queued_0.project_key == intents[i].project_key@
                &&& entry->Queued_0.agent_name == intents[i].agent_name@
                &&& entry->Queued_0.paths == optional_texts(intents[i].paths)
                &&& entry->Queued_0.file_reservation_ids == optional_ids(
                    intents[i].file_reservation_ids,
                )
            },
{
}

/// A filter is written and kept as it is, or as nothing.
pub proof fn filters_are_kept(paths: Option<Vec<String>>, ids: Option<Vec<i64>>)
    ensures
        paths is None ==> optional_texts(paths) is None,
        paths matches Some(list) ==> {
            &&& optional_texts(paths) is Some
            &&& optional_texts(paths)->0.len() == list@.len()
            &&& forall|i: int|
                #![trigger list@[i]]
                0 <= i < list@.len() ==> optional_texts(paths)->0[i] == list@[i]@
        },
        ids is None ==> optional_ids(ids) is None,
        ids matches Some(list) ==> optional_ids(ids) == Some(list@),
        optional_text_list(None) == JsonTree::Null,
        optional_int_list(None) == JsonTree::Null,
{
}

/// Filters are written as lists of the same items.
pub proof fn filters_are_written_whole(paths: Seq<Seq<char>>, ids: Seq<i64>)
    ensures
        optional_text_list(Some(paths)) is List,
        optional_text_list(Some(paths))->List_0.len() == paths.len(),
        forall|i: int|
            #![trigger paths[i]]
            0 <= i < paths.len() ==> optional_text_list(Some(paths))->List_0[i]
                == JsonTree::Text(paths[i]),
        optional_int_list(Some(ids)) is List,
        optional_int_list(Some(ids))->List_0.len() == ids.len(),
        forall|i: int|
            #![trigger ids[i]]
            0 <= i < ids.len() ==> optional_int_list(Some(ids))->List_0[i] == JsonTree::Int(
                ids[i] as int,
            ),
{
    lists_are_faithful(paths, ids, Seq::empty(), Seq::empty());
}

/// The record of a queued release says who asked for what, when and why it could not be
/// done; its hash is that of all this, and its id the start of the hash.
pub proof fn queued_record_says_it_all(
    intent: ReleaseIntent,
    project_key: Seq<char>,
    agent_name: Seq<char>,
    paths: Option<Seq<Seq<char>>>,
    ids: Option<Seq<i64>>,
    stage: Seq<char>,
    detail: Seq<char>,
    created_ts: i64,
)
    requires
        is_intent(intent, project_key, agent_name, paths, ids, stage, detail, created_ts),
        intent.content_sha256@.len() == 64,
    ensures
        json_tree(intent.record) is Object,
        ({
            let record = json_tree(intent.record)->Object_0;
            &&& record.dom() == intent_keys().insert("intent_id"@).insert("content_sha256"@)
            &&& record["schema_version"@] == JsonTree::Int(1)
            &&& record["kind"@] == JsonTree::Text("release_file_reservations_intent"@)
            &&& record["intent_id"@] == JsonTree::Text(intent.intent_id@)
            &&& record["content_sha256"@] == JsonTree::Text(intent.content_sha256@)
            &&& record["created_ts"@] == JsonTree::Int(created_ts as int)
            &&& record["project_key"@] == JsonTree::Text(project_key)
            &&& record["agent_name"@] == JsonTree::Text(agent_name)
            &&& record["paths"@] == optional_text_list(paths)
            &&& record["file_reservation_ids"@] == optional_int_list(ids)
            &&& record["failure"@] is Object
            &&& record["failure"@]->Object_0.dom() == set!["stage"@, "error_detail"@]
            &&& record["failure"@]->Object_0["stage"@] == JsonTree::Text(stage)
            &&& record["failure"@]->Object_0["error_detail"@] == JsonTree::Text(detail)
        }),
        intent.content_sha256@ == content_hash(intent_payload(json_tree(intent.record))),
        intent.intent_id@.len() == 16,
        forall|i: int|
            0 <= i < 16 ==> #[trigger] intent.intent_id@[i] == intent.content_sha256@[i],
{
    keys_differ();
    let record = json_tree(intent.record);
    let members = record->Object_0;
    assert(members.dom() =~= intent_keys().insert("intent_id"@).insert("content_sha256"@));
    assert(failure_tree(stage, detail)->Object_0.dom() =~= set!["stage"@, "error_detail"@]);
    assert(intent_payload(record)->Object_0 =~= intent_content(
        project_key,
        agent_name,
        paths,
        ids,
        stage,
        detail,
        created_ts,
    )->Object_0);
}

/// A marker says of which release it is, how its replay ended, when, what was released
/// and why not; its hash is that of all this.
pub proof fn marker_says_it_all(
    intent_id: Seq<char>,
    intent_hash: Seq<char>,
    status: Seq<char>,
    released: int,
    detail: Option<Seq<char>>,
    replayed_ts: i64,
)
    ensures
        ({
            let marker = replay_record(
                intent_id,
                intent_hash,
                status,
                released,
                detail,
                replayed_ts,
            );
            let record = marker->Object_0;
            &&& marker is Object
            &&& record.dom() == marker_keys().insert("content_sha256"@)
            &&& record["schema_version"@] == JsonTree::Int(1)
            &&& record["kind"@] == JsonTree::Text("release_file_reservations_replay"@)
            &&& record["intent_id"@] == JsonTree::Text(intent_id)
            &&& record["intent_content_sha256"@] == JsonTree::Text(intent_hash)
            &&& record["replayed_ts"@] == JsonTree::Int(replayed_ts as int)
            &&& record["status"@] == JsonTree::Text(status)
            &&& record["released"@] == JsonTree::Int(released)
            &&& detail matches Some(text) ==> record["error_detail"@] == JsonTree::Text(text)
            &&& detail is None ==> record["error_detail"@] == JsonTree::Null
            &&& record["content_sha256"@] == JsonTree::Text(content_hash(replay_payload(marker)))
        }),
{
    keys_differ();
    let marker = replay_record(intent_id, intent_hash, status, released, detail, replayed_ts);
    assert(marker->Object_0.dom() =~= marker_keys().insert("content_sha256"@));
    assert(replay_payload(marker)->Object_0 =~= replay_content(
        intent_id,
        intent_hash,
        status,
        released,
        detail,
        replayed_ts,
    )->Object_0);
}

/// A log broke off in the middle of a line where it does not end in a line feed. What is
/// appended to it ends in one, and starts with one just there.
pub proof fn appended_text_is_a_line(last_byte: Option<u8>, line: Seq<char>)
    ensures
        is_torn(last_byte) <==> last_byte is Some && last_byte->0 != 0x0a,
        appended_text(last_byte, line).last() == '\n',
        !is_torn(last_byte) ==> appended_text(last_byte, line).drop_last() == line,
        is_torn(last_byte) ==> appended_text(last_byte, line)[0] == '\n' && appended_text(
            last_byte,
            line,
        ).drop_last().drop_first() == line,
{
    reveal_strlit("\n");
    let text = appended_text(last_byte, line);
    if is_torn(last_byte) {
        assert(text.drop_last().drop_first() =~= line);
    } else {
        assert(text.drop_last() =~= line);
    }
}

} // verus!
