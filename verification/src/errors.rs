//! The errors that the tools answer with.

use crate::json::{
    json_bool, json_is_object, json_object, json_optional_text, json_text, json_texts, json_tree,
    json_as_str, json_index, optional_text, optional_view, text_list, tree_index, with, JsonTree,
};
use crate::model::{DbErrorKind, DbFailure, DbOutcome, McpError, McpErrorCode};
use crate::text::{same_text, texts};
use serde_json::Value;
use vstd::prelude::*;

verus! {

/// The data of a tool error: its type, its message, whether the caller can
/// recover from it, and what else there is to say.
pub open spec fn envelope(
    kind: Seq<char>,
    message: Seq<char>,
    recoverable: bool,
    data: JsonTree,
) -> JsonTree {
    JsonTree::Object(
        map![
            "error"@ => JsonTree::Object(
                map![
                    "type"@ => JsonTree::Text(kind),
                    "message"@ => JsonTree::Text(message),
                    "recoverable"@ => JsonTree::Bool(recoverable),
                    "data"@ => data,
                ],
            ),
        ],
    )
}

/// Whether `error` is the tool error of this type, message and data.
pub open spec fn is_tool_error(
    error: McpError,
    kind: Seq<char>,
    message: Seq<char>,
    recoverable: bool,
    data: JsonTree,
) -> bool {
    &&& error.code == McpErrorCode::ToolExecutionError
    &&& error.message@ == message
    &&& error.data is Some
    &&& json_tree(error.data->0) == envelope(kind, message, recoverable, data)
}

/// The tool error of this type, message and data.
pub fn legacy_tool_error(kind: &str, message: &str, recoverable: bool, data: Value) -> (r: McpError)
    ensures
        is_tool_error(r, kind@, message@, recoverable, json_tree(data)),
{
    let inner = with(json_object(), "type", json_text(kind));
    let inner = with(inner, "message", json_text(message));
    let inner = with(inner, "recoverable", json_bool(recoverable));
    let inner = with(inner, "data", data);
    McpError {
        code: McpErrorCode::ToolExecutionError,
        message: message.to_owned(),
        data: Some(with(json_object(), "error", inner)),
    }
}

/// Whether `error` is the error of this code and message, without data.
pub open spec fn is_plain_error(error: McpError, code: McpErrorCode, message: Seq<char>) -> bool {
    &&& error.code == code
    &&& error.message@ == message
    &&& error.data is None
}

/// The error of this code and message, without data.
pub fn plain_error(code: McpErrorCode, message: String) -> (r: McpError)
    ensures
        is_plain_error(r, code, message@),
{
    McpError { code, message, data: None }
}

/// `{"reason": reason}`.
pub open spec fn reason_tree(reason: Seq<char>) -> JsonTree {
    JsonTree::Object(map!["reason"@ => JsonTree::Text(reason)])
}

/// `{"reason": reason}`.
pub fn reason_data(reason: &str) -> (r: Value)
    ensures
        json_tree(r) == reason_tree(reason@),
{
    with(json_object(), "reason", json_text(reason))
}

/// `{"fail_closed": true, "do_not_edit": paths}`.
pub open spec fn fail_closed_tree(paths: Seq<String>) -> JsonTree {
    JsonTree::Object(
        map![
            "fail_closed"@ => JsonTree::Bool(true),
            "do_not_edit"@ => text_list(texts(paths)),
        ],
    )
}

/// `{"fail_closed": true, "do_not_edit": paths}`.
pub fn fail_closed_data(paths: &Vec<String>) -> (r: Value)
    ensures
        json_tree(r) == fail_closed_tree(paths@),
{
    let data = with(json_object(), "fail_closed", json_bool(true));
    with(data, "do_not_edit", json_texts(paths))
}

/// The type of a tool error, where its data says one.
pub open spec fn error_type(error: McpError) -> Option<Seq<char>> {
    match error.data {
        Some(data) => match tree_index(tree_index(json_tree(data), "error"@), "type"@) {
            JsonTree::Text(kind) => Some(kind),
            _ => None,
        },
        None => None,
    }
}

/// Whether an error of this type says that the database could not be used.
pub open spec fn is_database_type(kind: Seq<char>) -> bool {
    ||| kind == "DATABASE_CORRUPTION"@
    ||| kind == "DATABASE_ERROR"@
    ||| kind == "DATABASE_POOL_EXHAUSTED"@
    ||| kind == "RESOURCE_BUSY"@
}

/// Whether `error` says that the database could not be used, so that a release
/// is to be queued.
pub open spec fn is_database_error(error: McpError) -> bool {
    match error_type(error) {
        Some(kind) => is_database_type(kind),
        None => false,
    }
}

/// Whether `error` says that the database could not be used, so that a release
/// is to be queued.
pub fn mcp_error_supports_release_intent(error: &McpError) -> (r: bool)
    ensures
        r == is_database_error(*error),
{
    match &error.data {
        Some(data) => {
            let inner = json_index(data, "error");
            let kind = json_index(&inner, "type");
            match json_as_str(&kind) {
                Some(text) => {
                    same_text(text, "DATABASE_CORRUPTION") || same_text(text, "DATABASE_ERROR")
                        || same_text(text, "DATABASE_POOL_EXHAUSTED") || same_text(
                        text,
                        "RESOURCE_BUSY",
                    )
                },
                None => false,
            }
        },
        None => false,
    }
}

/// Whether a database error of this kind lets a release be queued.
pub open spec fn is_unavailable(kind: DbErrorKind) -> bool {
    kind != DbErrorKind::NotFound && kind != DbErrorKind::Other
}

/// Whether a database error of this kind lets a release be queued.
pub fn db_error_supports_release_intent(failure: &DbFailure) -> (r: bool)
    ensures
        r == is_unavailable(failure.kind),
{
    match failure.kind {
        DbErrorKind::Pool
        | DbErrorKind::Sqlite
        | DbErrorKind::Schema
        | DbErrorKind::ResourceBusy
        | DbErrorKind::PoolExhausted
        | DbErrorKind::CircuitBreakerOpen
        | DbErrorKind::IntegrityCorruption => true,
        DbErrorKind::NotFound | DbErrorKind::Other => false,
    }
}

/// What the caller is told to do after an acquire that failed.
pub open spec fn acquire_guidance(blocks_edits: bool) -> Seq<char> {
    if blocks_edits {
        "Reservation acquire FAILED CLOSED: current holders are unverifiable because the reservation index could not be read. Do NOT edit the requested paths until the database is recovered."@
    } else {
        "Reservation acquire did NOT grant: the reservation subsystem is temporarily unavailable (busy/locked). The paths were left unreserved; retry after the condition clears."@
    }
}

/// The paths that must not be edited after an acquire that failed: all that were
/// asked for, or none.
pub open spec fn blocked_paths(requested: Seq<String>, blocks_edits: bool) -> Seq<Seq<char>> {
    if blocks_edits {
        texts(requested)
    } else {
        Seq::empty()
    }
}

/// What an acquire that failed says of itself.
pub open spec fn acquire_context(
    requested: Seq<String>,
    operation: Seq<char>,
    failure: DbFailure,
) -> JsonTree {
    JsonTree::Object(
        map![
            "operation"@ => JsonTree::Text(operation),
            "cause"@ => JsonTree::Text(failure.class@),
            "fail_closed"@ => JsonTree::Bool(true),
            "blocks_edits"@ => JsonTree::Bool(failure.blocks_edits),
            "safe_to_continue_read_only"@ => JsonTree::Bool(failure.safe_to_continue_read_only),
            "recommended_command"@ => optional_text(optional_view(failure.recommended_command)),
            "requested_paths"@ => text_list(texts(requested)),
            "do_not_edit"@ => text_list(blocked_paths(requested, failure.blocks_edits)),
            "guidance"@ => JsonTree::Text(acquire_guidance(failure.blocks_edits)),
        ],
    )
}

/// `tree` with `context` as the member `reservation_acquire` of its
/// `error.data`, where that is an object.
pub open spec fn grafted(tree: JsonTree, context: JsonTree) -> JsonTree {
    let inner = tree_index(tree, "error"@);
    let data = tree_index(inner, "data"@);
    if data is Object {
        JsonTree::Object(
            tree->Object_0.insert(
                "error"@,
                JsonTree::Object(
                    inner->Object_0.insert(
                        "data"@,
                        JsonTree::Object(data->Object_0.insert("reservation_acquire"@, context)),
                    ),
                ),
            ),
        )
    } else {
        tree
    }
}

/// Whether `error` is what an acquire answers when the database call `failure`
/// ended it: the error that is reported for the database error, with the context
/// of the acquire in its data.
pub open spec fn is_acquire_failure(
    error: McpError,
    requested: Seq<String>,
    operation: Seq<char>,
    failure: DbFailure,
) -> bool {
    &&& error.code == failure.error.code
    &&& error.message == failure.error.message
    &&& error.data is Some <==> failure.error.data is Some
    &&& error.data is Some ==> json_tree(error.data->0) == grafted(
        json_tree(failure.error.data->0),
        acquire_context(requested, operation, failure),
    )
}

fn graft(tree: Value, context: Value) -> (r: Value)
    ensures
        json_tree(r) == grafted(json_tree(tree), json_tree(context)),
{
    let inner = json_index(&tree, "error");
    let data = json_index(&inner, "data");
    if json_is_object(&data) {
        let data = with(data, "reservation_acquire", context);
        let inner = with(inner, "data", data);
        with(tree, "error", inner)
    } else {
        tree
    }
}

/// The fail-closed error of an acquire that the database error `failure` ended.
pub fn reservation_acquire_failure(
    requested: &Vec<String>,
    operation: &str,
    failure: DbFailure,
) -> (r: McpError)
    ensures
        is_acquire_failure(r, requested@, operation@, failure),
{
    let nothing: Vec<String> = Vec::new();
    let blocked = if failure.blocks_edits {
        json_texts(requested)
    } else {
        json_texts(&nothing)
    };
    proof {
        assert(texts(nothing@) =~= Seq::empty());
    }
    let guidance: &str = if failure.blocks_edits {
        "Reservation acquire FAILED CLOSED: current holders are unverifiable because the reservation index could not be read. Do NOT edit the requested paths until the database is recovered."
    } else {
        "Reservation acquire did NOT grant: the reservation subsystem is temporarily unavailable (busy/locked). The paths were left unreserved; retry after the condition clears."
    };
    let context = with(json_object(), "operation", json_text(operation));
    let context = with(context, "cause", json_text(failure.class.as_str()));
    let context = with(context, "fail_closed", json_bool(true));
    let context = with(context, "blocks_edits", json_bool(failure.blocks_edits));
    let context = with(
        context,
        "safe_to_continue_read_only",
        json_bool(failure.safe_to_continue_read_only),
    );
    let context = with(
        context,
        "recommended_command",
        json_optional_text(&failure.recommended_command),
    );
    let context = with(context, "requested_paths", json_texts(requested));
    let context = with(context, "do_not_edit", blocked);
    let context = with(context, "guidance", json_text(guidance));
    let data = match failure.error.data {
        Some(tree) => Some(graft(tree, context)),
        None => None,
    };
    McpError { code: failure.error.code, message: failure.error.message, data }
}

/// The error that is reported for a database call that did not end well.
pub open spec fn outcome_error<T>(out: DbOutcome<T>) -> McpError {
    match out {
        DbOutcome::Done(_) => arbitrary(),
        DbOutcome::Failed(failure) => failure.error,
        DbOutcome::Cancelled { error, .. } => error,
        DbOutcome::Panicked { error, .. } => error,
    }
}

/// The result of a database call, or the error that is reported for it.
pub fn db_outcome_to_mcp_result<T>(out: DbOutcome<T>) -> (r: Result<T, McpError>)
    ensures
        match out {
            DbOutcome::Done(value) => r == Ok::<T, McpError>(value),
            _ => r == Err::<T, McpError>(outcome_error(out)),
        },
{
    match out {
        DbOutcome::Done(value) => Ok(value),
        DbOutcome::Failed(failure) => Err(failure.error),
        DbOutcome::Cancelled { error, .. } => Err(error),
        DbOutcome::Panicked { error, .. } => Err(error),
    }
}

/// Whether `r` is what an acquire makes of the database outcome `out`.
pub open spec fn is_acquire_outcome<T>(
    r: Result<T, McpError>,
    out: DbOutcome<T>,
    requested: Seq<String>,
    operation: Seq<char>,
) -> bool {
    match out {
        DbOutcome::Done(value) => r == Ok::<T, McpError>(value),
        DbOutcome::Failed(failure) => r is Err && is_acquire_failure(
            r->Err_0,
            requested,
            operation,
            failure,
        ),
        _ => r == Err::<T, McpError>(outcome_error(out)),
    }
}

/// The result of a database call of an acquire; a database error becomes the
/// fail-closed error of the acquire.
pub fn acquire_outcome<T>(out: DbOutcome<T>, requested: &Vec<String>, operation: &str) -> (r: Result<
    T,
    McpError,
>)
    ensures
        is_acquire_outcome(r, out, requested@, operation@),
{
    match out {
        DbOutcome::Failed(failure) => Err(
            reservation_acquire_failure(requested, operation, failure),
        ),
        other => db_outcome_to_mcp_result(other),
    }
}

/// The data of a tool error holds what it was made of.
pub proof fn envelope_members()
    ensures
        forall|kind: Seq<char>, message: Seq<char>, recoverable: bool, data: JsonTree|
            {
                let inner = tree_index(
                    #[trigger] envelope(kind, message, recoverable, data),
                    "error"@,
                );
                &&& tree_index(inner, "type"@) == JsonTree::Text(kind)
                &&& tree_index(inner, "message"@) == JsonTree::Text(message)
                &&& tree_index(inner, "recoverable"@) == JsonTree::Bool(recoverable)
                &&& tree_index(inner, "data"@) == data
            },
{
    reveal_strlit("type");
    reveal_strlit("message");
    reveal_strlit("recoverable");
    reveal_strlit("data");
    assert("type"@.len() == 4);
    assert("message"@.len() == 7);
    assert("recoverable"@.len() == 11);
    assert("type"@[0] == 't');
    assert("data"@[0] == 'd');
}

/// A tool error names its type, and carries its data.
pub proof fn tool_error_names_its_type(
    error: McpError,
    kind: Seq<char>,
    message: Seq<char>,
    recoverable: bool,
    data: JsonTree,
)
    requires
        is_tool_error(error, kind, message, recoverable, data),
    ensures
        error_type(error) == Some(kind),
        is_database_error(error) == is_database_type(kind),
        tree_index(tree_index(json_tree(error.data->0), "error"@), "data"@) == data,
{
    envelope_members();
}

/// The context of an acquire that failed lists every requested path as one that
/// must not be edited, or none, as the failure blocks edits or does not; and a
/// database error whose own data is a tool error keeps its type.
pub proof fn acquire_failure_fails_closed(
    error: McpError,
    requested: Seq<String>,
    operation: Seq<char>,
    failure: DbFailure,
    kind: Seq<char>,
    message: Seq<char>,
    recoverable: bool,
    data: Map<Seq<char>, JsonTree>,
)
    requires
        is_acquire_failure(error, requested, operation, failure),
        is_tool_error(failure.error, kind, message, recoverable, JsonTree::Object(data)),
    ensures
        error_type(error) == Some(kind),
        ({
            let inner = tree_index(json_tree(error.data->0), "error"@);
            let context = tree_index(tree_index(inner, "data"@), "reservation_acquire"@);
            &&& tree_index(context, "fail_closed"@) == JsonTree::Bool(true)
            &&& tree_index(context, "requested_paths"@) == text_list(texts(requested))
            &&& tree_index(context, "do_not_edit"@) == (if failure.blocks_edits {
                text_list(texts(requested))
            } else {
                text_list(Seq::empty())
            })
        }),
{
    reveal_strlit("type");
    reveal_strlit("message");
    reveal_strlit("recoverable");
    reveal_strlit("data");
    assert("type"@.len() == 4);
    assert("message"@.len() == 7);
    assert("recoverable"@.len() == 11);
    assert("type"@[0] == 't');
    assert("data"@[0] == 'd');
    tool_error_names_its_type(failure.error, kind, message, recoverable, JsonTree::Object(data));
    reveal_strlit("operation");
    reveal_strlit("cause");
    reveal_strlit("fail_closed");
    reveal_strlit("blocks_edits");
    reveal_strlit("safe_to_continue_read_only");
    reveal_strlit("recommended_command");
    reveal_strlit("requested_paths");
    reveal_strlit("do_not_edit");
    reveal_strlit("guidance");
    assert("operation"@.len() == 9);
    assert("cause"@.len() == 5);
    assert("fail_closed"@.len() == 11);
    assert("blocks_edits"@.len() == 12);
    assert("safe_to_continue_read_only"@.len() == 26);
    assert("recommended_command"@.len() == 19);
    assert("requested_paths"@.len() == 15);
    assert("do_not_edit"@.len() == 11);
    assert("guidance"@.len() == 8);
    assert("fail_closed"@[0] == 'f');
    assert("do_not_edit"@[0] == 'd');
}

} // verus!
