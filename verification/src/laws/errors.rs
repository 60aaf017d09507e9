//! What an error says, member by member.

use crate::errors::{
    acquire_context, acquire_guidance, error_type, fail_closed_tree, is_acquire_failure,
    is_acquire_outcome, is_database_error, is_plain_error, is_tool_error, is_unavailable,
    outcome_error, reason_tree,
};
use crate::json::{
    int_list, json_tree, json_trees, optional_text, optional_view, text_list, tree_index,
    tree_member, JsonTree,
};
use crate::model::{DbErrorKind, DbFailure, DbOutcome, McpError, McpErrorCode};
use crate::text::texts;
use vstd::prelude::*;

verus! {

/// A member of an object is found by its name, and `null` stands for one that is not
/// there.
pub proof fn members_are_found(tree: JsonTree, key: Seq<char>)
    ensures
        tree matches JsonTree::Object(members) ==> {
            &&& members.contains_key(key) ==> tree_member(tree, key) == Some(members[key])
                && tree_index(tree, key) == members[key]
            &&& !members.contains_key(key) ==> tree_member(tree, key) is None && tree_index(
                tree,
                key,
            ) == JsonTree::Null
        },
        tree !is Object ==> tree_member(tree, key) is None && tree_index(tree, key)
            == JsonTree::Null,
{
}

/// A list of strings, of integers or of values has as many items, in their order.
pub proof fn lists_are_faithful(
    names: Seq<Seq<char>>,
    numbers: Seq<i64>,
    values: Seq<serde_json::Value>,
    strings: Seq<String>,
)
    ensures
        text_list(names) is List,
        text_list(names)->List_0.len() == names.len(),
        forall|i: int|
            0 <= i < names.len() ==> (#[trigger] text_list(names)->List_0[i]) == JsonTree::Text(
                names[i],
            ),
        int_list(numbers) is List,
        int_list(numbers)->List_0.len() == numbers.len(),
        forall|i: int|
            0 <= i < numbers.len() ==> (#[trigger] int_list(numbers)->List_0[i]) == JsonTree::Int(
                numbers[i] as int,
            ),
        json_trees(values).len() == values.len(),
        forall|i: int|
            0 <= i < values.len() ==> #[trigger] json_trees(values)[i] == json_tree(values[i]),
        texts(strings).len() == strings.len(),
        forall|i: int|
            #![trigger texts(strings)[i]]
            #![trigger strings[i]]
            0 <= i < strings.len() ==> texts(strings)[i] == strings[i]@,
{
}

/// A string that may be missing is itself or `null`.
pub proof fn optional_texts_are_faithful(s: Option<Seq<char>>, text: Option<String>)
    ensures
        s matches Some(known) ==> optional_text(s) == JsonTree::Text(known),
        s is None ==> optional_text(s) == JsonTree::Null,
        text matches Some(known) ==> optional_view(text) == Some(known@),
        text is None ==> optional_view(text) is None,
{
}

/// A tool error says its type, its message, whether the caller can recover and its
/// data, under `error`, and nothing besides.
pub proof fn tool_error_says_it_all(
    error: McpError,
    kind: Seq<char>,
    message: Seq<char>,
    recoverable: bool,
    data: JsonTree,
)
    requires
        is_tool_error(error, kind, message, recoverable, data),
    ensures
        error.code == McpErrorCode::ToolExecutionError,
        error.message@ == message,
        error.data is Some,
        json_tree(error.data->0) is Object,
        json_tree(error.data->0)->Object_0.dom() == set!["error"@],
        ({
            let inner = json_tree(error.data->0)->Object_0["error"@];
            &&& inner is Object
            &&& inner->Object_0.dom() == set!["type"@, "message"@, "recoverable"@, "data"@]
            &&& inner->Object_0["type"@] == JsonTree::Text(kind)
            &&& inner->Object_0["message"@] == JsonTree::Text(message)
            &&& inner->Object_0["recoverable"@] == JsonTree::Bool(recoverable)
            &&& inner->Object_0["data"@] == data
        }),
{
    reveal_strlit("type");
    reveal_strlit("message");
    reveal_strlit("recoverable");
    reveal_strlit("data");
    assert("type"@.len() == 4);
    assert("message"@.len() == 7);
    assert("recoverable"@.len() == 11);
    assert("type"@[0] == 't');
    assert("data"@[0] == 'd');
    assert(json_tree(error.data->0)->Object_0.dom() =~= set!["error"@]);
    let inner = json_tree(error.data->0)->Object_0["error"@];
    assert(inner->Object_0.dom() =~= set!["type"@, "message"@, "recoverable"@, "data"@]);
}

/// A plain error has its code and message, and no data.
pub proof fn plain_error_says_it_all(error: McpError, code: McpErrorCode, message: Seq<char>)
    requires
        is_plain_error(error, code, message),
    ensures
        error.code == code,
        error.message@ == message,
        error.data is None,
{
}

/// The data of an error that gives a reason, or that fails closed on some paths.
pub proof fn error_data_says_it_all(reason: Seq<char>, paths: Seq<String>)
    ensures
        reason_tree(reason) is Object,
        reason_tree(reason)->Object_0.dom() == set!["reason"@],
        reason_tree(reason)->Object_0["reason"@] == JsonTree::Text(reason),
        fail_closed_tree(paths) is Object,
        fail_closed_tree(paths)->Object_0.dom() == set!["fail_closed"@, "do_not_edit"@],
        fail_closed_tree(paths)->Object_0["fail_closed"@] == JsonTree::Bool(true),
        fail_closed_tree(paths)->Object_0["do_not_edit"@] is List,
        fail_closed_tree(paths)->Object_0["do_not_edit"@]->List_0.len() == paths.len(),
        forall|i: int|
            #![trigger paths[i]]
            0 <= i < paths.len() ==> fail_closed_tree(paths)->Object_0["do_not_edit"@]->List_0[i]
                == JsonTree::Text(paths[i]@),
{
    reveal_strlit("fail_closed");
    reveal_strlit("do_not_edit");
    assert("fail_closed"@[0] == 'f');
    assert("do_not_edit"@[0] == 'd');
    lists_are_faithful(texts(paths), Seq::empty(), Seq::empty(), paths);
    assert(reason_tree(reason)->Object_0.dom() =~= set!["reason"@]);
    assert(fail_closed_tree(paths)->Object_0.dom() =~= set!["fail_closed"@, "do_not_edit"@]);
}

/// An error says that the database could not be used just where the type in its data is
/// one of four.
pub proof fn database_errors_are_told_by_type(error: McpError, kind: Seq<char>)
    requires
        error.data is Some,
        json_tree(error.data->0) is Object,
        json_tree(error.data->0)->Object_0.contains_key("error"@),
        json_tree(error.data->0)->Object_0["error"@] is Object,
        json_tree(error.data->0)->Object_0["error"@]->Object_0.contains_key("type"@),
        json_tree(error.data->0)->Object_0["error"@]->Object_0["type"@] == JsonTree::Text(kind),
    ensures
        error_type(error) == Some(kind),
        is_database_error(error) <==> (kind == "DATABASE_CORRUPTION"@ || kind
            == "DATABASE_ERROR"@ || kind == "DATABASE_POOL_EXHAUSTED"@ || kind
            == "RESOURCE_BUSY"@),
{
}

/// An error without a type in its data never says that the database could not be used.
pub proof fn untyped_errors_are_no_database_errors(error: McpError)
    requires
        error.data is None || json_tree(error.data->0) !is Object || !json_tree(
            error.data->0,
        )->Object_0.contains_key("error"@) || json_tree(error.data->0)->Object_0["error"@]
            !is Object || !json_tree(
            error.data->0,
        )->Object_0["error"@]->Object_0.contains_key("type"@) || json_tree(
            error.data->0,
        )->Object_0["error"@]->Object_0["type"@] !is Text,
    ensures
        error_type(error) is None,
        !is_database_error(error),
{
}

/// A database error lets a release be queued, unless something was not found or the
/// error is none of the kinds that are told apart.
pub proof fn unavailable_kinds(kind: DbErrorKind)
    ensures
        is_unavailable(DbErrorKind::Pool),
        is_unavailable(DbErrorKind::Sqlite),
        is_unavailable(DbErrorKind::Schema),
        is_unavailable(DbErrorKind::ResourceBusy),
        is_unavailable(DbErrorKind::PoolExhausted),
        is_unavailable(DbErrorKind::CircuitBreakerOpen),
        is_unavailable(DbErrorKind::IntegrityCorruption),
        !is_unavailable(DbErrorKind::NotFound),
        !is_unavailable(DbErrorKind::Other),
{
}

/// A database call that did not end well is reported with the error that it carries.
pub proof fn outcome_carries_its_error<T>(out: DbOutcome<T>)
    ensures
        out matches DbOutcome::Failed(failure) ==> outcome_error(out) == failure.error,
        out matches DbOutcome::Cancelled { error, .. } ==> outcome_error(out) == error,
        out matches DbOutcome::Panicked { error, .. } ==> outcome_error(out) == error,
{
}

/// A database call of an acquire succeeds where the database did. Where the database
/// failed, the error says so with the code and message of the database error; where it
/// was cut short, it is the error that the outcome carries.
pub proof fn acquire_outcome_follows_the_database<T>(
    r: Result<T, McpError>,
    out: DbOutcome<T>,
    requested: Seq<String>,
    operation: Seq<char>,
)
    requires
        is_acquire_outcome(r, out, requested, operation),
    ensures
        r is Ok <==> out is Done,
        out matches DbOutcome::Done(value) ==> r->Ok_0 == value,
        out matches DbOutcome::Failed(failure) ==> {
            &&& r->Err_0.code == failure.error.code
            &&& r->Err_0.message == failure.error.message
            &&& is_acquire_failure(r->Err_0, requested, operation, failure)
        },
        out matches DbOutcome::Cancelled { error, .. } ==> r->Err_0 == error,
        out matches DbOutcome::Panicked { error, .. } ==> r->Err_0 == error,
{
}

/// What an acquire that failed says of itself: it fails closed, repeats the
/// classification of the failure, and lists every requested path as one that must not be
/// edited, or none, as the failure blocks edits or does not.
pub proof fn acquire_context_says_it_all(
    requested: Seq<String>,
    operation: Seq<char>,
    failure: DbFailure,
)
    ensures
        ({
            let context = acquire_context(requested, operation, failure);
            let members = context->Object_0;
            &&& context is Object
            &&& members.dom() == set![
                "operation"@, "cause"@, "fail_closed"@, "blocks_edits"@,
                "safe_to_continue_read_only"@, "recommended_command"@, "requested_paths"@,
                "do_not_edit"@, "guidance"@,
            ]
            &&& members["operation"@] == JsonTree::Text(operation)
            &&& members["cause"@] == JsonTree::Text(failure.class@)
            &&& members["fail_closed"@] == JsonTree::Bool(true)
            &&& members["blocks_edits"@] == JsonTree::Bool(failure.blocks_edits)
            &&& members["safe_to_continue_read_only"@] == JsonTree::Bool(
                failure.safe_to_continue_read_only,
            )
            &&& failure.recommended_command matches Some(command)
                ==> members["recommended_command"@] == JsonTree::Text(command@)
            &&& failure.recommended_command is None ==> members["recommended_command"@]
                == JsonTree::Null
            &&& members["requested_paths"@] is List
            &&& members["requested_paths"@]->List_0.len() == requested.len()
            &&& forall|i: int|
                #![trigger requested[i]]
                0 <= i < requested.len() ==> members["requested_paths"@]->List_0[i]
                    == JsonTree::Text(requested[i]@)
            &&& members["do_not_edit"@] is List
            &&& !failure.blocks_edits ==> members["do_not_edit"@]->List_0.len() == 0
            &&& failure.blocks_edits ==> members["do_not_edit"@] == members["requested_paths"@]
            &&& members["guidance"@] == JsonTree::Text(acquire_guidance(failure.blocks_edits))
        }),
        acquire_guidance(true)
            == "Reservation acquire FAILED CLOSED: current holders are unverifiable because the reservation index could not be read. Do NOT edit the requested paths until the database is recovered."@,
        acquire_guidance(false)
            == "Reservation acquire did NOT grant: the reservation subsystem is temporarily unavailable (busy/locked). The paths were left unreserved; retry after the condition clears."@,
{
    reveal_strlit("operation");
    reveal_strlit("cause");
    reveal_strlit("fail_closed");
    reveal_strlit("blocks_edits");
    reveal_strlit("safe_to_continue_read_only");
    reveal_strlit("recommended_command");
    reveal_strlit("requested_paths");
    reveal_strlit("do_not_edit");
    reveal_strlit("guidance");
    assert("operation"@.len() == 9);
    assert("cause"@.len() == 5);
    assert("fail_closed"@.len() == 11);
    assert("blocks_edits"@.len() == 12);
    assert("safe_to_continue_read_only"@.len() == 26);
    assert("recommended_command"@.len() == 19);
    assert("requested_paths"@.len() == 15);
    assert("do_not_edit"@.len() == 11);
    assert("guidance"@.len() == 8);
    assert("fail_closed"@[0] == 'f');
    assert("do_not_edit"@[0] == 'd');
    lists_are_faithful(texts(requested), Seq::empty(), Seq::empty(), requested);
    assert(acquire_context(requested, operation, failure)->Object_0.dom() =~= set![
        "operation"@, "cause"@, "fail_closed"@, "blocks_edits"@, "safe_to_continue_read_only"@,
        "recommended_command"@, "requested_paths"@, "do_not_edit"@, "guidance"@,
    ]);
}

/// The context of an acquire is put into the data of the error, and everything else
/// there stays as it is.
pub proof fn context_is_put_into_the_error(
    error: McpError,
    requested: Seq<String>,
    operation: Seq<char>,
    failure: DbFailure,
    outer: Map<Seq<char>, JsonTree>,
    inner: Map<Seq<char>, JsonTree>,
    data: Map<Seq<char>, JsonTree>,
)
    requires
        is_acquire_failure(error, requested, operation, failure),
        failure.error.data is Some,
        json_tree(failure.error.data->0) == JsonTree::Object(outer),
        outer.contains_key("error"@),
        outer["error"@] == JsonTree::Object(inner),
        inner.contains_key("data"@),
        inner["data"@] == JsonTree::Object(data),
    ensures
        error.data is Some,
        json_tree(error.data->0) is Object,
        ({
            let new_outer = json_tree(error.data->0)->Object_0;
            let new_inner = new_outer["error"@]->Object_0;
            let new_data = new_inner["data"@]->Object_0;
            &&& new_outer.dom() == outer.dom()
            &&& forall|k: Seq<char>|
                outer.contains_key(k) && k != "error"@ ==> #[trigger] new_outer[k] == outer[k]
            &&& new_outer["error"@] is Object
            &&& new_inner.dom() == inner.dom()
            &&& forall|k: Seq<char>|
                inner.contains_key(k) && k != "data"@ ==> #[trigger] new_inner[k] == inner[k]
            &&& new_inner["data"@] is Object
            &&& new_data.contains_key("reservation_acquire"@)
            &&& new_data["reservation_acquire"@] == acquire_context(requested, operation, failure)
            &&& forall|k: Seq<char>|
                k != "reservation_acquire"@ ==> (#[trigger] new_data.contains_key(k)
                    <==> data.contains_key(k))
            &&& forall|k: Seq<char>|
                data.contains_key(k) && k != "reservation_acquire"@ ==> #[trigger] new_data[k]
                    == data[k]
        }),
{
    let new_outer = json_tree(error.data->0)->Object_0;
    let new_inner = new_outer["error"@]->Object_0;
    assert(new_outer.dom() =~= outer.dom());
    assert(new_inner.dom() =~= inner.dom());
}

/// Where the error of the database has no data, or none that could take the context, it
/// is reported as it is.
pub proof fn context_needs_a_place(
    error: McpError,
    requested: Seq<String>,
    operation: Seq<char>,
    failure: DbFailure,
)
    requires
        is_acquire_failure(error, requested, operation, failure),
        failure.error.data is Some ==> tree_index(
            tree_index(json_tree(failure.error.data->0), "error"@),
            "data"@,
        ) !is Object,
    ensures
        error.data is Some <==> failure.error.data is Some,
        error.data is Some ==> json_tree(error.data->0) == json_tree(failure.error.data->0),
        error.code == failure.error.code,
        error.message == failure.error.message,
{
}

} // verus!
