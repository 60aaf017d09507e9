//! The guard of a repository: which path is taken, and what is answered.

use crate::guard::{
    hook_tree, is_checked_path, is_guard_answer, is_installed, is_repo_path, removed_tree,
    GuardFiles,
};
use crate::json::JsonTree;
use crate::machine::{absolute_on, Machine};
use crate::model::{McpError, McpErrorCode};
use crate::paths::expanded;
use crate::text::occurs_in;
use vstd::prelude::*;

verus! {

/// A repository is taken at the path that a request names, with the home directory for a
/// leading `~`, just where that is absolute; and it is never taken at another.
pub proof fn repository_is_at_its_path(
    r: Result<String, McpError>,
    input: Seq<char>,
    machine: Machine,
)
    requires
        is_repo_path(r, input, machine),
    ensures
        r is Ok <==> expanded(input, machine).len() > 0 && absolute_on(
            expanded(input, machine),
            machine,
        ),
        r matches Ok(path) ==> path@ == expanded(input, machine),
        r matches Err(error) ==> {
            &&& error.code == McpErrorCode::InvalidParams
            &&& error.data is None
            &&& expanded(input, machine).len() == 0 ==> error.message@
                == "Repository path must not be empty."@
            &&& expanded(input, machine).len() > 0 ==> error.message@
                == "Repository path must be absolute (or use ~/...): "@ + input
        },
{
}

/// A path that was looked up is taken just where it is absolute.
pub proof fn checked_path_is_absolute(
    r: Result<String, McpError>,
    path: Seq<char>,
    is_absolute: bool,
    input: Seq<char>,
)
    requires
        is_checked_path(r, path, is_absolute, input),
    ensures
        r is Ok <==> path.len() > 0 && is_absolute,
        r matches Ok(taken) ==> taken@ == path,
        r matches Err(error) ==> error.code == McpErrorCode::InvalidParams && error.data is None,
{
}

/// The answers of the guard have one member each.
pub proof fn guard_answers_say_it_all(path: Seq<char>, removed: bool)
    ensures
        hook_tree(path) is Object,
        hook_tree(path)->Object_0.dom() == set!["hook"@],
        hook_tree(path)->Object_0["hook"@] == JsonTree::Text(path),
        removed_tree(removed) is Object,
        removed_tree(removed)->Object_0.dom() == set!["removed"@],
        removed_tree(removed)->Object_0["removed"@] == JsonTree::Bool(removed),
{
    assert(hook_tree(path)->Object_0.dom() =~= set!["hook"@]);
    assert(removed_tree(removed)->Object_0.dom() =~= set!["removed"@]);
}

/// What could be done is answered, and what could not fails with its reason.
pub proof fn guard_answers_follow_the_result<T>(
    r: Result<String, McpError>,
    result: Result<T, String>,
    lead: Seq<char>,
    text: Seq<char>,
)
    requires
        is_guard_answer(r, result, lead, text),
    ensures
        r is Ok <==> result is Ok,
        r matches Ok(answer) ==> answer@ == text,
        r matches Err(error) ==> {
            &&& error.code == McpErrorCode::InternalError
            &&& error.message@ == lead + result->Err_0@
            &&& error.data is None
        },
{
}

/// The guard is installed where its plugin is there, whatever the hook, and where the
/// hook has the guard's name anywhere, whatever the plugin; and nowhere else.
pub proof fn guard_is_told_by_plugin_or_hook(files: GuardFiles)
    ensures
        !is_installed(None),
        files.plugin_exists ==> is_installed(Some(files)),
        files.hook_text is Some && occurs_in("mcp-agent-mail"@, files.hook_text->0@)
            ==> is_installed(Some(files)),
        !files.plugin_exists && files.hook_text is None ==> !is_installed(Some(files)),
        !files.plugin_exists && (files.hook_text matches Some(text) ==> !occurs_in(
            "mcp-agent-mail"@,
            text@,
        )) ==> !is_installed(Some(files)),
{
}

} // verus!
