//! The guard that checks commits against the reservations: where it is put, and
//! what is answered about it.

use crate::errors::{is_plain_error, plain_error};
use crate::json::{json_bool, json_encoding, json_object, json_string, json_text, with, JsonTree};
use crate::machine::{absolute_on, joined_on, Machine};
use crate::model::{McpError, McpErrorCode};
use crate::paths::{expand_tilde, expanded};
use crate::text::{has_text, occurs_in};
use vstd::prelude::*;

verus! {

/// Whether `r` is what becomes of the repository at `path`, which a request names as
/// `input`: it has to be absolute.
pub open spec fn is_checked_path(
    r: Result<String, McpError>,
    path: Seq<char>,
    is_absolute: bool,
    input: Seq<char>,
) -> bool {
    if path.len() == 0 {
        r is Err && is_plain_error(
            r->Err_0,
            McpErrorCode::InvalidParams,
            "Repository path must not be empty."@,
        )
    } else if !is_absolute {
        r is Err && is_plain_error(
            r->Err_0,
            McpErrorCode::InvalidParams,
            "Repository path must be absolute (or use ~/...): "@ + input,
        )
    } else {
        r matches Ok(text) && text@ == path
    }
}

/// Whether `r` is the path of the repository that a request names: absolute, with
/// a leading `~` replaced by the home directory.
pub open spec fn is_repo_path(
    r: Result<String, McpError>,
    input: Seq<char>,
    machine: Machine,
) -> bool {
    let path = expanded(input, machine);
    is_checked_path(r, path, absolute_on(path, machine), input)
}

/// What becomes of the repository at `path`, which a request names as `input`.
/// `is_absolute` is whether the machine takes `path` to be absolute.
pub fn check_repo_path(path: String, is_absolute: bool, input: &str) -> (r: Result<String, McpError>)
    ensures
        is_checked_path(r, path@, is_absolute, input@),
{
    if path.as_str().unicode_len() == 0 {
        return Err(
            plain_error(
                McpErrorCode::InvalidParams,
                "Repository path must not be empty.".to_owned(),
            ),
        );
    }
    if !is_absolute {
        return Err(
            plain_error(
                McpErrorCode::InvalidParams,
                "Repository path must be absolute (or use ~/...): ".to_owned().concat(input),
            ),
        );
    }
    Ok(path)
}

/// The path of the repository that a request names.
pub fn normalize_repo_path(input: &str, machine: &Machine) -> (r: Result<String, McpError>)
    ensures
        is_repo_path(r, input@, *machine),
{
    let path = expand_tilde(input, machine);
    let is_absolute = machine.is_absolute(path.as_str());
    check_repo_path(path, is_absolute, input)
}

/// A repository that a request names. It waits to be looked for.
#[derive(Debug, Clone)]
pub struct GuardRepo {
    pub path: String,
}

/// What the installation of the guard waits for next.
#[derive(Debug, Clone)]
pub enum GuardInstall {
    /// Guards are switched off: nothing is installed.
    Answer(String),
    Install(GuardRepo),
}

/// `{"hook": path}`.
pub open spec fn hook_tree(path: Seq<char>) -> JsonTree {
    JsonTree::Object(map!["hook"@ => JsonTree::Text(path)])
}

/// The answer to an installation whose hook is at `path`.
pub fn hook_answer(path: &str) -> (r: String)
    ensures
        r@ == json_encoding(hook_tree(path@)),
{
    json_string(&with(json_object(), "hook", json_text(path)))
}

/// Takes a request to install the guard in a repository. Nothing is installed
/// where guards are switched off.
pub fn install_precommit_guard(enabled: bool, code_repo_path: &str, machine: &Machine) -> (r: Result<
    GuardInstall,
    McpError,
>)
    ensures
        match r {
            Ok(GuardInstall::Answer(text)) => !enabled && text@ == json_encoding(
                hook_tree(Seq::empty()),
            ),
            Ok(GuardInstall::Install(repo)) => enabled && is_repo_path(
                Ok(repo.path),
                code_repo_path@,
                *machine,
            ),
            Err(error) => enabled && is_repo_path(
                Err(error),
                code_repo_path@,
                *machine,
            ),
        },
{
    if !enabled {
        proof {
            reveal_strlit("");
            assert(""@ =~= Seq::empty());
        }
        return Ok(GuardInstall::Answer(hook_answer("")));
    }
    match normalize_repo_path(code_repo_path, machine) {
        Ok(path) => Ok(GuardInstall::Install(GuardRepo { path })),
        Err(error) => Err(error),
    }
}

/// Takes a request to remove the guard from a repository.
pub fn uninstall_precommit_guard(code_repo_path: &str, machine: &Machine) -> (r: Result<
    GuardRepo,
    McpError,
>)
    ensures
        match r {
            Ok(repo) => is_repo_path(Ok(repo.path), code_repo_path@, *machine),
            Err(error) => is_repo_path(Err(error), code_repo_path@, *machine),
        },
{
    match normalize_repo_path(code_repo_path, machine) {
        Ok(path) => Ok(GuardRepo { path }),
        Err(error) => Err(error),
    }
}

/// `{"removed": removed}`.
pub open spec fn removed_tree(removed: bool) -> JsonTree {
    JsonTree::Object(map!["removed"@ => JsonTree::Bool(removed)])
}

/// Whether `r` is the answer `text`, or the error that `lead` and the reason of
/// `result` make.
pub open spec fn is_guard_answer<T>(
    r: Result<String, McpError>,
    result: Result<T, String>,
    lead: Seq<char>,
    text: Seq<char>,
) -> bool {
    match result {
        Ok(_) => r matches Ok(answer) && answer@ == text,
        Err(reason) => r is Err && is_plain_error(
            r->Err_0,
            McpErrorCode::InternalError,
            lead + reason@,
        ),
    }
}

impl GuardRepo {
    /// Takes whether the repository is there.
    pub fn found(self, exists: bool) -> (r: Result<GuardRepo, McpError>)
        ensures
            exists ==> r == Ok::<GuardRepo, McpError>(self),
            !exists ==> r is Err && is_plain_error(
                r->Err_0,
                McpErrorCode::InvalidParams,
                "Repository path does not exist: "@ + self.path@,
            ),
    {
        if exists {
            Ok(self)
        } else {
            Err(
                plain_error(
                    McpErrorCode::InvalidParams,
                    "Repository path does not exist: ".to_owned().concat(self.path.as_str()),
                ),
            )
        }
    }

    /// Takes how the installation ended.
    pub fn installed(self, result: Result<(), String>) -> (r: Result<GuardRepo, McpError>)
        ensures
            match result {
                Ok(()) => r == Ok::<GuardRepo, McpError>(self),
                Err(reason) => r is Err && is_plain_error(
                    r->Err_0,
                    McpErrorCode::InternalError,
                    "Failed to install guard: "@ + reason@,
                ),
            },
    {
        match result {
            Ok(()) => Ok(self),
            Err(reason) => Err(
                plain_error(
                    McpErrorCode::InternalError,
                    "Failed to install guard: ".to_owned().concat(reason.as_str()),
                ),
            ),
        }
    }

    /// Answers the installation. `hooks_dir` is the directory of the hooks, or why
    /// it could not be told.
    pub fn answer_install(&self, hooks_dir: Result<String, String>, machine: &Machine) -> (r: Result<
        String,
        McpError,
    >)
        ensures
            match hooks_dir {
                Ok(dir) => r matches Ok(answer) && answer@ == json_encoding(
                    hook_tree(joined_on(dir@, "pre-commit"@, *machine)),
                ),
                Err(reason) => r is Err && is_plain_error(
                    r->Err_0,
                    McpErrorCode::InternalError,
                    "Failed to resolve hooks dir: "@ + reason@,
                ),
            },
    {
        match hooks_dir {
            Ok(dir) => {
                let path = machine.join(dir.as_str(), "pre-commit");
                Ok(hook_answer(path.as_str()))
            },
            Err(reason) => Err(
                plain_error(
                    McpErrorCode::InternalError,
                    "Failed to resolve hooks dir: ".to_owned().concat(reason.as_str()),
                ),
            ),
        }
    }

    /// Answers the removal. `was_installed` says whether the guard was there
    /// before.
    pub fn answer_uninstall(&self, was_installed: bool, result: Result<(), String>) -> (r: Result<
        String,
        McpError,
    >)
        ensures
            is_guard_answer(
                r,
                result,
                "Failed to uninstall guard: "@,
                json_encoding(removed_tree(was_installed)),
            ),
    {
        match result {
            Ok(()) => Ok(
                json_string(&with(json_object(), "removed", json_bool(was_installed))),
            ),
            Err(reason) => Err(
                plain_error(
                    McpErrorCode::InternalError,
                    "Failed to uninstall guard: ".to_owned().concat(reason.as_str()),
                ),
            ),
        }
    }
}

/// What the hooks of a repository hold: whether the guard's plugin is there, and
/// the text of the hook, if there is one.
#[derive(Debug, Clone)]
pub struct GuardFiles {
    pub plugin_exists: bool,
    pub hook_text: Option<String>,
}

/// Whether the guard is installed: its plugin is there, or the hook is one of its
/// own.
pub open spec fn is_installed(files: Option<GuardFiles>) -> bool {
    match files {
        Some(found) => {
            ||| found.plugin_exists
            ||| found.hook_text matches Some(text) && occurs_in("mcp-agent-mail"@, text@)
        },
        None => false,
    }
}

/// Whether the guard is installed. `files` is what the hooks of the repository
/// hold, where they could be found.
pub fn guard_is_installed(files: &Option<GuardFiles>) -> (r: bool)
    ensures
        r == is_installed(*files),
{
    match files {
        Some(found) => {
            if found.plugin_exists {
                return true;
            }
            match &found.hook_text {
                Some(text) => has_text(text.as_str(), "mcp-agent-mail"),
                None => false,
            }
        },
        None => false,
    }
}

} // verus!
