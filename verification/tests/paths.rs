use file_reservations::filter::{
    find_invalid_pattern, normalize_filter_paths, relative_filter_paths, relative_paths, PathStop,
};
use file_reservations::guard::{
    check_repo_path, guard_is_installed, hook_answer, install_precommit_guard,
    normalize_repo_path, uninstall_precommit_guard, GuardFiles, GuardInstall, GuardRepo,
};
use file_reservations::machine::Machine;
use file_reservations::model::{McpError, McpErrorCode};
use file_reservations::paths::{
    expand_tilde, is_written_absolute, path_below, path_looks_absolute, relativize_path,
};
use file_reservations::patterns::{
    detect_suspicious_file_reservation, invalid_file_reservation_pattern, suspicion_against,
    PatternFacts,
};

fn machine() -> Machine {
    Machine::posix(Some("/home/agent".to_string()))
}

fn at_home(home: &str) -> Machine {
    Machine::posix(Some(home.to_string()))
}

fn normalized(pattern: &str) -> String {
    let mut parts: Vec<&str> = Vec::new();
    for part in pattern.split(['/', '\\']) {
        if !part.is_empty() && part != "." {
            parts.push(part);
        }
    }
    parts.join("/")
}

fn is_glob(pattern: &str) -> bool {
    pattern.contains(['*', '?', '[', '{'])
}

fn is_balanced(pattern: &str) -> bool {
    let count = |c: char| pattern.chars().filter(|x| *x == c).count();
    count('[') == count(']') && count('{') == count('}')
}

fn facts(pattern: &str) -> PatternFacts {
    PatternFacts {
        normalized: normalized(pattern),
        is_glob: is_glob(pattern),
        is_matchable: is_balanced(pattern),
    }
}

fn suspicious(pattern: &str) -> Option<String> {
    detect_suspicious_file_reservation(pattern, &normalized(pattern), &machine())
}

fn invalid(pattern: &str) -> Option<String> {
    invalid_file_reservation_pattern(pattern, &facts(pattern))
}

fn filter(root: &str, paths: Option<Vec<String>>) -> Result<Option<Vec<String>>, McpError> {
    let run = relative_filter_paths(root, &paths, &machine());
    let known: Vec<PatternFacts> = match &run {
        Some(found) => found.relatives.iter().map(|p| facts(p)).collect(),
        None => Vec::new(),
    };
    normalize_filter_paths(run, &known)
}

#[test]
fn expand_tilde_bare_tilde() {
    assert!(!expand_tilde("~", &machine()).is_empty());
    assert_eq!(expand_tilde("~", &machine()), "/home/agent");
    assert_eq!(expand_tilde("~", &Machine::posix(None)), "~");
}

#[test]
fn expand_tilde_with_subpath() {
    let result = expand_tilde("~/Documents/file.txt", &machine());
    assert!(!result.starts_with('~'));
    assert!(result.ends_with("Documents/file.txt"));
    assert_eq!(result, "/home/agent/Documents/file.txt");
}

#[test]
fn expand_tilde_joins_as_paths_do() {
    assert_eq!(expand_tilde("~/x", &at_home("/home/agent/")), "/home/agent/x");
    assert_eq!(expand_tilde("~/", &machine()), "/home/agent/");
    assert_eq!(expand_tilde("~//etc/x", &machine()), "/etc/x");
    assert_eq!(expand_tilde("~/x", &at_home("")), "x");
    assert_eq!(expand_tilde("~/x", &Machine::posix(None)), "~/x");
}

#[test]
fn expand_tilde_absolute_path_unchanged() {
    assert_eq!(expand_tilde("/usr/local/bin", &machine()), "/usr/local/bin");
}

#[test]
fn expand_tilde_relative_path_unchanged() {
    assert_eq!(expand_tilde("src/main.rs", &machine()), "src/main.rs");
}

#[test]
fn expand_tilde_tilde_in_middle_unchanged() {
    assert_eq!(expand_tilde("foo/~/bar", &machine()), "foo/~/bar");
}

#[test]
fn expand_tilde_empty_string() {
    assert_eq!(expand_tilde("", &machine()), "");
}

#[test]
fn expand_tilde_double_tilde_unchanged() {
    assert_eq!(expand_tilde("~~", &machine()), "~~");
}

#[test]
fn expand_tilde_tilde_with_username_unchanged() {
    assert!(expand_tilde("~otheruser/file", &machine()).starts_with("~otheruser"));
}

#[test]
fn normalize_absolute_path_unchanged() {
    assert_eq!(
        normalize_repo_path("/data/projects/repo", &machine()).unwrap(),
        "/data/projects/repo"
    );
}

#[test]
fn normalize_relative_path_rejected() {
    let err = normalize_repo_path("src/main.rs", &machine()).expect_err("relative path must fail");
    assert!(err.message.contains("must be absolute"));
    assert_eq!(
        err.message,
        "Repository path must be absolute (or use ~/...): src/main.rs"
    );
    assert_eq!(err.code, McpErrorCode::InvalidParams);
    assert!(err.data.is_none());
}

#[test]
fn normalize_tilde_path_expanded() {
    let result = normalize_repo_path("~/projects/repo", &machine()).unwrap();
    assert!(result.starts_with('/'));
    assert!(result.ends_with("projects/repo"));
}

#[test]
fn normalize_repo_path_empty_string() {
    let err = normalize_repo_path("", &machine()).expect_err("empty path must fail");
    assert!(err.message.contains("must not be empty"));
}

#[test]
fn normalize_repo_path_dot() {
    let err = normalize_repo_path(".", &machine()).expect_err("dot path must fail");
    assert!(err.message.contains("must be absolute"));
}

#[test]
fn relativize_path_rejects_traversal() {
    let root = "/project";
    assert_eq!(relativize_path(root, "../outside", &machine()), None);
    assert_eq!(relativize_path(root, "src/../../outside", &machine()), None);
    assert_eq!(
        relativize_path(root, "src/../internal", &machine()),
        Some("internal".to_string())
    );
    assert_eq!(relativize_path(root, "/project/../outside", &machine()), None);
    assert_eq!(
        relativize_path(root, "/project/src/../internal", &machine()),
        Some("internal".to_string())
    );
    assert_eq!(
        relativize_path(root, "/project/../project/src/main.rs", &machine()),
        Some("src/main.rs".to_string())
    );
}

#[test]
fn relativize_path_is_stable_and_plain() {
    let root = "/project";
    for path in ["./a//b\\c/.", "x/../y", "//net/share", "/project/deep/file.rs"] {
        let once = relativize_path(root, path, &machine()).expect("inside");
        assert!(!once.contains('\\') && !once.contains("//"));
        assert_eq!(relativize_path(root, &once, &machine()), Some(once.clone()));
    }
    assert_eq!(
        relativize_path(root, "//net/share", &machine()),
        Some("net/share".to_string())
    );
    assert_eq!(
        relativize_path(root, "./~/x", &machine()),
        Some("~/x".to_string())
    );
    assert_eq!(relativize_path(root, "~/x", &machine()), None);
    assert_eq!(
        relativize_path("~/work", "~/work/x", &machine()),
        Some("x".to_string())
    );
    assert_eq!(relativize_path(root, "/project", &machine()), Some(String::new()));
    assert_eq!(relativize_path(root, "/projectile/x", &machine()), None);
    assert_eq!(relativize_path(root, "..", &machine()), None);
    assert_eq!(relativize_path("/project/../..", "/project/x", &machine()), None);
}

#[test]
fn absolute_forms_are_told_apart() {
    assert!(path_looks_absolute("/x", &machine()));
    assert!(path_looks_absolute("~", &machine()));
    assert!(path_looks_absolute("~/x", &machine()));
    assert!(path_looks_absolute("C:/x", &machine()));
    assert!(path_looks_absolute("z:\\x", &machine()));
    assert!(!path_looks_absolute("//x", &machine()));
    assert!(!path_looks_absolute("1:/x", &machine()));
    assert!(!path_looks_absolute("C:x", &machine()));
    assert!(!path_looks_absolute("~x", &machine()));
    assert!(!path_looks_absolute("", &machine()));
}

#[test]
fn normalize_filter_paths_normalizes_relative_and_backslash_forms() {
    let root = "/project";
    let result = filter(
        root,
        Some(vec![
            "./src/main.rs".to_string(),
            "src\\lib.rs".to_string(),
            "src//deep///file.rs".to_string(),
        ]),
    )
    .expect("normalized paths");
    assert_eq!(
        result,
        Some(vec![
            "src/main.rs".to_string(),
            "src/lib.rs".to_string(),
            "src/deep/file.rs".to_string(),
        ])
    );
    assert_eq!(filter(root, None).expect("no filter"), None);
}

#[test]
fn normalize_filter_paths_rejects_absolute_outside_root() {
    let root = "/project";
    let err = filter(root, Some(vec!["/other/main.rs".to_string()]));
    let rendered = err.expect_err("expected invalid path").message;
    assert!(!rendered.contains(root));
}

#[test]
fn normalize_filter_paths_rejects_windows_absolute_outside_root() {
    let root = "/project";
    let err = filter(root, Some(vec!["C:\\other\\main.rs".to_string()]));
    let rendered = err.expect_err("expected invalid path").message;
    assert!(rendered.contains("outside the project root"));
    assert!(!rendered.contains(root));
}

#[test]
fn normalize_filter_paths_rejects_project_root_target() {
    let root = "/project";
    let err = filter(root, Some(vec![".".to_string()]));
    assert!(err.is_err());
    let data = err.expect_err("root").data.expect("data");
    assert_eq!(data["error"]["type"], "INVALID_PATH");
    assert_eq!(data["error"]["data"]["reason"], "targets_project_root");
}

#[test]
fn normalize_filter_paths_rejects_invalid_glob_pattern() {
    let root = "/project";
    let err = filter(root, Some(vec!["src/[abc".to_string()]));
    let rendered = err.expect_err("invalid glob should fail").message;
    assert!(rendered.contains("not a valid glob pattern"));
}

#[test]
fn first_bad_filter_path_decides() {
    let bad_first = filter(
        "/project",
        Some(vec!["src/[abc".to_string(), "/other".to_string()]),
    );
    let data = bad_first.expect_err("bad pattern").data.expect("data");
    assert_eq!(data["error"]["data"]["reason"], "invalid_pattern");
    let outside_first = filter(
        "/project",
        Some(vec!["ok".to_string(), "/other".to_string(), "[".to_string()]),
    );
    let data = outside_first.expect_err("outside").data.expect("data");
    assert_eq!(data["error"]["data"]["reason"], "path_outside_project");
}

#[test]
fn runs_stop_at_the_first_unplaced_path() {
    let paths = vec!["a".to_string(), "..".to_string(), "b".to_string()];
    let run = relative_paths("/project", &paths, &machine());
    assert_eq!(run.relatives, ["a"]);
    assert_eq!(run.stop, Some(PathStop::Outside));
    let patterns = vec!["ok".to_string(), "a..b".to_string()];
    let known: Vec<PatternFacts> = patterns.iter().map(|p| facts(p)).collect();
    let (index, message) = find_invalid_pattern(&patterns, &known).expect("invalid");
    assert_eq!(index, 1);
    assert!(message.contains("parent directory traversal"));
}

#[test]
fn too_broad_patterns_detected() {
    for pat in &["*", "**", "**/*", "**/**", "."] {
        let warning = suspicious(pat);
        assert!(warning.is_some(), "expected warning for pattern: {pat}");
        assert!(
            warning.as_ref().unwrap().contains("too broad"),
            "expected 'too broad' in warning for {pat}"
        );
    }
    assert_eq!(
        suspicious("**/*").unwrap(),
        "Pattern '**/*' is too broad (normalizes to '**/*'). It will block all other agents from editing any files."
    );
}

#[test]
fn empty_patterns_detected() {
    for pat in &["", "   ", "\t\u{a0}\n"] {
        assert_eq!(suspicious(pat).unwrap(), "Pattern is completely empty.");
    }
}

#[test]
fn absolute_path_detected() {
    let warning = suspicious("/full/path/src/module.py");
    assert!(warning.is_some());
    assert!(warning.unwrap().contains("absolute path"));
}

#[test]
fn windows_absolute_path_detected() {
    let warning = suspicious("C:\\full\\path\\src\\module.py");
    assert!(warning.is_some());
    assert!(warning.unwrap().contains("absolute path"));
}

#[test]
fn unc_path_not_flagged() {
    assert!(suspicious("//network/share").is_none());
}

#[test]
fn very_short_pattern_detected() {
    assert!(suspicious("*").is_some());
    let warning2 = suspicious("?*");
    assert!(warning2.is_some());
    assert!(warning2.unwrap().contains("very short"));
    assert!(suspicious("\u{e9}*").is_none());
}

#[test]
fn normal_patterns_not_suspicious() {
    for pat in &[
        "src/api/*.py",
        "lib/auth/**",
        "config/settings.yaml",
        "Cargo.toml",
    ] {
        assert!(
            suspicious(pat).is_none(),
            "unexpected warning for normal pattern: {pat}"
        );
    }
}

#[test]
fn invalid_glob_pattern_detected() {
    let warning = invalid("src/[abc");
    assert!(warning.is_some());
    assert!(warning.unwrap().contains("not a valid glob pattern"));
}

#[test]
fn valid_glob_pattern_not_rejected() {
    assert!(invalid("src/**/*.{rs,toml}").is_none());
}

#[test]
fn guard_install_is_answered() {
    match install_precommit_guard(false, "relative", &machine()).expect("disabled") {
        GuardInstall::Answer(text) => assert_eq!(text, "{\"hook\":\"\"}"),
        other => panic!("unexpected {other:?}"),
    }
    let repo = match install_precommit_guard(true, "~/repo", &machine()).expect("path") {
        GuardInstall::Install(repo) => repo,
        other => panic!("unexpected {other:?}"),
    };
    assert_eq!(repo.path, "/home/agent/repo");
    let missing = repo.clone().found(false).expect_err("missing");
    assert_eq!(
        missing.message,
        "Repository path does not exist: /home/agent/repo"
    );
    let repo = repo.found(true).expect("there");
    let failed = repo
        .clone()
        .installed(Err("no git".to_string()))
        .expect_err("failed");
    assert_eq!(failed.message, "Failed to install guard: no git");
    assert_eq!(failed.code, McpErrorCode::InternalError);
    let repo = repo.installed(Ok(())).expect("installed");
    assert_eq!(
        repo.answer_install(Ok("/home/agent/repo/.git/hooks".to_string()), &machine())
            .expect("answer"),
        "{\"hook\":\"/home/agent/repo/.git/hooks/pre-commit\"}"
    );
    assert_eq!(
        repo.answer_install(Err("odd".to_string()), &machine())
            .expect_err("hooks")
            .message,
        "Failed to resolve hooks dir: odd"
    );
    assert!(install_precommit_guard(true, "repo", &machine()).is_err());
}

#[test]
fn guard_removal_is_answered() {
    let repo: GuardRepo = uninstall_precommit_guard("/repo", &machine()).expect("path");
    assert_eq!(
        repo.answer_uninstall(true, Ok(())).expect("answer"),
        "{\"removed\":true}"
    );
    assert_eq!(
        repo.answer_uninstall(false, Err("busy".to_string()))
            .expect_err("failed")
            .message,
        "Failed to uninstall guard: busy"
    );
    assert!(uninstall_precommit_guard("", &machine()).is_err());
}

#[test]
fn guard_is_found_by_plugin_or_hook() {
    assert!(!guard_is_installed(&None));
    assert!(guard_is_installed(&Some(GuardFiles {
        plugin_exists: true,
        hook_text: None,
    })));
    assert!(guard_is_installed(&Some(GuardFiles {
        plugin_exists: false,
        hook_text: Some("#!/bin/sh\n# mcp-agent-mail guard\n".to_string()),
    })));
    assert!(!guard_is_installed(&Some(GuardFiles {
        plugin_exists: false,
        hook_text: Some("#!/bin/sh\nexit 0\n".to_string()),
    })));
    assert!(!guard_is_installed(&Some(GuardFiles {
        plugin_exists: false,
        hook_text: None,
    })));
}

#[test]
fn machine_reads_paths_as_the_system_does() {
    let here = Machine::current(Some("/home/agent".to_string()));
    assert_eq!(here.home(), Some("/home/agent"));
    assert_eq!(here.on_windows(), std::path::MAIN_SEPARATOR == '\\');
    let paths = [
        "", "/", "/x", "x", "x/", "C:", "C:/x", "c:\\x", "C:x", "\\x", "\\\\server\\share\\x",
        "//server/share", "\\\\?\\C:\\x", ".", "..", "../x", "~", "~/x",
    ];
    for path in paths {
        assert_eq!(
            here.is_absolute(path),
            std::path::Path::new(path).is_absolute(),
            "{path}"
        );
        for rest in paths {
            assert_eq!(
                here.join(path, rest),
                std::path::Path::new(path).join(rest).to_string_lossy(),
                "{path} {rest}"
            );
        }
    }
    if !here.on_windows() {
        for path in paths {
            assert_eq!(machine().is_absolute(path), here.is_absolute(path), "{path}");
        }
    }
}

#[test]
fn case_of_the_root_counts_unless_it_is_ignored() {
    let root = "C:\\Work\\Repo";
    let target = "c:/work/rePO/Src\\a.rs";
    assert_eq!(
        path_below(root, target, true, true),
        Some("Src/a.rs".to_string())
    );
    assert_eq!(path_below(root, target, false, true), path_below(root, target, true, true));
    assert_eq!(path_below(root, target, true, false), None);
    assert_eq!(
        path_below(root, "C:/Work/Repo/Src", true, false),
        Some("Src".to_string())
    );
    assert_eq!(path_below("C:/\u{c9}", "c:/\u{e9}/a", true, true), None);
    assert_eq!(path_below("C:/[x", "C:/{x/a", true, true), None);
    assert_eq!(path_below("C:/@", "C:/`/a", true, true), None);
    assert_eq!(path_below("C:/work", "C:/works/a", true, true), None);
    assert_eq!(
        path_below("\\\\Server\\Share", "\\\\server\\share\\a", true, true),
        Some("a".to_string())
    );
    assert_eq!(relativize_path(root, target, &machine()), None);
}

#[test]
fn what_is_absolute_is_for_the_machine_to_say() {
    assert!(is_written_absolute("/x", true));
    assert!(!is_written_absolute("/x", false));
    assert!(is_written_absolute("\\\\server\\share", true));
    assert!(!is_written_absolute("\\\\server\\share", false));
    assert!(!is_written_absolute("//server/share", true));
    assert!(is_written_absolute("C:/x", false));
    assert!(is_written_absolute("~/x", false));
    assert_eq!(
        path_below("C:/work", "/work/x", false, true),
        Some("work/x".to_string())
    );
    assert_eq!(path_below("C:/work", "/work/x", true, true), None);
    assert!(suspicion_against("/full/path", "full/path", true)
        .expect("absolute")
        .contains("absolute path"));
    assert_eq!(suspicion_against("/full/path", "full/path", false), None);
    let path = || "\\\\server\\repo".to_string();
    assert_eq!(check_repo_path(path(), true, "~").expect("absolute"), path());
    assert_eq!(
        check_repo_path(path(), false, "~").expect_err("relative").message,
        "Repository path must be absolute (or use ~/...): ~"
    );
    assert_eq!(
        hook_answer("C:\\hooks\\pre-commit"),
        "{\"hook\":\"C:\\\\hooks\\\\pre-commit\"}"
    );
}
