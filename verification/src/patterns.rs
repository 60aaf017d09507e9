//! Which path patterns a reservation may name.

use crate::json::optional_view;
use crate::machine::{absolute_on, Machine};
use crate::paths::{is_written_absolute, looks_absolute};
use crate::text::{byte_len, has_char, has_text, occurs_in, same_text, trim, trimmed, utf8_len};
use vstd::prelude::*;

verus! {

/// What the pattern engine says of one pattern: the form it is matched in,
/// whether it is a glob, and whether it can be matched at all.
#[derive(Debug, Clone)]
pub struct PatternFacts {
    pub normalized: String,
    pub is_glob: bool,
    pub is_matchable: bool,
}

/// Whether a pattern of this normalized form matches every file.
pub open spec fn is_broad(normalized: Seq<char>) -> bool {
    ||| normalized == "*"@
    ||| normalized == "**"@
    ||| normalized == "**/*"@
    ||| normalized == "**/**"@
    ||| normalized.len() == 0
}

/// Why a pattern is too broad, empty or absolute, if it is. `is_absolute` is whether the
/// machine takes it to be an absolute path.
pub open spec fn suspicion(
    pattern: Seq<char>,
    normalized: Seq<char>,
    is_absolute: bool,
) -> Option<Seq<char>> {
    if trimmed(pattern).len() == 0 {
        Some("Pattern is completely empty."@)
    } else if looks_absolute(pattern, is_absolute) {
        Some(
            "Pattern appears to be an absolute path: '"@ + pattern
                + "'. Use project-relative paths instead."@,
        )
    } else if is_broad(normalized) {
        Some(
            "Pattern '"@ + pattern + "' is too broad (normalizes to '"@ + normalized
                + "'). It will block all other agents from editing any files."@,
        )
    } else if utf8_len(pattern) <= 2 && pattern.contains('*') {
        Some("Pattern '"@ + pattern + "' is very short and likely too broad."@)
    } else {
        None
    }
}

/// Why `pattern` is too broad, empty or absolute, if it is. `normalized` is the
/// form in which the pattern is matched.
pub fn detect_suspicious_file_reservation(
    pattern: &str,
    normalized: &str,
    machine: &Machine,
) -> (r: Option<String>)
    ensures
        optional_view(r) == suspicion(pattern@, normalized@, absolute_on(pattern@, *machine)),
{
    suspicion_against(pattern, normalized, machine.is_absolute(pattern))
}

/// What is said against `pattern`, where it is too broad, empty or absolute.
/// `normalized` is the form in which it is matched, and `is_absolute` whether the
/// machine takes it to be an absolute path.
pub fn suspicion_against(pattern: &str, normalized: &str, is_absolute: bool) -> (r: Option<String>)
    ensures
        optional_view(r) == suspicion(pattern@, normalized@, is_absolute),
{
    let bare = trim(pattern);
    if bare.as_str().unicode_len() == 0 {
        return Some("Pattern is completely empty.".to_owned());
    }
    if is_written_absolute(pattern, is_absolute) {
        return Some(
            "Pattern appears to be an absolute path: '".to_owned().concat(pattern).concat(
                "'. Use project-relative paths instead.",
            ),
        );
    }
    if same_text(normalized, "*") || same_text(normalized, "**") || same_text(normalized, "**/*")
        || same_text(normalized, "**/**") || normalized.unicode_len() == 0 {
        return Some(
            "Pattern '".to_owned().concat(pattern).concat("' is too broad (normalizes to '").concat(
                normalized,
            ).concat("'). It will block all other agents from editing any files."),
        );
    }
    if byte_len(pattern) <= 2 && has_char(pattern, '*') {
        return Some(
            "Pattern '".to_owned().concat(pattern).concat(
                "' is very short and likely too broad.",
            ),
        );
    }
    None
}

/// Why a pattern cannot be reserved or matched, if it cannot: it goes up with
/// `..`, or is a glob that cannot be matched.
pub open spec fn invalidity(pattern: Seq<char>, facts: PatternFacts) -> Option<Seq<char>> {
    if occurs_in(".."@, pattern) {
        Some(
            "Pattern contains parent directory traversal ('..'). Use simple project-relative paths."@,
        )
    } else if facts.is_glob && !facts.is_matchable {
        Some(
            "Pattern '"@ + pattern
                + "' is not a valid glob pattern. Check for unescaped special characters or mismatched brackets."@,
        )
    } else {
        None
    }
}

/// Why `pattern` cannot be reserved or matched, if it cannot. `facts` is what
/// the pattern engine says of it.
pub fn invalid_file_reservation_pattern(pattern: &str, facts: &PatternFacts) -> (r: Option<String>)
    ensures
        optional_view(r) == invalidity(pattern@, *facts),
{
    if has_text(pattern, "..") {
        return Some(
            "Pattern contains parent directory traversal ('..'). Use simple project-relative paths.".to_owned(),
        );
    }
    if facts.is_glob && !facts.is_matchable {
        return Some(
            "Pattern '".to_owned().concat(pattern).concat(
                "' is not a valid glob pattern. Check for unescaped special characters or mismatched brackets.",
            ),
        );
    }
    None
}

} // verus!
