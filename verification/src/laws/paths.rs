//! Paths and patterns: which are refused, and what a path is below its project.

use crate::filter::{is_relative_run, PathStop, RelativePaths};
use crate::laws::text::trimming_cuts_white_space;
use crate::machine::{absolute_on, joined_on, windows_absolute, windows_joined, Machine};
use crate::paths::{
    below, expanded, folded, looks_absolute, lower, path_parts, pieces, relativized, same_name,
};
use crate::patterns::{invalidity, suspicion, PatternFacts};
use crate::text::{is_white, joined, occurs_in, utf8_len};
use vstd::prelude::*;

verus! {

/// A pattern is refused as suspicious just where it is blank, written as an absolute
/// path, or matches everything or nearly so; and what is said against it names it.
pub proof fn suspicious_patterns(pattern: Seq<char>, normalized: Seq<char>, is_absolute: bool)
    ensures
        suspicion(pattern, normalized, is_absolute) is Some <==> {
            ||| forall|k: int| 0 <= k < pattern.len() ==> is_white(#[trigger] pattern[k])
            ||| looks_absolute(pattern, is_absolute)
            ||| normalized.len() == 0
            ||| normalized == "*"@
            ||| normalized == "**"@
            ||| normalized == "**/*"@
            ||| normalized == "**/**"@
            ||| utf8_len(pattern) <= 2 && pattern.contains('*')
        },
        (forall|k: int| 0 <= k < pattern.len() ==> is_white(#[trigger] pattern[k])) ==> suspicion(
            pattern,
            normalized,
            is_absolute,
        ) == Some("Pattern is completely empty."@),
        (exists|k: int| 0 <= k < pattern.len() && !is_white(#[trigger] pattern[k]))
            && looks_absolute(pattern, is_absolute) ==> suspicion(pattern, normalized, is_absolute)
            == Some(
            "Pattern appears to be an absolute path: '"@ + pattern
                + "'. Use project-relative paths instead."@,
        ),
        (exists|k: int| 0 <= k < pattern.len() && !is_white(#[trigger] pattern[k]))
            && !looks_absolute(pattern, is_absolute) && (normalized.len() == 0 || normalized
            == "*"@ || normalized == "**"@ || normalized == "**/*"@ || normalized == "**/**"@)
            ==> suspicion(pattern, normalized, is_absolute) == Some(
            "Pattern '"@ + pattern + "' is too broad (normalizes to '"@ + normalized
                + "'). It will block all other agents from editing any files."@,
        ),
        (exists|k: int| 0 <= k < pattern.len() && !is_white(#[trigger] pattern[k]))
            && !looks_absolute(pattern, is_absolute) && normalized.len() > 0 && normalized
            != "*"@ && normalized != "**"@ && normalized != "**/*"@ && normalized != "**/**"@
            && utf8_len(pattern) <= 2 && pattern.contains('*') ==> suspicion(
            pattern,
            normalized,
            is_absolute,
        ) == Some("Pattern '"@ + pattern + "' is very short and likely too broad."@),
{
    let cut = trimming_cuts_white_space(pattern);
}

/// A pattern cannot be reserved just where it holds `..` or is a glob that cannot be
/// matched; and what is said names the reason.
pub proof fn invalid_patterns(pattern: Seq<char>, facts: PatternFacts)
    ensures
        invalidity(pattern, facts) is Some <==> occurs_in(".."@, pattern) || (facts.is_glob
            && !facts.is_matchable),
        occurs_in(".."@, pattern) ==> invalidity(pattern, facts) == Some(
            "Pattern contains parent directory traversal ('..'). Use simple project-relative paths."@,
        ),
        !occurs_in(".."@, pattern) && facts.is_glob && !facts.is_matchable ==> invalidity(
            pattern,
            facts,
        ) == Some(
            "Pattern '"@ + pattern
                + "' is not a valid glob pattern. Check for unescaped special characters or mismatched brackets."@,
        ),
{
}

/// What is written as an absolute path: from the home directory, from a drive with either
/// separator, or as the machine says; but nothing that starts with two slashes.
pub proof fn absolute_forms(path: Seq<char>, is_absolute: bool)
    ensures
        path.len() >= 2 && path[0] == '/' && path[1] == '/' ==> !looks_absolute(path, is_absolute),
        !(path.len() >= 2 && path[0] == '/' && path[1] == '/') ==> (looks_absolute(
            path,
            is_absolute,
        ) <==> {
            ||| is_absolute
            ||| path.len() == 1 && path[0] == '~'
            ||| path.len() >= 2 && path[0] == '~' && path[1] == '/'
            ||| path.len() >= 3 && (97 <= path[0] as int <= 122 || 65 <= path[0] as int <= 90)
                && path[1] == ':' && (path[2] == '/' || path[2] == '\\')
        }),
{
    let two = seq!['/', '/'];
    let home = seq!['~', '/'];
    if path.len() >= 2 && path[0] == '/' && path[1] == '/' {
        assert(two =~= path.subrange(0, 2));
    }
    if two.is_prefix_of(path) {
        assert(path.subrange(0, 2)[0] == '/' && path.subrange(0, 2)[1] == '/');
    }
    if path.len() >= 2 && path[0] == '~' && path[1] == '/' {
        assert(home =~= path.subrange(0, 2));
    }
    if home.is_prefix_of(path) {
        assert(path.subrange(0, 2)[0] == '~' && path.subrange(0, 2)[1] == '/');
    }
    if path.len() == 1 && path[0] == '~' {
        assert(path =~= seq!['~']);
    }
}

/// On POSIX systems a path is absolute where it starts with a slash, and two paths are
/// joined with one slash between them, unless the second is absolute; on Windows both are
/// what the machine says.
pub proof fn machines_read_paths(path: Seq<char>, dir: Seq<char>, rest: Seq<char>, machine: Machine)
    ensures
        !machine.is_windows() ==> {
            &&& absolute_on(path, machine) <==> path.len() > 0 && path[0] == '/'
            &&& rest.len() > 0 && rest[0] == '/' ==> joined_on(dir, rest, machine) == rest
            &&& (rest.len() == 0 || rest[0] != '/') && (dir.len() == 0 || dir[dir.len() - 1]
                == '/') ==> joined_on(dir, rest, machine) == dir + rest
            &&& (rest.len() == 0 || rest[0] != '/') && dir.len() > 0 && dir[dir.len() - 1] != '/'
                ==> joined_on(dir, rest, machine) == dir + seq!['/'] + rest
        },
        machine.is_windows() ==> absolute_on(path, machine) == windows_absolute(path) && joined_on(
            dir,
            rest,
            machine,
        ) == windows_joined(dir, rest),
{
    let slash = seq!['/'];
    if path.len() > 0 && path[0] == '/' {
        assert(slash =~= path.subrange(0, 1));
    }
    if slash.is_prefix_of(path) {
        assert(path.subrange(0, 1)[0] == '/');
    }
    if rest.len() > 0 && rest[0] == '/' {
        assert(slash =~= rest.subrange(0, 1));
    }
    if slash.is_prefix_of(rest) {
        assert(rest.subrange(0, 1)[0] == '/');
    }
}

/// A leading `~` stands for the home directory, where there is one; every other path
/// stays as it is.
pub proof fn tilde_is_the_home_directory(path: Seq<char>, machine: Machine)
    ensures
        machine.home_dir() is None ==> expanded(path, machine) == path,
        machine.home_dir() matches Some(home) ==> {
            &&& path.len() == 1 && path[0] == '~' ==> expanded(path, machine) == home
            &&& path.len() >= 2 && path[0] == '~' && path[1] == '/' ==> expanded(path, machine)
                == joined_on(home, path.skip(2), machine)
            &&& path.len() == 0 || path[0] != '~' || (path.len() > 1 && path[1] != '/')
                ==> expanded(path, machine) == path
        },
{
    let home = seq!['~', '/'];
    if path.len() >= 2 && path[0] == '~' && path[1] == '/' {
        assert(home =~= path.subrange(0, 2));
    }
    if home.is_prefix_of(path) {
        assert(path.subrange(0, 2)[0] == '~' && path.subrange(0, 2)[1] == '/');
    }
    if path.len() == 1 && path[0] == '~' {
        assert(path =~= seq!['~']);
    }
}

proof fn pieces_are_there(s: Seq<char>)
    ensures
        pieces(s).len() > 0,
    decreases s.len(),
{
    if s.len() > 0 {
        pieces_are_there(s.drop_last());
    }
}

/// A path is cut into pieces at each slash and each backslash, and nowhere else.
pub proof fn pieces_end_at_separators(a: Seq<char>, separator: char, b: Seq<char>)
    requires
        separator == '/' || separator == '\\',
    ensures
        pieces(a + seq![separator] + b) == pieces(a) + pieces(b),
        (forall|k: int| 0 <= k < b.len() ==> (#[trigger] b[k]) != '/' && b[k] != '\\') ==> pieces(b)
            == seq![b],
    decreases b.len(),
{
    pieces_are_there(a);
    pieces_are_there(b);
    let whole = a + seq![separator] + b;
    if b.len() == 0 {
        assert(whole.drop_last() =~= a);
        assert(whole =~= a.push(separator));
        assert(b =~= Seq::empty());
        assert(pieces(whole) =~= pieces(a) + pieces(b));
    } else {
        let head = b.drop_last();
        pieces_end_at_separators(a, separator, head);
        assert(whole.drop_last() =~= a + seq![separator] + head);
        assert(whole.last() == b.last());
        pieces_are_there(head);
        assert(pieces(whole) =~= pieces(a) + pieces(b));
        if forall|k: int| 0 <= k < b.len() ==> (#[trigger] b[k]) != '/' && b[k] != '\\' {
            assert(b[b.len() - 1] != '/' && b[b.len() - 1] != '\\');
            assert forall|k: int| 0 <= k < head.len() implies (#[trigger] head[k]) != '/' && head[k]
                != '\\' by {
                assert(b[k] == head[k]);
            }
            assert(head.push(b.last()) =~= b);
            assert(pieces(b) =~= seq![b]);
        }
    }
}

/// The pieces of a path are taken one after the other: an empty one and `.` change
/// nothing, `..` takes the part before it away and fails where there is none, and every
/// other one is one more part. What failed stays so.
pub proof fn parts_are_taken_piece_by_piece(list: Seq<Seq<char>>, piece: Seq<char>)
    ensures
        folded(Seq::empty()) == Some(Seq::<Seq<char>>::empty()),
        folded(list) is None ==> folded(list.push(piece)) is None,
        folded(list) matches Some(parts) ==> {
            &&& piece.len() == 0 ==> folded(list.push(piece)) == Some(parts)
            &&& piece.len() == 1 && piece[0] == '.' ==> folded(list.push(piece)) == Some(parts)
            &&& piece.len() == 2 && piece[0] == '.' && piece[1] == '.' && parts.len() == 0
                ==> folded(list.push(piece)) is None
            &&& piece.len() == 2 && piece[0] == '.' && piece[1] == '.' && parts.len() > 0
                ==> folded(list.push(piece)) == Some(parts.take(parts.len() - 1))
            &&& piece.len() > 0 && !(piece.len() == 1 && piece[0] == '.') && !(piece.len() == 2
                && piece[0] == '.' && piece[1] == '.') ==> folded(list.push(piece)) == Some(
                parts.push(piece),
            )
        },
{
    assert(list.push(piece).drop_last() =~= list);
    if piece.len() == 1 && piece[0] == '.' {
        assert(piece =~= seq!['.']);
    }
    if piece.len() == 2 && piece[0] == '.' && piece[1] == '.' {
        assert(piece =~= seq!['.', '.']);
    }
    if piece == seq!['.'] {
        assert(piece.len() == 1 && piece[0] == '.');
    }
    if piece == seq!['.', '.'] {
        assert(piece.len() == 2 && piece[0] == '.' && piece[1] == '.');
    }
    if let Some(parts) = folded(list) {
        if parts.len() > 0 {
            assert(parts.drop_last() =~= parts.take(parts.len() - 1));
        }
    }
}

/// Two names are the same where their characters are; where case is ignored, a capital
/// letter of the ASCII alphabet is the same as the small one, and no other characters
/// are the same.
pub proof fn names_are_told_apart(a: Seq<char>, b: Seq<char>, ignore_case: bool)
    ensures
        same_name(a, b, false) <==> a == b,
        same_name(a, b, true) <==> a.len() == b.len() && forall|i: int|
            #![trigger a[i]]
            #![trigger b[i]]
            0 <= i < a.len() ==> {
                ||| a[i] == b[i]
                ||| 65 <= a[i] as int <= 90 && b[i] as int == a[i] as int + 32
                ||| 65 <= b[i] as int <= 90 && a[i] as int == b[i] as int + 32
            },
{
    if same_name(a, b, true) {
        assert forall|i: int|
            #![trigger a[i]]
            #![trigger b[i]]
            0 <= i < a.len() implies {
            ||| a[i] == b[i]
            ||| 65 <= a[i] as int <= 90 && b[i] as int == a[i] as int + 32
            ||| 65 <= b[i] as int <= 90 && a[i] as int == b[i] as int + 32
        } by {
            assert(lower(a[i]) == lower(b[i]));
        }
    }
    if a.len() == b.len() && (forall|i: int|
        #![trigger a[i]]
        #![trigger b[i]]
        0 <= i < a.len() ==> {
            ||| a[i] == b[i]
            ||| 65 <= a[i] as int <= 90 && b[i] as int == a[i] as int + 32
            ||| 65 <= b[i] as int <= 90 && a[i] as int == b[i] as int + 32
        }) {
        assert forall|i: int| 0 <= i < a.len() implies lower(#[trigger] a[i]) == lower(b[i]) by {
            assert(a[i] == a[i]);
        }
    }
}

/// A relative path is its own parts; an absolute one has to start with the parts of the
/// root, each the same name, and is what follows them. A path whose `..` leads out is
/// none at all.
pub proof fn path_is_below_its_root(
    root: Seq<char>,
    target: Seq<char>,
    is_absolute: bool,
    ignore_case: bool,
)
    ensures
        path_parts(target) is None ==> below(root, target, is_absolute, ignore_case) is None,
        path_parts(target) matches Some(parts) ==> {
            &&& !looks_absolute(target, is_absolute) ==> below(
                root,
                target,
                is_absolute,
                ignore_case,
            ) == Some(joined(parts, seq!['/']))
            &&& looks_absolute(target, is_absolute) && path_parts(root) is None ==> below(
                root,
                target,
                is_absolute,
                ignore_case,
            ) is None
            &&& looks_absolute(target, is_absolute) ==> (path_parts(root) matches Some(base) ==> {
                let inside = base.len() <= parts.len() && forall|i: int|
                    0 <= i < base.len() ==> same_name(parts[i], #[trigger] base[i], ignore_case);
                &&& inside ==> below(root, target, is_absolute, ignore_case) == Some(
                    joined(parts.subrange(base.len() as int, parts.len() as int), seq!['/']),
                )
                &&& !inside ==> below(root, target, is_absolute, ignore_case) is None
            })
        },
        path_parts(target) == folded(pieces(target)),
{
}

/// The path of a request below the project is that of the path without `~`, read as the
/// machine reads it; only a Windows machine ignores case.
pub proof fn request_path_is_read_by_the_machine(
    root: Seq<char>,
    path: Seq<char>,
    machine: Machine,
)
    ensures
        relativized(root, path, machine) == below(
            expanded(root, machine),
            expanded(path, machine),
            absolute_on(expanded(path, machine), machine),
            machine.is_windows(),
        ),
{
}

/// The paths of a request are made relative one by one, in order, up to the first one
/// that leads out of the project or is the project itself; where there is none, all are.
pub proof fn paths_are_placed_in_order(
    run: RelativePaths,
    root: Seq<char>,
    paths: Seq<String>,
    machine: Machine,
)
    requires
        is_relative_run(run, root, paths, machine),
    ensures
        run.relatives@.len() <= paths.len(),
        forall|k: int|
            #![trigger run.relatives@[k]]
            #![trigger paths[k]]
            0 <= k < run.relatives@.len() ==> {
                &&& relativized(root, paths[k]@, machine) == Some(run.relatives@[k]@)
                &&& run.relatives@[k]@.len() > 0
            },
        run.stop is None <==> forall|k: int|
            0 <= k < paths.len() ==> {
                &&& relativized(root, (#[trigger] paths[k])@, machine) is Some
                &&& relativized(root, paths[k]@, machine)->0.len() > 0
            },
        run.stop is None ==> run.relatives@.len() == paths.len(),
        run.stop matches Some(stop) ==> {
            let n = run.relatives@.len() as int;
            &&& n < paths.len()
            &&& stop == PathStop::Outside <==> relativized(root, paths[n]@, machine) is None
            &&& stop == PathStop::ProjectRoot <==> relativized(root, paths[n]@, machine) == Some(
                Seq::<char>::empty(),
            )
        },
{
    if run.stop is None {
        assert forall|k: int| 0 <= k < paths.len() implies {
            &&& relativized(root, (#[trigger] paths[k])@, machine) is Some
            &&& relativized(root, paths[k]@, machine)->0.len() > 0
        } by {
            assert(run.relatives@[k]@.len() > 0);
        }
    } else {
        let n = run.relatives@.len() as int;
        let path = paths[n];
        assert(relativized(root, path@, machine) is None || relativized(
            root,
            path@,
            machine,
        )->0.len() == 0);
    }
}

} // verus!
