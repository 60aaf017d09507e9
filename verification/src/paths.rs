//! Paths of a request, made relative to the project. On every machine a backslash is
//! taken as a separator too, and a path from a drive as absolute.

use crate::machine::{absolute_on, joined_on, Machine};
use crate::text::{chars_of, has_prefix, join, joined, same_text, texts};
use vstd::prelude::*;

verus! {

/// Whether `c` separates the pieces of a path.
pub open spec fn is_separator(c: char) -> bool {
    c == '/' || c == '\\'
}

/// Whether `c` is a letter of the ASCII alphabet.
pub open spec fn is_ascii_letter(c: char) -> bool {
    'a' <= c <= 'z' || 'A' <= c <= 'Z'
}

/// Whether `path` is written as an absolute path: one that the machine takes to be
/// absolute, one from the home directory, or one from a drive. A path that starts with
/// two slashes is not.
pub open spec fn looks_absolute(path: Seq<char>, is_absolute: bool) -> bool {
    &&& !seq!['/', '/'].is_prefix_of(path)
    &&& {
        ||| is_absolute
        ||| starts_at_home(path)
        ||| path.len() >= 3 && is_ascii_letter(path[0]) && path[1] == ':' && is_separator(path[2])
    }
}

/// Whether `path` is the home directory or is written from it.
pub open spec fn starts_at_home(path: Seq<char>) -> bool {
    path == seq!['~'] || seq!['~', '/'].is_prefix_of(path)
}

/// Whether `path` is written as an absolute path. `is_absolute` is whether the machine
/// takes it to be absolute.
pub fn is_written_absolute(path: &str, is_absolute: bool) -> (r: bool)
    ensures
        r == looks_absolute(path@, is_absolute),
{
    proof {
        reveal_strlit("//");
        reveal_strlit("~/");
        reveal_strlit("~");
        assert("//"@ =~= seq!['/', '/']);
        assert("~/"@ =~= seq!['~', '/']);
        assert("~"@ =~= seq!['~']);
    }
    if has_prefix(path, "//") {
        return false;
    }
    if is_absolute || has_prefix(path, "~/") || same_text(path, "~") {
        return true;
    }
    let chars = chars_of(path);
    if chars.len() < 3 {
        return false;
    }
    let letter = ('a' <= chars[0] && chars[0] <= 'z') || ('A' <= chars[0] && chars[0] <= 'Z');
    letter && chars[1] == ':' && (chars[2] == '/' || chars[2] == '\\')
}

/// Whether `path` is written as an absolute path.
pub fn path_looks_absolute(path: &str, machine: &Machine) -> (r: bool)
    ensures
        r == looks_absolute(path@, absolute_on(path@, *machine)),
{
    is_written_absolute(path, machine.is_absolute(path))
}

/// The pieces of `path` between its separators, empty ones included.
pub open spec fn pieces(path: Seq<char>) -> Seq<Seq<char>>
    decreases path.len(),
{
    if path.len() == 0 {
        seq![Seq::empty()]
    } else {
        let before = pieces(path.drop_last());
        if is_separator(path.last()) {
            before.push(Seq::empty())
        } else {
            before.drop_last().push(before.last().push(path.last()))
        }
    }
}

/// What one piece of a path does to the parts before it: an empty piece and
/// `.` leave them as they are, `..` takes the last one back.
pub open spec fn stepped(parts: Seq<Seq<char>>, piece: Seq<char>) -> Option<Seq<Seq<char>>> {
    if piece.len() == 0 || piece == seq!['.'] {
        Some(parts)
    } else if piece == seq!['.', '.'] {
        if parts.len() == 0 {
            None
        } else {
            Some(parts.drop_last())
        }
    } else {
        Some(parts.push(piece))
    }
}

/// The parts that are left of a path with these pieces; none where a `..`
/// has nothing to take back.
pub open spec fn folded(list: Seq<Seq<char>>) -> Option<Seq<Seq<char>>>
    decreases list.len(),
{
    if list.len() == 0 {
        Some(Seq::empty())
    } else {
        match folded(list.drop_last()) {
            None => None,
            Some(parts) => stepped(parts, list.last()),
        }
    }
}

/// The parts of `path`, without `.` and `..`.
pub open spec fn path_parts(path: Seq<char>) -> Option<Seq<Seq<char>>> {
    folded(pieces(path))
}

/// `path` with a leading `~` replaced by the home directory, where there is one.
pub open spec fn expanded(path: Seq<char>, machine: Machine) -> Seq<char> {
    match machine.home_dir() {
        Some(dir) => if path == seq!['~'] {
            dir
        } else if seq!['~', '/'].is_prefix_of(path) {
            joined_on(dir, path.skip(2), machine)
        } else {
            path
        },
        None => path,
    }
}

/// The code of `c`, as a small letter where it is a capital one of the ASCII alphabet.
pub open spec fn lower(c: char) -> int {
    if 'A' <= c <= 'Z' {
        c as int + 32
    } else {
        c as int
    }
}

/// Whether two names are the same: with `ignore_case`, whatever the case of their ASCII
/// letters.
pub open spec fn same_name(a: Seq<char>, b: Seq<char>, ignore_case: bool) -> bool {
    if ignore_case {
        a.len() == b.len() && forall|i: int|
            0 <= i < a.len() ==> lower(#[trigger] a[i]) == lower(b[i])
    } else {
        a == b
    }
}

/// Whether `parts` starts with the names of `base`.
pub open spec fn starts_with_names(
    parts: Seq<Seq<char>>,
    base: Seq<Seq<char>>,
    ignore_case: bool,
) -> bool {
    base.len() <= parts.len() && forall|i: int|
        0 <= i < base.len() ==> same_name(parts[i], #[trigger] base[i], ignore_case)
}

/// The path of `target` below `root`, both without `~`: its parts, joined by slashes.
/// There is none where a `..` leads out of it, or where it is absolute and not below
/// `root`.
pub open spec fn below(
    root: Seq<char>,
    target: Seq<char>,
    is_absolute: bool,
    ignore_case: bool,
) -> Option<Seq<char>> {
    match path_parts(target) {
        None => None,
        Some(parts) => if looks_absolute(target, is_absolute) {
            match path_parts(root) {
                None => None,
                Some(base) => if starts_with_names(parts, base, ignore_case) {
                    Some(joined(parts.skip(base.len() as int), seq!['/']))
                } else {
                    None
                },
            }
        } else {
            Some(joined(parts, seq!['/']))
        },
    }
}

/// The path of `path` below the project at `root`, where it is below it: without `~`,
/// and on Windows whatever the case of the root.
pub open spec fn relativized(
    root: Seq<char>,
    path: Seq<char>,
    machine: Machine,
) -> Option<Seq<char>> {
    let target = expanded(path, machine);
    below(expanded(root, machine), target, absolute_on(target, machine), machine.is_windows())
}

/// `path` with a leading `~` replaced by the home directory, where there is one.
pub fn expand_tilde(path: &str, machine: &Machine) -> (r: String)
    ensures
        r@ == expanded(path@, *machine),
{
    proof {
        reveal_strlit("~/");
        reveal_strlit("~");
        assert("~/"@ =~= seq!['~', '/']);
        assert("~"@ =~= seq!['~']);
    }
    if let Some(dir) = machine.home() {
        if same_text(path, "~") {
            return dir.to_owned();
        }
        if has_prefix(path, "~/") {
            let n: usize = path.unicode_len();
            let rest = path.substring_char(2, n);
            proof {
                assert(rest@ =~= path@.skip(2));
            }
            return machine.join(dir, rest);
        }
    }
    path.to_owned()
}

fn take_back(parts: &mut Vec<String>, piece: String) -> (r: bool)
    ensures
        match stepped(texts(old(parts)@), piece@) {
            Some(after) => r && texts(final(parts)@) == after,
            None => !r,
        },
{
    proof {
        reveal_strlit(".");
        reveal_strlit("..");
        assert("."@ =~= seq!['.']);
        assert(".."@ =~= seq!['.', '.']);
    }
    if piece.as_str().unicode_len() == 0 || same_text(piece.as_str(), ".") {
        return true;
    }
    if same_text(piece.as_str(), "..") {
        let popped = parts.pop();
        proof {
            if old(parts)@.len() > 0 {
                assert(texts(parts@) =~= texts(old(parts)@).drop_last());
            }
        }
        return popped.is_some();
    }
    parts.push(piece);
    proof {
        assert(texts(parts@) =~= texts(old(parts)@).push(piece@));
    }
    true
}

fn text_of_range(path: &str, from: usize, to: usize) -> (r: String)
    requires
        from <= to <= path@.len(),
    ensures
        r@ == path@.subrange(from as int, to as int),
{
    path.substring_char(from, to).to_owned()
}

/// A `..` too many in the first pieces of a path is never made good by the rest.
proof fn folded_none_stays(list: Seq<Seq<char>>, n: int)
    requires
        0 <= n <= list.len(),
        folded(list.take(n)) is None,
    ensures
        folded(list) is None,
    decreases list.len(),
{
    if n == list.len() {
        assert(list.take(n) =~= list);
    } else {
        assert(list.drop_last().take(n) =~= list.take(n));
        folded_none_stays(list.drop_last(), n);
    }
}

/// The pieces of the start of a path come back as the first pieces of the whole
/// path, but for the last of them, which may go on.
proof fn pieces_of_prefix(path: Seq<char>, n: int)
    requires
        0 <= n <= path.len(),
    ensures
        pieces(path).len() >= pieces(path.take(n)).len() > 0,
        pieces(path).take(pieces(path.take(n)).len() - 1) == pieces(path.take(n)).drop_last(),
    decreases path.len(),
{
    if n == path.len() {
        assert(path.take(n) =~= path);
        assert(pieces(path).take(pieces(path).len() - 1) =~= pieces(path).drop_last());
        if path.len() > 0 {
            pieces_of_prefix(path.drop_last(), n - 1);
        }
    } else {
        let head = path.drop_last();
        assert(head.take(n) =~= path.take(n));
        pieces_of_prefix(head, n);
        let k = pieces(path.take(n)).len() - 1;
        assert(pieces(path).take(k) =~= pieces(head).take(k));
    }
}

/// The parts of `path`, without `.` and `..`.
fn normalize_parts(path: &str) -> (r: Option<Vec<String>>)
    ensures
        match r {
            Some(parts) => path_parts(path@) == Some(texts(parts@)),
            None => path_parts(path@) is None,
        },
{
    let chars = chars_of(path);
    let n: usize = chars.len();
    let mut parts: Vec<String> = Vec::new();
    let mut start: usize = 0;
    let mut i: usize = 0;
    proof {
        assert(path@.take(0) =~= Seq::empty());
        assert(pieces(path@.take(0)).drop_last() =~= Seq::empty());
        assert(texts(parts@) =~= Seq::empty());
        assert(path@.subrange(0, 0) =~= Seq::empty());
    }
    while i < n
        invariant
            chars@ == path@,
            n == path@.len(),
            start <= i <= n,
            pieces(path@.take(i as int)).len() > 0,
            pieces(path@.take(i as int)).last() == path@.subrange(start as int, i as int),
            folded(pieces(path@.take(i as int)).drop_last()) == Some(texts(parts@)),
        decreases n - i,
    {
        let ghost now = pieces(path@.take(i as int));
        let ghost next = pieces(path@.take(i + 1));
        proof {
            assert(path@.take(i + 1).drop_last() =~= path@.take(i as int));
            assert(path@.take(i + 1).last() == path@[i as int]);
        }
        if chars[i] == '/' || chars[i] == '\\' {
            let piece = text_of_range(path, start, i);
            let ok = take_back(&mut parts, piece);
            proof {
                assert(next.drop_last() =~= now);
                assert(now =~= now.drop_last().push(now.last()));
            }
            if !ok {
                proof {
                    pieces_of_prefix(path@, i + 1);
                    folded_none_stays(pieces(path@), next.len() - 1);
                }
                return None;
            }
            start = i + 1;
            proof {
                assert(path@.subrange(start as int, i + 1) =~= Seq::empty());
            }
        } else {
            proof {
                assert(next.drop_last() =~= now.drop_last());
                assert(path@.subrange(start as int, i as int).push(path@[i as int])
                    =~= path@.subrange(start as int, i + 1));
            }
        }
        i = i + 1;
    }
    proof {
        assert(path@.take(n as int) =~= path@);
    }
    let piece = text_of_range(path, start, n);
    if take_back(&mut parts, piece) {
        Some(parts)
    } else {
        None
    }
}

fn lower_code(c: char) -> (r: u32)
    ensures
        r == lower(c),
{
    if 'A' <= c && c <= 'Z' {
        c as u32 + 32
    } else {
        c as u32
    }
}

fn is_same_name(a: &str, b: &str, ignore_case: bool) -> (r: bool)
    ensures
        r == same_name(a@, b@, ignore_case),
{
    if !ignore_case {
        return same_text(a, b);
    }
    let left = chars_of(a);
    let right = chars_of(b);
    if left.len() != right.len() {
        return false;
    }
    let mut i: usize = 0;
    while i < left.len()
        invariant
            left@ == a@,
            right@ == b@,
            i <= left.len() == right.len(),
            forall|k: int| 0 <= k < i ==> lower(#[trigger] a@[k]) == lower(b@[k]),
        decreases left.len() - i,
    {
        if lower_code(left[i]) != lower_code(right[i]) {
            assert(lower(a@[i as int]) != lower(b@[i as int]));
            return false;
        }
        i = i + 1;
    }
    true
}

fn starts_with(parts: &Vec<String>, base: &Vec<String>, ignore_case: bool) -> (r: bool)
    ensures
        r == starts_with_names(texts(parts@), texts(base@), ignore_case),
{
    if parts.len() < base.len() {
        return false;
    }
    let mut i: usize = 0;
    while i < base.len()
        invariant
            i <= base.len() <= parts.len(),
            forall|k: int|
                0 <= k < i ==> same_name(
                    texts(parts@)[k],
                    #[trigger] texts(base@)[k],
                    ignore_case,
                ),
        decreases base.len() - i,
    {
        if !is_same_name(parts[i].as_str(), base[i].as_str(), ignore_case) {
            assert(!same_name(texts(parts@)[i as int], texts(base@)[i as int], ignore_case));
            return false;
        }
        i = i + 1;
    }
    true
}

/// The path of `target` below `root`, where it is below it. Both are without `~`;
/// `is_absolute` is whether the machine takes `target` to be absolute, and
/// `ignore_case` whether names are the same there whatever their case.
pub fn path_below(root: &str, target: &str, is_absolute: bool, ignore_case: bool) -> (r: Option<
    String,
>)
    ensures
        match r {
            Some(relative) => below(root@, target@, is_absolute, ignore_case) == Some(relative@),
            None => below(root@, target@, is_absolute, ignore_case) is None,
        },
{
    proof {
        reveal_strlit("/");
        assert("/"@ =~= seq!['/']);
    }
    let parts = match normalize_parts(target) {
        Some(parts) => parts,
        None => return None,
    };
    if is_written_absolute(target, is_absolute) {
        let base = match normalize_parts(root) {
            Some(base) => base,
            None => return None,
        };
        if !starts_with(&parts, &base, ignore_case) {
            return None;
        }
        let mut rest: Vec<String> = Vec::new();
        let mut i: usize = base.len();
        while i < parts.len()
            invariant
                base.len() <= i <= parts.len(),
                texts(rest@) == texts(parts@).subrange(base.len() as int, i as int),
            decreases parts.len() - i,
        {
            let ghost had = texts(rest@);
            rest.push(parts[i].clone());
            proof {
                assert(texts(rest@) =~= had.push(parts@[i as int]@));
                assert(had.push(texts(parts@)[i as int]) =~= texts(parts@).subrange(
                    base.len() as int,
                    i + 1,
                ));
            }
            i = i + 1;
        }
        proof {
            assert(texts(rest@) =~= texts(parts@).skip(base.len() as int));
        }
        return Some(join(&rest, "/"));
    }
    Some(join(&parts, "/"))
}

/// The path of `path` below the project at `root`, where it is below it.
pub fn relativize_path(root: &str, path: &str, machine: &Machine) -> (r: Option<String>)
    ensures
        match r {
            Some(relative) => relativized(root@, path@, *machine) == Some(relative@),
            None => relativized(root@, path@, *machine) is None,
        },
{
    let target = expand_tilde(path, machine);
    let base = expand_tilde(root, machine);
    let is_absolute = machine.is_absolute(target.as_str());
    path_below(base.as_str(), target.as_str(), is_absolute, machine.on_windows())
}

/// Whether no character of `s` separates pieces.
pub open spec fn unseparated(s: Seq<char>) -> bool {
    forall|i: int| 0 <= i < s.len() ==> !is_separator(#[trigger] s[i])
}

/// Whether `part` names one step down: it is not empty, not `.` and not `..`,
/// and holds no separator.
pub open spec fn is_plain_part(part: Seq<char>) -> bool {
    &&& part.len() > 0
    &&& part != seq!['.']
    &&& part != seq!['.', '.']
    &&& unseparated(part)
}

/// Whether each of `parts` names one step down.
pub open spec fn plain_parts(parts: Seq<Seq<char>>) -> bool {
    forall|i: int| 0 <= i < parts.len() ==> is_plain_part(#[trigger] parts[i])
}

proof fn pieces_are_unseparated(path: Seq<char>)
    ensures
        pieces(path).len() > 0,
        forall|i: int| 0 <= i < pieces(path).len() ==> unseparated(#[trigger] pieces(path)[i]),
    decreases path.len(),
{
    if path.len() > 0 {
        pieces_are_unseparated(path.drop_last());
    }
}

proof fn folded_is_plain(list: Seq<Seq<char>>)
    requires
        forall|i: int| 0 <= i < list.len() ==> unseparated(#[trigger] list[i]),
    ensures
        folded(list) matches Some(parts) ==> plain_parts(parts),
    decreases list.len(),
{
    if list.len() > 0 {
        folded_is_plain(list.drop_last());
    }
}

proof fn folded_plain_parts(parts: Seq<Seq<char>>)
    requires
        plain_parts(parts),
    ensures
        folded(parts) == Some(parts),
    decreases parts.len(),
{
    if parts.len() > 0 {
        folded_plain_parts(parts.drop_last());
        assert(parts.drop_last().push(parts.last()) =~= parts);
    } else {
        assert(parts =~= Seq::empty());
    }
}

proof fn pieces_extend(path: Seq<char>, tail: Seq<char>)
    requires
        unseparated(tail),
    ensures
        pieces(path).len() > 0,
        pieces(path + tail) == pieces(path).drop_last().push(pieces(path).last() + tail),
    decreases tail.len(),
{
    pieces_are_unseparated(path);
    if tail.len() == 0 {
        assert(path + tail =~= path);
        assert(pieces(path).last() + tail =~= pieces(path).last());
        assert(pieces(path).drop_last().push(pieces(path).last()) =~= pieces(path));
    } else {
        let head = tail.drop_last();
        pieces_extend(path, head);
        assert((path + tail).drop_last() =~= path + head);
        assert((path + tail).last() == tail.last());
        let before = pieces(path + head);
        assert(before.drop_last() =~= pieces(path).drop_last());
        assert((pieces(path).last() + head).push(tail.last()) =~= pieces(path).last() + tail);
    }
}

proof fn pieces_of_joined(parts: Seq<Seq<char>>)
    requires
        plain_parts(parts),
        parts.len() > 0,
    ensures
        pieces(joined(parts, seq!['/'])) == parts,
    decreases parts.len(),
{
    let last = parts.last();
    assert(is_plain_part(parts[parts.len() - 1]));
    if parts.len() == 1 {
        pieces_extend(Seq::empty(), last);
        assert(Seq::<char>::empty() + last =~= last);
        assert(Seq::<Seq<char>>::empty().push(last) =~= parts);
        assert(pieces(Seq::empty()).drop_last() =~= Seq::empty());
    } else {
        let head = parts.drop_last();
        pieces_of_joined(head);
        let lead = joined(head, seq!['/']);
        assert((lead + seq!['/']).drop_last() =~= lead);
        assert(pieces(lead + seq!['/']) =~= head.push(Seq::empty()));
        pieces_extend(lead + seq!['/'], last);
        assert(head.push(Seq::<char>::empty()).drop_last() =~= head);
        assert(Seq::<char>::empty() + last =~= last);
        assert(head.push(last) =~= parts);
    }
}

/// A path below the project is its plain parts, joined by slashes: it holds no
/// `.` or `..`, no backslash, and no empty piece.
pub proof fn relative_path_is_plain(root: Seq<char>, path: Seq<char>, machine: Machine)
    ensures
        relativized(root, path, machine) matches Some(relative) ==> {
            &&& path_parts(relative) is Some
            &&& plain_parts(path_parts(relative)->0)
            &&& relative == joined(path_parts(relative)->0, seq!['/'])
        },
{
    let target = expanded(path, machine);
    if let Some(relative) = relativized(root, path, machine) {
        let parts = path_parts(target)->0;
        pieces_are_unseparated(target);
        folded_is_plain(pieces(target));
        let kept = if looks_absolute(target, absolute_on(target, machine)) {
            parts.skip(path_parts(expanded(root, machine))->0.len() as int)
        } else {
            parts
        };
        assert(plain_parts(kept));
        assert(relative == joined(kept, seq!['/']));
        if kept.len() == 0 {
            assert(pieces(relative) =~= seq![Seq::<char>::empty()]);
            assert(pieces(relative).drop_last() =~= Seq::<Seq<char>>::empty());
            reveal_with_fuel(folded, 2);
            assert(kept =~= Seq::empty());
        } else {
            pieces_of_joined(kept);
            folded_plain_parts(kept);
        }
    }
}

/// A path below the project stays what it is when it is made relative again,
/// unless it now looks absolute.
pub proof fn relative_path_is_stable(
    root: Seq<char>,
    path: Seq<char>,
    machine: Machine,
    other_root: Seq<char>,
)
    requires
        relativized(root, path, machine) is Some,
        ({
            let relative = relativized(root, path, machine)->0;
            !looks_absolute(relative, absolute_on(relative, machine))
        }),
    ensures
        relativized(other_root, relativized(root, path, machine)->0, machine) == relativized(
            root,
            path,
            machine,
        ),
{
    relative_path_is_plain(root, path, machine);
    let relative = relativized(root, path, machine)->0;
    if seq!['~', '/'].is_prefix_of(relative) {
        assert(relative[0] == seq!['~', '/'][0]);
        assert(!seq!['/', '/'].is_prefix_of(relative)) by {
            if seq!['/', '/'].is_prefix_of(relative) {
                assert(relative[0] == seq!['/', '/'][0]);
            }
        }
    }
    if relative == seq!['~'] {
        assert(!seq!['/', '/'].is_prefix_of(relative));
    }
}

/// A path with a `..` that has nothing to take back is below no project.
pub proof fn traversal_is_refused(
    root: Seq<char>,
    above: Seq<char>,
    rest: Seq<char>,
    machine: Machine,
)
    requires
        above == seq!['.', '.'],
    ensures
        relativized(root, above, machine) is None,
        relativized(root, above + seq!['/'] + rest, machine) is None,
{
    reveal_with_fuel(folded, 2);
    let short = above;
    let long = above + seq!['/'] + rest;
    pieces_extend(Seq::empty(), above);
    assert(Seq::<char>::empty() + above =~= above);
    assert(pieces(above) =~= seq![above]);
    assert(pieces(above).drop_last() =~= Seq::<Seq<char>>::empty());
    assert(short[0] == '.' && long[0] == '.');
    assert(!seq!['~', '/'].is_prefix_of(short));
    assert(!seq!['~', '/'].is_prefix_of(long)) by {
        if seq!['~', '/'].is_prefix_of(long) {
            assert(long[0] == seq!['~', '/'][0]);
        }
    }
    assert(short != seq!['~']) by {
        assert(seq!['~'][0] == '~');
    }
    assert(long != seq!['~']) by {
        assert(seq!['~'][0] == '~');
    }
    let lead = above + seq!['/'];
    assert(lead.drop_last() =~= above);
    assert(pieces(lead) =~= seq![above, Seq::<char>::empty()]);
    assert(long.take(3) =~= lead);
    pieces_of_prefix(long, 3);
    assert(pieces(lead).drop_last() =~= seq![above]);
    assert(seq![above].drop_last() =~= Seq::<Seq<char>>::empty());
    folded_none_stays(pieces(long), 1);
}

/// A path that is absolute, and not below the project, is refused; one below it
/// is what follows the project's own parts.
pub proof fn absolute_path_is_below_root(
    root: Seq<char>,
    path: Seq<char>,
    machine: Machine,
    base: Seq<Seq<char>>,
    parts: Seq<Seq<char>>,
)
    requires
        looks_absolute(
            expanded(path, machine),
            absolute_on(expanded(path, machine), machine),
        ),
        path_parts(expanded(root, machine)) == Some(base),
        path_parts(expanded(path, machine)) == Some(parts),
    ensures
        relativized(root, path, machine) is Some <==> starts_with_names(
            parts,
            base,
            machine.is_windows(),
        ),
        !machine.is_windows() ==> (relativized(root, path, machine) is Some
            <==> base.is_prefix_of(parts)),
        forall|rest: Seq<Seq<char>>| #[trigger] (base + rest) == parts ==> relativized(
            root,
            path,
            machine,
        ) == Some(joined(rest, seq!['/'])),
{
    assert forall|rest: Seq<Seq<char>>| #[trigger] (base + rest) == parts implies relativized(
        root,
        path,
        machine,
    ) == Some(joined(rest, seq!['/'])) by {
        assert(forall|i: int| 0 <= i < base.len() ==> parts[i] == #[trigger] base[i]);
        assert(parts.skip(base.len() as int) =~= rest);
    }
    if !machine.is_windows() {
        if starts_with_names(parts, base, false) {
            assert(base =~= parts.subrange(0, base.len() as int));
        }
        if base.is_prefix_of(parts) {
            assert forall|i: int| 0 <= i < base.len() implies same_name(
                parts[i],
                #[trigger] base[i],
                false,
            ) by {
                assert(parts.subrange(0, base.len() as int)[i] == parts[i]);
            }
        }
    }
}

/// Where case is ignored, it does not matter how the root is written: the path below it
/// is the same, as the target writes it.
pub proof fn case_of_root_is_ignored(
    root: Seq<char>,
    other: Seq<char>,
    target: Seq<char>,
    is_absolute: bool,
    base: Seq<Seq<char>>,
    other_base: Seq<Seq<char>>,
)
    requires
        path_parts(root) == Some(base),
        path_parts(other) == Some(other_base),
        base.len() == other_base.len(),
        starts_with_names(other_base, base, true),
    ensures
        below(root, target, is_absolute, true) == below(other, target, is_absolute, true),
{
    if let Some(parts) = path_parts(target) {
        if starts_with_names(parts, base, true) {
            assert forall|i: int| 0 <= i < other_base.len() implies same_name(
                parts[i],
                #[trigger] other_base[i],
                true,
            ) by {
                same_name_joins(parts[i], base[i], other_base[i]);
            }
        }
        if starts_with_names(parts, other_base, true) {
            assert forall|i: int| 0 <= i < base.len() implies same_name(
                parts[i],
                #[trigger] base[i],
                true,
            ) by {
                same_name_joins(parts[i], other_base[i], base[i]);
            }
        }
    }
}

proof fn same_name_joins(a: Seq<char>, b: Seq<char>, c: Seq<char>)
    requires
        same_name(a, b, true),
        same_name(c, b, true) || same_name(b, c, true),
    ensures
        same_name(a, c, true),
{
    assert forall|i: int| 0 <= i < a.len() implies lower(#[trigger] a[i]) == lower(c[i]) by {
        assert(lower(b[i]) == lower(c[i])) by {
            if same_name(c, b, true) {
                assert(lower(c[i]) == lower(b[i]));
            }
        }
    }
}

} // verus!
