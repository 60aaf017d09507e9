//! Text: the questions the library asks of strings, each answered by a
//! verified function over the string's characters.

use vstd::prelude::*;
use vstd::utf8::{encode_scalar, encode_utf8};
use vstd::string::*;

verus! {

/// The characters of `s`, in order.
pub fn chars_of(s: &str) -> (r: Vec<char>)
    ensures
        r@ == s@,
{
    let mut out: Vec<char> = Vec::new();
    for c in it: s.chars()
        invariant
            it.seq() == s@,
            out@ == s@.take(it.index()),
    {
        out.push(c);
        proof {
            assert(s@.take(it.index() + 1) =~= s@.take(it.index()).push(s@[it.index()]));
        }
    }
    proof {
        assert(s@.take(s@.len() as int) =~= s@);
    }
    out
}

/// Whether two strings hold the same characters.
pub fn same_text(a: &str, b: &str) -> (r: bool)
    ensures
        r == (a@ == b@),
{
    a.to_owned() == b.to_owned()
}

/// The characters with the Unicode property `White_Space`.
pub open spec fn is_white(c: char) -> bool {
    ||| '\u{9}' <= c <= '\u{d}'
    ||| c == '\u{20}'
    ||| c == '\u{85}'
    ||| c == '\u{a0}'
    ||| c == '\u{1680}'
    ||| '\u{2000}' <= c <= '\u{200a}'
    ||| c == '\u{2028}'
    ||| c == '\u{2029}'
    ||| c == '\u{202f}'
    ||| c == '\u{205f}'
    ||| c == '\u{3000}'
}

/// Whether `c` is white space.
pub fn white(c: char) -> (r: bool)
    ensures
        r == is_white(c),
{
    ('\u{9}' <= c && c <= '\u{d}') || c == '\u{20}' || c == '\u{85}' || c == '\u{a0}' || c
        == '\u{1680}' || ('\u{2000}' <= c && c <= '\u{200a}') || c == '\u{2028}' || c == '\u{2029}'
        || c == '\u{202f}' || c == '\u{205f}' || c == '\u{3000}'
}

/// `s` without the white space it starts with.
pub open spec fn trimmed_front(s: Seq<char>) -> Seq<char>
    decreases s.len(),
{
    if s.len() > 0 && is_white(s[0]) {
        trimmed_front(s.drop_first())
    } else {
        s
    }
}

/// `s` without the white space it ends with.
pub open spec fn trimmed_back(s: Seq<char>) -> Seq<char>
    decreases s.len(),
{
    if s.len() > 0 && is_white(s.last()) {
        trimmed_back(s.drop_last())
    } else {
        s
    }
}

/// `s` without the white space at either end.
pub open spec fn trimmed(s: Seq<char>) -> Seq<char> {
    trimmed_back(trimmed_front(s))
}

/// `s` without the white space at either end.
pub fn trim(s: &str) -> (r: String)
    ensures
        r@ == trimmed(s@),
{
    let chars = chars_of(s);
    let n: usize = chars.len();
    let mut from: usize = 0;
    proof {
        assert(s@.skip(0) =~= s@);
    }
    while from < n && white(chars[from])
        invariant
            n == s@.len(),
            chars@ == s@,
            from <= n,
            trimmed_front(s@.skip(from as int)) == trimmed_front(s@),
        ensures
            from <= n,
            from == n || !is_white(s@[from as int]),
            trimmed_front(s@.skip(from as int)) == trimmed_front(s@),
        decreases n - from,
    {
        proof {
            assert(s@.skip(from as int).drop_first() =~= s@.skip(from + 1));
        }
        from = from + 1;
    }
    let ghost front = s@.skip(from as int);
    proof {
        assert(trimmed_front(s@) == front);
        assert(front.take(front.len() as int) =~= front);
    }
    let mut to: usize = n;
    while to > from && white(chars[to - 1])
        invariant
            n == s@.len(),
            chars@ == s@,
            from <= to <= n,
            front == s@.skip(from as int),
            trimmed_back(front.take(to - from)) == trimmed_back(front),
        ensures
            from <= to <= n,
            to == from || !is_white(s@[to - 1]),
            trimmed_back(front.take(to - from)) == trimmed_back(front),
        decreases to - from,
    {
        proof {
            assert(front.take(to - from).drop_last() =~= front.take(to - 1 - from));
        }
        to = to - 1;
    }
    proof {
        assert(front.take(to - from) =~= s@.subrange(from as int, to as int));
    }
    s.substring_char(from, to).to_owned()
}

/// Whether `s` starts with `prefix`.
pub fn has_prefix(s: &str, prefix: &str) -> (r: bool)
    ensures
        r == prefix@.is_prefix_of(s@),
{
    let chars = chars_of(s);
    let lead = chars_of(prefix);
    if lead.len() > chars.len() {
        return false;
    }
    let mut i: usize = 0;
    while i < lead.len()
        invariant
            chars@ == s@,
            lead@ == prefix@,
            i <= lead.len() <= chars.len(),
            forall|k: int| 0 <= k < i ==> s@[k] == prefix@[k],
        decreases lead.len() - i,
    {
        if chars[i] != lead[i] {
            proof {
                assert(s@.subrange(0, prefix@.len() as int)[i as int] == s@[i as int]);
            }
            return false;
        }
        i = i + 1;
    }
    proof {
        assert(prefix@ =~= s@.subrange(0, prefix@.len() as int));
    }
    true
}

/// Whether `part` stands somewhere in `s`.
pub open spec fn occurs_in(part: Seq<char>, s: Seq<char>) -> bool {
    exists|i: int| #[trigger] occurs_at(part, s, i)
}

/// Whether `part` stands in `s` from position `i` on.
pub open spec fn occurs_at(part: Seq<char>, s: Seq<char>, i: int) -> bool {
    0 <= i && i + part.len() <= s.len() && s.subrange(i, i + part.len()) == part
}

/// Whether `part` stands somewhere in `s`.
pub fn has_text(s: &str, part: &str) -> (r: bool)
    ensures
        r == occurs_in(part@, s@),
{
    let chars = chars_of(s);
    let want = chars_of(part);
    let n: usize = chars.len();
    let m: usize = want.len();
    if m > n {
        return false;
    }
    let mut i: usize = 0;
    while i <= n - m
        invariant
            chars@ == s@,
            want@ == part@,
            n == s@.len(),
            m == part@.len(),
            m <= n,
            i <= n - m + 1,
            forall|k: int| 0 <= k < i ==> !occurs_at(part@, s@, k),
        decreases n - m + 1 - i,
    {
        let mut j: usize = 0;
        while j < m && chars[i + j] == want[j]
            invariant
                chars@ == s@,
                want@ == part@,
                n == s@.len(),
                m == part@.len(),
                m <= n,
                i <= n - m,
                j <= m,
                forall|k: int| 0 <= k < j ==> s@[i + k] == part@[k],
            ensures
                j <= m,
                forall|k: int| 0 <= k < j ==> s@[i + k] == part@[k],
                j < m ==> s@[i + j] != part@[j as int],
            decreases m - j,
        {
            j = j + 1;
        }
        if j == m {
            proof {
                assert(s@.subrange(i as int, i + m) =~= part@);
                assert(occurs_at(part@, s@, i as int));
            }
            return true;
        }
        proof {
            assert(s@.subrange(i as int, i + m)[j as int] == s@[i + j]);
        }
        i = i + 1;
    }
    false
}

/// Whether the character `c` stands in `s`.
pub fn has_char(s: &str, c: char) -> (r: bool)
    ensures
        r == s@.contains(c),
{
    let chars = chars_of(s);
    let mut i: usize = 0;
    while i < chars.len()
        invariant
            chars@ == s@,
            i <= chars.len(),
            forall|k: int| 0 <= k < i ==> s@[k] != c,
        decreases chars.len() - i,
    {
        if chars[i] == c {
            proof {
                assert(s@[i as int] == c);
            }
            return true;
        }
        i = i + 1;
    }
    false
}

/// The order of strings: by the first character in which they differ, a
/// string before each one that it starts.
pub open spec fn text_before(a: Seq<char>, b: Seq<char>) -> bool
    decreases a.len(),
{
    if b.len() == 0 {
        false
    } else if a.len() == 0 {
        true
    } else if a[0] != b[0] {
        a[0] < b[0]
    } else {
        text_before(a.drop_first(), b.drop_first())
    }
}

/// Whether `a` comes before `b`.
pub fn before(a: &str, b: &str) -> (r: bool)
    ensures
        r == text_before(a@, b@),
{
    let left = chars_of(a);
    let right = chars_of(b);
    let mut i: usize = 0;
    proof {
        assert(a@.skip(0) =~= a@);
        assert(b@.skip(0) =~= b@);
    }
    loop
        invariant
            left@ == a@,
            right@ == b@,
            i <= left.len(),
            i <= right.len(),
            text_before(a@, b@) == text_before(a@.skip(i as int), b@.skip(i as int)),
        decreases left.len() - i,
    {
        if i >= right.len() {
            return false;
        }
        if i >= left.len() {
            return true;
        }
        if left[i] != right[i] {
            return left[i] < right[i];
        }
        proof {
            assert(a@.skip(i as int).drop_first() =~= a@.skip(i + 1));
            assert(b@.skip(i as int).drop_first() =~= b@.skip(i + 1));
        }
        i = i + 1;
    }
}

/// No string comes before itself.
pub proof fn text_order_irreflexive(a: Seq<char>)
    ensures
        !text_before(a, a),
    decreases a.len(),
{
    if a.len() > 0 {
        text_order_irreflexive(a.drop_first());
    }
}

/// Of two strings at most one comes before the other.
pub proof fn text_order_asymmetric(a: Seq<char>, b: Seq<char>)
    ensures
        !(text_before(a, b) && text_before(b, a)),
{
    if text_before(a, b) && text_before(b, a) {
        text_order_transitive(a, b, a);
        text_order_irreflexive(a);
    }
}

/// Of two strings neither of which comes before the other, both are the same.
pub proof fn text_order_total(a: Seq<char>, b: Seq<char>)
    ensures
        text_before(a, b) || text_before(b, a) || a == b,
    decreases a.len(),
{
    if a.len() > 0 && b.len() > 0 && a[0] == b[0] {
        text_order_total(a.drop_first(), b.drop_first());
        if a.drop_first() == b.drop_first() {
            assert(a =~= seq![a[0]] + a.drop_first());
            assert(b =~= seq![b[0]] + b.drop_first());
        }
    } else if a.len() == 0 && b.len() == 0 {
        assert(a =~= b);
    }
}

/// A string before a second one, which is before a third, is before the third.
pub proof fn text_order_transitive(a: Seq<char>, b: Seq<char>, c: Seq<char>)
    requires
        text_before(a, b),
        text_before(b, c),
    ensures
        text_before(a, c),
    decreases a.len(),
{
    if a.len() > 0 && a[0] == b[0] && b[0] == c[0] {
        text_order_transitive(a.drop_first(), b.drop_first(), c.drop_first());
    }
}

/// The digit character of `d`.
pub open spec fn digit(d: int) -> char {
    if d == 0 {
        '0'
    } else if d == 1 {
        '1'
    } else if d == 2 {
        '2'
    } else if d == 3 {
        '3'
    } else if d == 4 {
        '4'
    } else if d == 5 {
        '5'
    } else if d == 6 {
        '6'
    } else if d == 7 {
        '7'
    } else if d == 8 {
        '8'
    } else {
        '9'
    }
}

/// The decimal digits of `n`, without leading zeros.
pub open spec fn digits(n: nat) -> Seq<char>
    decreases n,
{
    if n < 10 {
        seq![digit(n as int)]
    } else {
        digits(n / 10).push(digit((n % 10) as int))
    }
}

/// `n` in decimal.
pub open spec fn decimal(n: int) -> Seq<char> {
    if n < 0 {
        seq!['-'] + digits((-n) as nat)
    } else {
        digits(n as nat)
    }
}

fn digit_text(d: u64) -> (r: String)
    requires
        d < 10,
    ensures
        r@ == seq![digit(d as int)],
{
    proof {
        reveal_strlit("0");
        reveal_strlit("1");
        reveal_strlit("2");
        reveal_strlit("3");
        reveal_strlit("4");
        reveal_strlit("5");
        reveal_strlit("6");
        reveal_strlit("7");
        reveal_strlit("8");
        reveal_strlit("9");
    }
    let text: &str = if d == 0 {
        "0"
    } else if d == 1 {
        "1"
    } else if d == 2 {
        "2"
    } else if d == 3 {
        "3"
    } else if d == 4 {
        "4"
    } else if d == 5 {
        "5"
    } else if d == 6 {
        "6"
    } else if d == 7 {
        "7"
    } else if d == 8 {
        "8"
    } else {
        "9"
    };
    proof {
        assert(text@ =~= seq![digit(d as int)]);
    }
    text.to_owned()
}

/// `n` in decimal.
pub fn unsigned_text(n: u64) -> (r: String)
    ensures
        r@ == decimal(n as int),
    decreases n,
{
    if n < 10 {
        digit_text(n)
    } else {
        let last = digit_text(n % 10);
        let lead = unsigned_text(n / 10);
        proof {
            assert(lead@ + last@ =~= digits((n / 10) as nat).push(digit((n % 10) as int)));
        }
        lead.concat(last.as_str())
    }
}

/// `n` in decimal.
pub fn signed_text(n: i64) -> (r: String)
    ensures
        r@ == decimal(n as int),
{
    if n < 0 {
        proof {
            reveal_strlit("-");
            assert("-"@ =~= seq!['-']);
        }
        let size: u64 = if n == i64::MIN {
            9_223_372_036_854_775_808
        } else {
            (-n) as u64
        };
        "-".to_owned().concat(unsigned_text(size).as_str())
    } else {
        unsigned_text(n as u64)
    }
}

/// The texts in `parts`, one after the other with `separator` between them.
pub open spec fn joined(parts: Seq<Seq<char>>, separator: Seq<char>) -> Seq<char>
    decreases parts.len(),
{
    if parts.len() == 0 {
        Seq::empty()
    } else if parts.len() == 1 {
        parts[0]
    } else {
        joined(parts.drop_last(), separator) + separator + parts.last()
    }
}

/// The characters of each string in `list`.
pub open spec fn texts(list: Seq<String>) -> Seq<Seq<char>> {
    list.map_values(|s: String| s@)
}

/// The texts in `parts`, one after the other with `separator` between them.
pub fn join(parts: &Vec<String>, separator: &str) -> (r: String)
    ensures
        r@ == joined(texts(parts@), separator@),
{
    let mut out = String::new();
    let mut i: usize = 0;
    let ghost all = texts(parts@);
    while i < parts.len()
        invariant
            i <= parts.len(),
            all == texts(parts@),
            out@ == joined(all.take(i as int), separator@),
        decreases parts.len() - i,
    {
        proof {
            assert(all.take(i + 1).drop_last() =~= all.take(i as int));
        }
        if i > 0 {
            out.append(separator);
        }
        out.append(parts[i].as_str());
        proof {
            if i == 0 {
                assert(out@ =~= all.take(1)[0]);
            }
        }
        i = i + 1;
    }
    proof {
        assert(all.take(parts.len() as int) =~= all);
    }
    out
}

/// The number of bytes of `s` in UTF-8.
pub open spec fn utf8_len(s: Seq<char>) -> nat {
    encode_utf8(s).len()
}

/// The number of bytes of `s` in UTF-8.
pub fn byte_len(s: &str) -> (r: usize)
    ensures
        r == utf8_len(s@),
{
    s.as_bytes().len()
}

/// The runs of `s` between its line feeds, empty ones included.
pub open spec fn line_runs(s: Seq<char>) -> Seq<Seq<char>>
    decreases s.len(),
{
    if s.len() == 0 {
        seq![Seq::empty()]
    } else {
        let before = line_runs(s.drop_last());
        if s.last() == '\n' {
            before.push(Seq::empty())
        } else {
            before.drop_last().push(before.last().push(s.last()))
        }
    }
}

/// `run` without a carriage return at its end.
pub open spec fn without_return(run: Seq<char>) -> Seq<char> {
    if run.len() > 0 && run.last() == '\r' {
        run.drop_last()
    } else {
        run
    }
}

/// The lines of `s`: each ends with a line feed, with or without a carriage
/// return before it, or with the end of `s`.
pub open spec fn lines(s: Seq<char>) -> Seq<Seq<char>> {
    let runs = line_runs(s);
    let ended = runs.drop_last().map_values(|run: Seq<char>| without_return(run));
    if runs.last().len() == 0 {
        ended
    } else {
        ended.push(runs.last())
    }
}

/// The lines of `s`.
pub fn lines_of(s: &str) -> (r: Vec<String>)
    ensures
        texts(r@) == lines(s@),
{
    let chars = chars_of(s);
    let n: usize = chars.len();
    let mut out: Vec<String> = Vec::new();
    let mut start: usize = 0;
    let mut i: usize = 0;
    proof {
        assert(s@.take(0) =~= Seq::empty());
        assert(line_runs(s@.take(0)).drop_last() =~= Seq::empty());
        assert(texts(out@) =~= Seq::<Seq<char>>::empty().map_values(
            |run: Seq<char>| without_return(run),
        ));
        assert(s@.subrange(0, 0) =~= Seq::empty());
    }
    while i < n
        invariant
            chars@ == s@,
            n == s@.len(),
            start <= i <= n,
            line_runs(s@.take(i as int)).len() > 0,
            line_runs(s@.take(i as int)).last() == s@.subrange(start as int, i as int),
            texts(out@) == line_runs(s@.take(i as int)).drop_last().map_values(
                |run: Seq<char>| without_return(run),
            ),
        decreases n - i,
    {
        let ghost now = line_runs(s@.take(i as int));
        let ghost next = line_runs(s@.take(i + 1));
        let ghost strip = |run: Seq<char>| without_return(run);
        proof {
            assert(s@.take(i + 1).drop_last() =~= s@.take(i as int));
            assert(s@.take(i + 1).last() == s@[i as int]);
        }
        if chars[i] == '\n' {
            let end: usize = if i > start && chars[i - 1] == '\r' {
                i - 1
            } else {
                i
            };
            let ghost had = texts(out@);
            let line = s.substring_char(start, end).to_owned();
            out.push(line);
            proof {
                assert(line@ =~= without_return(now.last()));
                assert(texts(out@) =~= had.push(line@));
                assert(next.drop_last() =~= now);
                assert(now =~= now.drop_last().push(now.last()));
                assert(now.map_values(strip) =~= now.drop_last().map_values(strip).push(
                    without_return(now.last()),
                ));
                assert(s@.subrange(i + 1, i + 1) =~= Seq::empty());
            }
            start = i + 1;
        } else {
            proof {
                assert(next.drop_last() =~= now.drop_last());
                assert(s@.subrange(start as int, i as int).push(s@[i as int]) =~= s@.subrange(
                    start as int,
                    i + 1,
                ));
            }
        }
        i = i + 1;
    }
    proof {
        assert(s@.take(n as int) =~= s@);
    }
    if start < n {
        let ghost had = texts(out@);
        let line = s.substring_char(start, n).to_owned();
        out.push(line);
        proof {
            assert(texts(out@) =~= had.push(line@));
        }
    }
    out
}

proof fn line_runs_not_empty(s: Seq<char>)
    ensures
        line_runs(s).len() > 0,
    decreases s.len(),
{
    if s.len() > 0 {
        line_runs_not_empty(s.drop_last());
    }
}

proof fn line_runs_extend(s: Seq<char>, tail: Seq<char>)
    requires
        !tail.contains('\n'),
    ensures
        line_runs(s).len() > 0,
        line_runs(s + tail) == line_runs(s).drop_last().push(line_runs(s).last() + tail),
    decreases tail.len(),
{
    line_runs_not_empty(s);
    if tail.len() == 0 {
        assert(s + tail =~= s);
        assert(line_runs(s).last() + tail =~= line_runs(s).last());
        assert(line_runs(s).drop_last().push(line_runs(s).last()) =~= line_runs(s));
    } else {
        let head = tail.drop_last();
        assert(tail.last() == tail[tail.len() - 1]);
        assert(!head.contains('\n')) by {
            if head.contains('\n') {
                let k = choose|k: int| 0 <= k < head.len() && head[k] == '\n';
                assert(tail[k] == '\n');
            }
        }
        line_runs_extend(s, head);
        assert((s + tail).drop_last() =~= s + head);
        assert((s + tail).last() == tail.last());
        let before = line_runs(s + head);
        assert(before.drop_last() =~= line_runs(s).drop_last());
        assert((line_runs(s).last() + head).push(tail.last()) =~= line_runs(s).last() + tail);
    }
}

/// `log` with the line `line` after it, on a line of its own.
pub open spec fn with_line(log: Seq<char>, line: Seq<char>) -> Seq<char> {
    if log.len() > 0 && log.last() != '\n' {
        log + seq!['\n'] + line + seq!['\n']
    } else {
        log + line + seq!['\n']
    }
}

/// The lines of `log` once its last line is ended: where `log` broke off after a
/// carriage return, that return becomes part of the line end.
pub open spec fn ended_lines(log: Seq<char>) -> Seq<Seq<char>> {
    if log.len() > 0 && log.last() == '\r' {
        lines(log).drop_last().push(without_return(lines(log).last()))
    } else {
        lines(log)
    }
}

/// A line that is put after a text is one more line of it, also where the text
/// broke off in the middle of a line.
pub proof fn line_is_appended(log: Seq<char>, line: Seq<char>)
    requires
        !line.contains('\n'),
        !line.contains('\r'),
    ensures
        log.len() > 0 && log.last() == '\r' ==> lines(log).len() > 0,
        lines(with_line(log, line)) == ended_lines(log).push(line),
{
    let strip = |run: Seq<char>| without_return(run);
    line_runs_not_empty(log);
    let runs = line_runs(log);
    let base = if log.len() > 0 && log.last() != '\n' {
        log + seq!['\n']
    } else {
        log
    };
    let torn = log.len() > 0 && log.last() != '\n';
    if torn {
        assert(base.drop_last() =~= log);
        assert(line_runs(base) =~= runs.push(Seq::empty()));
    }
    let base_runs = line_runs(base);
    line_runs_not_empty(base);
    assert(base_runs.last().len() == 0) by {
        if !torn && log.len() > 0 {
            line_runs_not_empty(log.drop_last());
        }
    }
    line_runs_extend(base, line);
    assert(base_runs.last() + line =~= line);
    let whole = base + line + seq!['\n'];
    assert(whole.drop_last() =~= base + line);
    assert(line_runs(whole) =~= base_runs.drop_last().push(line).push(Seq::empty()));
    assert(with_line(log, line) =~= whole);
    assert(line_runs(whole).drop_last() =~= base_runs.drop_last().push(line));
    assert(without_return(line) == line) by {
        if line.len() > 0 {
            assert(line.last() == line[line.len() - 1]);
        }
    }
    assert(base_runs.drop_last().push(line).map_values(strip) =~= base_runs.drop_last().map_values(
        strip,
    ).push(line));
    if torn {
        assert(base_runs.drop_last() =~= runs);
        line_runs_not_empty(log.drop_last());
        assert(runs.last().len() > 0);
        assert(runs.last().last() == log.last());
        assert(runs =~= runs.drop_last().push(runs.last()));
        let ended = runs.drop_last().map_values(strip);
        assert(runs.map_values(strip) =~= ended.push(without_return(runs.last())));
        assert(lines(log) == ended.push(runs.last()));
        assert(ended.push(runs.last()).drop_last() =~= ended);
    }
}

/// The start of `s` that takes no more than `limit` bytes: `s` without as many
/// characters at its end as are too many.
pub open spec fn clipped(s: Seq<char>, limit: nat) -> Seq<char>
    decreases s.len(),
{
    if s.len() == 0 || utf8_len(s) <= limit {
        s
    } else {
        clipped(s.drop_last(), limit)
    }
}

proof fn utf8_len_push(s: Seq<char>, c: char)
    ensures
        utf8_len(s.push(c)) == utf8_len(s) + encode_scalar(c as u32).len(),
    decreases s.len(),
{
    let more = s.push(c);
    if s.len() == 0 {
        assert(more.drop_first() =~= Seq::empty());
        assert(s =~= Seq::empty());
        reveal_with_fuel(encode_utf8, 2);
    } else {
        assert(more.drop_first() =~= s.drop_first().push(c));
        utf8_len_push(s.drop_first(), c);
    }
}

proof fn utf8_len_grows(s: Seq<char>, i: int, j: int)
    requires
        0 <= i <= j <= s.len(),
    ensures
        utf8_len(s.take(i)) <= utf8_len(s.take(j)),
    decreases j - i,
{
    if i < j {
        utf8_len_grows(s, i, j - 1);
        assert(s.take(j) =~= s.take(j - 1).push(s[j - 1]));
        utf8_len_push(s.take(j - 1), s[j - 1]);
    }
}

proof fn clipped_is_take(s: Seq<char>, limit: nat, i: int, j: int)
    requires
        0 <= i <= j <= s.len(),
        utf8_len(s.take(i)) <= limit,
        i < s.len() ==> utf8_len(s.take(i + 1)) > limit,
    ensures
        clipped(s.take(j), limit) == s.take(i),
    decreases j,
{
    if i < j {
        utf8_len_grows(s, i + 1, j);
        assert(s.take(j).drop_last() =~= s.take(j - 1));
        clipped_is_take(s, limit, i, j - 1);
    }
}

fn char_bytes(c: char) -> (r: usize)
    ensures
        r == encode_scalar(c as u32).len(),
        r <= 4,
{
    let code: u32 = c as u32;
    if code <= 0x7f {
        1
    } else if code <= 0x7ff {
        2
    } else if code <= 0xffff {
        3
    } else {
        4
    }
}

/// The start of `s` that takes no more than `limit` bytes.
pub fn clip(s: &str, limit: usize) -> (r: String)
    ensures
        r@ == clipped(s@, limit as nat),
{
    let chars = chars_of(s);
    let n: usize = chars.len();
    let mut bytes: usize = 0;
    let mut i: usize = 0;
    proof {
        assert(s@.take(0) =~= Seq::empty());
    }
    while i < n
        invariant
            chars@ == s@,
            n == s@.len(),
            i <= n,
            bytes == utf8_len(s@.take(i as int)),
            bytes <= limit,
        decreases n - i,
    {
        let width: usize = char_bytes(chars[i]);
        proof {
            assert(s@.take(i + 1) =~= s@.take(i as int).push(s@[i as int]));
            utf8_len_push(s@.take(i as int), s@[i as int]);
        }
        if width > limit - bytes {
            proof {
                clipped_is_take(s@, limit as nat, i as int, n as int);
                assert(s@.take(n as int) =~= s@);
                assert(s@.subrange(0, i as int) =~= s@.take(i as int));
            }
            return s.substring_char(0, i).to_owned();
        }
        bytes = bytes + width;
        i = i + 1;
    }
    proof {
        assert(s@.take(n as int) =~= s@);
    }
    s.to_owned()
}

/// What is left after clipping is a start of the text, takes no more bytes than
/// allowed, and is the longest such start.
pub proof fn clipped_is_longest(s: Seq<char>, limit: nat)
    ensures
        clipped(s, limit).len() <= s.len(),
        clipped(s, limit) == s.take(clipped(s, limit).len() as int),
        utf8_len(clipped(s, limit)) <= limit,
        forall|j: int|
            clipped(s, limit).len() < j <= s.len() ==> utf8_len(#[trigger] s.take(j)) > limit,
    decreases s.len(),
{
    if s.len() == 0 || utf8_len(s) <= limit {
        assert(s.take(s.len() as int) =~= s);
    } else {
        let head = s.drop_last();
        clipped_is_longest(head, limit);
        let n = clipped(s, limit).len() as int;
        assert(head.take(n) =~= s.take(n));
        assert forall|j: int| n < j <= s.len() implies utf8_len(#[trigger] s.take(j)) > limit by {
            if j == s.len() {
                assert(s.take(j) =~= s);
            } else {
                assert(s.take(j) =~= head.take(j));
            }
        }
    }
}

/// `s` in quotes, with its special characters escaped, as Rust source writes it.
pub uninterp spec fn debug_text(s: Seq<char>) -> Seq<char>;

/// The `Debug` impl of `str`: the string in quotes, with its special characters
/// escaped.
#[verifier::external_body]
pub(crate) fn debug_quoted(s: &str) -> (r: String)
    ensures
        r@ == debug_text(s@),
{
    format!("{s:?}")
}

} // verus!
