//! Text and numbers: what the functions on strings say of their characters.

use crate::arith::{elapsed_seconds, saturated, whole_seconds};
use crate::digest::{content_hash, hex_digit, hex_of, sha256_of};
use crate::json::{json_encoding, JsonTree};
use crate::text::{
    decimal, digit, digits, ended_lines, is_white, joined, line_runs, lines, occurs_at, occurs_in,
    text_before, trimmed, trimmed_back, trimmed_front, utf8_len, with_line, without_return,
};
use vstd::prelude::*;
use vstd::utf8::encode_utf8;

verus! {

/// The white space characters, by their code points.
pub proof fn white_space_is_that_of_unicode(c: char)
    ensures
        is_white(c) <==> {
            let code = c as int;
            ||| 9 <= code <= 13
            ||| code == 32
            ||| code == 133
            ||| code == 160
            ||| code == 5760
            ||| 8192 <= code <= 8202
            ||| code == 8232
            ||| code == 8233
            ||| code == 8239
            ||| code == 8287
            ||| code == 12288
        },
{
}

proof fn front_is_cut(s: Seq<char>) -> (i: int)
    ensures
        0 <= i <= s.len(),
        trimmed_front(s) == s.skip(i),
        forall|k: int| 0 <= k < i ==> is_white(#[trigger] s[k]),
        i < s.len() ==> !is_white(s[i]),
    decreases s.len(),
{
    if s.len() > 0 && is_white(s[0]) {
        let rest = s.drop_first();
        let i = front_is_cut(rest);
        assert(rest.skip(i) =~= s.skip(i + 1));
        assert forall|k: int| 0 <= k < i + 1 implies is_white(#[trigger] s[k]) by {
            if k > 0 {
                assert(rest[k - 1] == s[k]);
            }
        }
        if i + 1 < s.len() {
            assert(rest[i] == s[i + 1]);
        }
        i + 1
    } else {
        assert(s.skip(0) =~= s);
        0
    }
}

proof fn back_is_cut(s: Seq<char>) -> (j: int)
    ensures
        0 <= j <= s.len(),
        trimmed_back(s) == s.take(j),
        forall|k: int| j <= k < s.len() ==> is_white(#[trigger] s[k]),
        j > 0 ==> !is_white(s[j - 1]),
    decreases s.len(),
{
    if s.len() > 0 && is_white(s.last()) {
        let rest = s.drop_last();
        let j = back_is_cut(rest);
        assert(rest.take(j) =~= s.take(j));
        assert forall|k: int| j <= k < s.len() implies is_white(#[trigger] s[k]) by {
            if k < rest.len() {
                assert(rest[k] == s[k]);
            }
        }
        if j > 0 {
            assert(rest[j - 1] == s[j - 1]);
        }
        j
    } else {
        assert(s.take(s.len() as int) =~= s);
        s.len() as int
    }
}

/// Trimming takes off the white space at both ends, all of it and nothing else. The
/// result gives where what is left starts and ends.
pub proof fn trimming_cuts_white_space(s: Seq<char>) -> (cut: (int, int))
    ensures
        0 <= cut.0 <= cut.1 <= s.len(),
        trimmed(s) == s.subrange(cut.0, cut.1),
        forall|k: int| 0 <= k < cut.0 ==> is_white(#[trigger] s[k]),
        forall|k: int| cut.1 <= k < s.len() ==> is_white(#[trigger] s[k]),
        cut.0 < cut.1 ==> !is_white(s[cut.0]) && !is_white(s[cut.1 - 1]),
        trimmed(s).len() == 0 <==> forall|k: int| 0 <= k < s.len() ==> is_white(#[trigger] s[k]),
{
    let i = front_is_cut(s);
    let front = s.skip(i);
    let j = back_is_cut(front);
    assert(front.take(j) =~= s.subrange(i, i + j));
    assert forall|k: int| i + j <= k < s.len() implies is_white(#[trigger] s[k]) by {
        assert(front[k - i] == s[k]);
    }
    if j > 0 {
        assert(front[j - 1] == s[i + j - 1]);
    }
    if j > 0 {
        assert(!is_white(s[i])) by {
            assert(i < s.len());
        }
    }
    (i, i + j)
}

/// A text stands in another where all its characters do, one after the other.
pub proof fn occurrence_is_character_by_character(part: Seq<char>, s: Seq<char>)
    ensures
        occurs_in(part, s) <==> exists|i: int|
            0 <= i && i + part.len() <= s.len() && #[trigger] s.subrange(i, i + part.len()) == part,
        forall|i: int|
            0 <= i && i + part.len() <= s.len() && (forall|k: int|
                0 <= k < part.len() ==> s[i + k] == #[trigger] part[k]) ==> #[trigger] occurs_at(
                part,
                s,
                i,
            ),
        occurs_in(part, s) ==> part.len() <= s.len(),
{
    assert forall|i: int|
        0 <= i && i + part.len() <= s.len() && (forall|k: int|
            0 <= k < part.len() ==> s[i + k] == #[trigger] part[k]) implies #[trigger] occurs_at(
        part,
        s,
        i,
    ) by {
        assert(s.subrange(i, i + part.len()) =~= part);
    }
    if occurs_in(part, s) {
        let i = choose|i: int| #[trigger] occurs_at(part, s, i);
        assert(s.subrange(i, i + part.len()) == part);
    }
    if exists|i: int|
        0 <= i && i + part.len() <= s.len() && #[trigger] s.subrange(i, i + part.len()) == part {
        let i = choose|i: int|
            0 <= i && i + part.len() <= s.len() && #[trigger] s.subrange(i, i + part.len())
                == part;
        assert(occurs_at(part, s, i));
    }
}

/// Of two texts one comes first that ends where the other goes on, or that has the lesser
/// character where they first differ.
pub proof fn text_order_is_by_first_difference(a: Seq<char>, b: Seq<char>)
    ensures
        text_before(a, b) <==> exists|n: int|
            0 <= n <= a.len() && n < b.len() && #[trigger] a.take(n) == b.take(n) && (n == a.len()
                || a[n] < b[n]),
    decreases a.len(),
{
    if a.len() > 0 && b.len() > 0 && a[0] == b[0] {
        let x = a.drop_first();
        let y = b.drop_first();
        text_order_is_by_first_difference(x, y);
        if text_before(x, y) {
            let n = choose|n: int|
                0 <= n <= x.len() && n < y.len() && #[trigger] x.take(n) == y.take(n) && (n
                    == x.len() || x[n] < y[n]);
            assert(a.take(n + 1) =~= b.take(n + 1)) by {
                assert forall|k: int| 0 <= k < n + 1 implies a[k] == b[k] by {
                    if k > 0 {
                        assert(x.take(n)[k - 1] == y.take(n)[k - 1]);
                    }
                }
            }
        }
        if exists|n: int|
            0 <= n <= a.len() && n < b.len() && #[trigger] a.take(n) == b.take(n) && (n == a.len()
                || a[n] < b[n]) {
            let n = choose|n: int|
                0 <= n <= a.len() && n < b.len() && #[trigger] a.take(n) == b.take(n) && (n
                    == a.len() || a[n] < b[n]);
            assert(n > 0);
            assert(x.take(n - 1) =~= y.take(n - 1)) by {
                assert forall|k: int| 0 <= k < n - 1 implies x[k] == y[k] by {
                    assert(a.take(n)[k + 1] == b.take(n)[k + 1]);
                }
            }
        }
    } else if b.len() > 0 {
        assert(a.take(0) =~= b.take(0));
        if exists|n: int|
            0 <= n <= a.len() && n < b.len() && #[trigger] a.take(n) == b.take(n) && (n == a.len()
                || a[n] < b[n]) {
            let n = choose|n: int|
                0 <= n <= a.len() && n < b.len() && #[trigger] a.take(n) == b.take(n) && (n
                    == a.len() || a[n] < b[n]);
            if n > 0 {
                assert(a.take(n)[0] == b.take(n)[0]);
            }
        }
    }
}

/// The number that a text of decimal digits stands for.
pub open spec fn number_of(s: Seq<char>) -> int
    decreases s.len(),
{
    if s.len() == 0 {
        0
    } else {
        10 * number_of(s.drop_last()) + (s.last() as int - 48)
    }
}

proof fn digits_read_back(n: nat)
    ensures
        number_of(digits(n)) == n,
        digits(n).len() > 0,
        forall|i: int| 0 <= i < digits(n).len() ==> '0' <= #[trigger] digits(n)[i] <= '9',
        n > 0 ==> digits(n)[0] != '0',
        n == 0 ==> digits(n).len() == 1,
    decreases n,
{
    let d = digits(n);
    if n < 10 {
        assert(d.drop_last() =~= Seq::empty());
        assert(number_of(d.drop_last()) == 0);
    } else {
        digits_read_back(n / 10);
        assert(d.drop_last() =~= digits(n / 10));
        assert(d.last() as int - 48 == n % 10);
    }
}

/// A number in decimal reads back as itself: its digits, without a leading zero, after a
/// minus where it is negative.
pub proof fn decimal_reads_back(n: int)
    ensures
        n >= 0 ==> number_of(decimal(n)) == n,
        n < 0 ==> decimal(n)[0] == '-' && number_of(decimal(n).skip(1)) == -n,
        forall|i: int|
            (if n < 0 { 1int } else { 0int }) <= i < decimal(n).len() ==> '0' <= #[trigger] decimal(
                n,
            )[i] <= '9',
        n > 0 ==> decimal(n)[0] != '0',
        n < 0 ==> decimal(n)[1] != '0',
        n == 0 ==> decimal(n) == seq!['0'],
{
    if n < 0 {
        digits_read_back((-n) as nat);
        assert(decimal(n).skip(1) =~= digits((-n) as nat));
    } else {
        digits_read_back(n as nat);
    }
}

/// Texts are joined with the separator between each two of them, and nowhere else.
pub proof fn joining_puts_separators_between(
    a: Seq<Seq<char>>,
    b: Seq<Seq<char>>,
    part: Seq<char>,
    separator: Seq<char>,
)
    ensures
        joined(Seq::empty(), separator) == Seq::<char>::empty(),
        joined(seq![part], separator) == part,
        a.len() > 0 && b.len() > 0 ==> joined(a + b, separator) == joined(a, separator)
            + separator + joined(b, separator),
    decreases b.len(),
{
    if a.len() > 0 && b.len() > 0 {
        let head = b.drop_last();
        assert((a + b).drop_last() =~= a + head);
        if head.len() == 0 {
            assert(a + head =~= a);
            assert(joined(a + b, separator) =~= joined(a, separator) + separator + b[0]);
        } else {
            joining_puts_separators_between(a, head, part, separator);
            assert(joined(a + b, separator) =~= joined(a, separator) + separator + (joined(
                head,
                separator,
            ) + separator + b.last()));
        }
    }
}

/// The bytes of a text are those of its characters: one for each up to U+007F, two up to
/// U+07FF, three up to U+FFFF, and four above.
pub proof fn bytes_are_counted_by_character(s: Seq<char>, c: char)
    ensures
        utf8_len(Seq::empty()) == 0,
        utf8_len(s.push(c)) == utf8_len(s) + (if c as int <= 0x7f {
            1int
        } else if c as int <= 0x7ff {
            2
        } else if c as int <= 0xffff {
            3
        } else {
            4
        }),
    decreases s.len(),
{
    let more = s.push(c);
    if s.len() == 0 {
        assert(more.drop_first() =~= Seq::empty());
        assert(s =~= Seq::empty());
        reveal_with_fuel(encode_utf8, 2);
    } else {
        assert(more.drop_first() =~= s.drop_first().push(c));
        bytes_are_counted_by_character(s.drop_first(), c);
    }
}

proof fn runs_of_joined(a: Seq<char>, b: Seq<char>)
    requires
        a.len() == 0 || a.last() == '\n',
    ensures
        line_runs(a).len() > 0,
        line_runs(b).len() > 0,
        line_runs(a).last().len() == 0,
        line_runs(a + b) == line_runs(a).drop_last() + line_runs(b),
    decreases b.len(),
{
    runs_are_there(a);
    runs_are_there(b);
    if a.len() > 0 {
        runs_are_there(a.drop_last());
    }
    if b.len() == 0 {
        assert(a + b =~= a);
        assert(line_runs(a).drop_last() + line_runs(b) =~= line_runs(a)) by {
            assert(line_runs(a).last() =~= Seq::empty());
        }
    } else {
        let head = b.drop_last();
        runs_of_joined(a, head);
        assert((a + b).drop_last() =~= a + head);
        assert((a + b).last() == b.last());
        assert(line_runs(a + b) =~= line_runs(a).drop_last() + line_runs(b));
    }
}

proof fn runs_are_there(s: Seq<char>)
    ensures
        line_runs(s).len() > 0,
    decreases s.len(),
{
    if s.len() > 0 {
        runs_are_there(s.drop_last());
    }
}

proof fn run_without_feed(s: Seq<char>)
    requires
        !s.contains('\n'),
    ensures
        line_runs(s) == seq![s],
    decreases s.len(),
{
    if s.len() > 0 {
        let head = s.drop_last();
        assert(s.last() == s[s.len() - 1]);
        assert(!head.contains('\n')) by {
            if head.contains('\n') {
                let k = choose|k: int| 0 <= k < head.len() && head[k] == '\n';
                assert(s[k] == '\n');
            }
        }
        run_without_feed(head);
        assert(head.push(s.last()) =~= s);
        assert(line_runs(s) =~= seq![s]);
    } else {
        assert(s =~= Seq::empty());
    }
}

/// The lines of a text: none of an empty one, the text itself where it has no line feed;
/// each line feed ends a line, which is without a carriage return before it.
pub proof fn lines_end_at_line_feeds(line: Seq<char>, a: Seq<char>, b: Seq<char>)
    requires
        !line.contains('\n'),
        a.len() == 0 || a.last() == '\n',
    ensures
        lines(Seq::empty()).len() == 0,
        line.len() > 0 ==> lines(line) == seq![line],
        line.len() > 0 && line.last() == '\r' ==> lines(line.push('\n')) == seq![
            line.drop_last(),
        ],
        line.len() == 0 || line.last() != '\r' ==> lines(line.push('\n')) == seq![line],
        lines(a + b) == lines(a) + lines(b),
{
    let strip = |run: Seq<char>| without_return(run);
    run_without_feed(line);
    run_without_feed(Seq::empty());
    let nothing: Seq<char> = Seq::empty();
    assert(seq![nothing].drop_last() =~= Seq::empty());
    assert(lines(nothing) =~= Seq::empty());
    assert(seq![line].drop_last() =~= Seq::empty());
    if line.len() > 0 {
        assert(lines(line) =~= seq![line]);
    }
    assert(line.push('\n').drop_last() =~= line);
    assert(line_runs(line.push('\n')) =~= seq![line, nothing]);
    assert(seq![line, nothing].drop_last() =~= seq![line]);
    assert(lines(line.push('\n')) =~= seq![without_return(line)]);
    runs_of_joined(a, b);
    let left = line_runs(a).drop_last();
    let right = line_runs(b);
    assert((left + right).drop_last() =~= left + right.drop_last());
    assert((left + right).last() == right.last());
    assert((left + right.drop_last()).map_values(strip) =~= left.map_values(strip)
        + right.drop_last().map_values(strip));
    assert(lines(a + b) =~= lines(a) + lines(b));
}

/// A line that is put after a log stands at its end, on a line of its own, and the log
/// before it stays as it is.
pub proof fn line_stands_at_the_end(log: Seq<char>, line: Seq<char>)
    ensures
        ({
            let whole = with_line(log, line);
            let start = whole.len() - line.len() - 1;
            &&& whole.len() == log.len() + line.len() + (if log.len() > 0 && log.last() != '\n' {
                2int
            } else {
                1int
            })
            &&& whole.take(log.len() as int) == log
            &&& whole.last() == '\n'
            &&& whole.subrange(start, whole.len() - 1) == line
            &&& start > 0 ==> whole[start - 1] == '\n'
        }),
{
    let whole = with_line(log, line);
    let start = whole.len() - line.len() - 1;
    assert(whole.take(log.len() as int) =~= log);
    assert(whole.subrange(start, whole.len() - 1) =~= line);
}

/// A log whose last line is ended has the same lines, but for a carriage return at its
/// end, which becomes part of the line end.
pub proof fn ended_log_keeps_its_lines(log: Seq<char>)
    ensures
        log.len() == 0 || log.last() != '\r' ==> ended_lines(log) == lines(log),
        log.len() > 0 && log.last() == '\r' && lines(log).len() > 0 ==> {
            &&& ended_lines(log).len() == lines(log).len()
            &&& forall|i: int|
                0 <= i < lines(log).len() - 1 ==> #[trigger] ended_lines(log)[i] == lines(log)[i]
            &&& lines(log).last().len() > 0 && lines(log).last().last() == '\r' ==> ended_lines(
                log,
            ).last() == lines(log).last().drop_last()
        },
{
}

/// A number that fits is itself; another one is the nearest that does.
pub proof fn saturation_is_nearest(n: int)
    ensures
        -0x8000_0000_0000_0000 <= n <= 0x7fff_ffff_ffff_ffff ==> saturated(n) == n,
        n < -0x8000_0000_0000_0000 ==> saturated(n) == -0x8000_0000_0000_0000,
        n > 0x7fff_ffff_ffff_ffff ==> saturated(n) == 0x7fff_ffff_ffff_ffff,
{
}

/// Whole seconds are the most that fit into the time that went by, with its sign.
pub proof fn seconds_are_whole(now: i64, then: i64)
    requires
        -0x8000_0000_0000_0000 <= now - then <= 0x7fff_ffff_ffff_ffff,
    ensures
        now >= then ==> 0 <= (now - then) - elapsed_seconds(now, then) * 1_000_000 < 1_000_000,
        now < then ==> 0 <= elapsed_seconds(now, then) * 1_000_000 - (now - then) < 1_000_000,
        now >= then ==> elapsed_seconds(now, then) >= 0,
        now < then ==> elapsed_seconds(now, then) <= 0,
{
    let d = now - then;
    assert(elapsed_seconds(now, then) == whole_seconds(d));
}

/// Time that went by beyond what 64 bits can hold counts as the most that they can.
pub proof fn seconds_saturate(now: i64, then: i64)
    ensures
        now - then > 0x7fff_ffff_ffff_ffff ==> elapsed_seconds(now, then) == 9_223_372_036_854,
        now - then < -0x8000_0000_0000_0000 ==> elapsed_seconds(now, then) == -9_223_372_036_854,
{
}

/// The value of a hexadecimal digit of lower case.
pub open spec fn hex_value(c: char) -> int {
    if c <= '9' {
        c as int - 48
    } else {
        c as int - 87
    }
}

/// Whether `high` and `low` are the hexadecimal digits of `byte`, of lower case.
pub open spec fn are_digits_of(high: char, low: char, byte: u8) -> bool {
    &&& '0' <= high <= '9' || 'a' <= high <= 'f'
    &&& '0' <= low <= '9' || 'a' <= low <= 'f'
    &&& byte as int == 16 * hex_value(high) + hex_value(low)
}

/// Two hexadecimal digits of lower case for each byte give the byte, the high half
/// first; and a content hash is that of the compact JSON text.
pub proof fn hex_reads_back(bytes: Seq<u8>, tree: JsonTree)
    ensures
        hex_of(bytes).len() == 2 * bytes.len(),
        forall|i: int|
            #![trigger bytes[i]]
            0 <= i < bytes.len() ==> are_digits_of(
                hex_of(bytes)[2 * i],
                hex_of(bytes)[2 * i + 1],
                bytes[i],
            ),
        content_hash(tree) == hex_of(sha256_of(encode_utf8(json_encoding(tree)))),
{
    assert forall|i: int|
        #![trigger bytes[i]]
        0 <= i < bytes.len() implies are_digits_of(
        hex_of(bytes)[2 * i],
        hex_of(bytes)[2 * i + 1],
        bytes[i],
    ) by {
        hex_pair(bytes, i);
    }
}

proof fn hex_pair(bytes: Seq<u8>, i: int)
    requires
        0 <= i < bytes.len(),
    ensures
        are_digits_of(hex_of(bytes)[2 * i], hex_of(bytes)[2 * i + 1], bytes[i]),
{
    let b = bytes[i] as int;
    assert((2 * i) / 2 == i && (2 * i) % 2 == 0);
    assert((2 * i + 1) / 2 == i && (2 * i + 1) % 2 == 1);
    assert(hex_of(bytes)[2 * i] == hex_digit(b / 16));
    assert(hex_of(bytes)[2 * i + 1] == hex_digit(b % 16));
    hex_digit_value(b / 16);
    hex_digit_value(b % 16);
}

proof fn hex_digit_value(n: int)
    requires
        0 <= n < 16,
    ensures
        n < 10 ==> hex_digit(n) as int == 48 + n,
        n >= 10 ==> hex_digit(n) as int == 87 + n,
{
    reveal_strlit("0123456789abcdef");
}

} // verus!
