//! The FreeBSD release that `freebsd-version -u` reports, e.g. `14.5-RELEASE-p1`.

use vstd::prelude::*;

verus! {

/// Native inotify shipped in FreeBSD 14.5 and later (including 15.0+).
pub const FREEBSD_INOTIFY_MIN: (u32, u32) = (14, 5);

/// Whether `c` is white space (the Unicode `White_Space` property, as `char::is_whitespace`).
pub open spec fn is_white_space(c: char) -> bool {
    let u = c as u32;
    (0x9 <= u <= 0xd) || u == 0x20 || u == 0x85 || u == 0xa0 || u == 0x1680 || (0x2000 <= u <= 0x200a)
        || u == 0x2028 || u == 0x2029 || u == 0x202f || u == 0x205f || u == 0x3000
}

/// `s` without its leading white space.
pub open spec fn trim_start(s: Seq<char>) -> Seq<char>
    decreases s.len(),
{
    if s.len() > 0 && is_white_space(s[0]) { trim_start(s.drop_first()) } else { s }
}

/// `s` without its trailing white space.
pub open spec fn trim_end(s: Seq<char>) -> Seq<char>
    decreases s.len(),
{
    if s.len() > 0 && is_white_space(s.last()) { trim_end(s.drop_last()) } else { s }
}

/// `s` without its leading and trailing white space.
pub open spec fn trimmed(s: Seq<char>) -> Seq<char> {
    trim_end(trim_start(s))
}

/// The index of the first `c` in `s`, if any.
pub open spec fn find_char(s: Seq<char>, c: char) -> Option<int>
    decreases s.len(),
{
    if s.len() == 0 {
        None
    } else if s[0] == c {
        Some(0)
    } else {
        match find_char(s.drop_first(), c) {
            Some(k) => Some(k + 1),
            None => None,
        }
    }
}

/// Whether `c` is an ASCII digit.
pub open spec fn is_ascii_digit(c: char) -> bool {
    '0' <= c <= '9'
}

/// How many ASCII digits `s` starts with.
pub open spec fn digit_prefix_len(s: Seq<char>) -> nat
    decreases s.len(),
{
    if s.len() > 0 && is_ascii_digit(s[0]) { 1 + digit_prefix_len(s.drop_first()) } else { 0 }
}

/// The number that the decimal digits `d` write.
pub open spec fn digits_value(d: Seq<char>) -> nat
    decreases d.len(),
{
    if d.len() == 0 { 0 } else { digits_value(d.drop_last()) * 10 + ((d.last() as u32) - ('0' as u32)) as nat }
}

/// `t` without a leading `+`, if it has one.
pub open spec fn strip_plus(t: Seq<char>) -> Seq<char> {
    if t.len() > 0 && t[0] == '+' { t.drop_first() } else { t }
}

/// The `u32` that the decimal digits `d` write: none for no digit, a character that is not a
/// digit, or a number too large.
pub open spec fn digits_u32(d: Seq<char>) -> Option<u32> {
    if d.len() > 0 && (forall|i: int| 0 <= i < d.len() ==> is_ascii_digit(#[trigger] d[i])) && digits_value(d) <= u32::MAX {
        Some(digits_value(d) as u32)
    } else {
        None
    }
}

/// The `u32` that `t` writes in decimal, after an optional `+` (as `str::parse::<u32>`
/// reads it).
pub open spec fn parse_u32_spec(t: Seq<char>) -> Option<u32> {
    digits_u32(strip_plus(t))
}

/// The release that `s` reports: once trimmed, the number before the first `.` and the
/// digits that directly follow it; none when there is no `.` or either number does not read.
pub open spec fn release_spec(s: Seq<char>) -> Option<(u32, u32)> {
    let u = trimmed(s);
    match find_char(u, '.') {
        None => None,
        Some(k) => {
            let rest = u.skip(k + 1);
            match (parse_u32_spec(u.take(k)), parse_u32_spec(rest.take(digit_prefix_len(rest) as int))) {
                (Some(a), Some(b)) => Some((a, b)),
                _ => None,
            }
        },
    }
}

fn is_white_space_exec(c: char) -> (r: bool)
    ensures
        r == is_white_space(c),
{
    let u = c as u32;
    (0x9 <= u && u <= 0xd) || u == 0x20 || u == 0x85 || u == 0xa0 || u == 0x1680 || (0x2000 <= u && u <= 0x200a)
        || u == 0x2028 || u == 0x2029 || u == 0x202f || u == 0x205f || u == 0x3000
}

fn is_ascii_digit_exec(c: char) -> (r: bool)
    ensures
        r == is_ascii_digit(c),
{
    '0' <= c && c <= '9'
}

/// A longer run of digits writes at least as large a number.
proof fn lemma_digits_value_grows(d: Seq<char>, i: int)
    requires
        0 <= i <= d.len(),
        forall|j: int| 0 <= j < d.len() ==> is_ascii_digit(#[trigger] d[j]),
    ensures
        digits_value(d.take(i)) <= digits_value(d),
    decreases d.len() - i,
{
    if i < d.len() {
        lemma_digits_value_grows(d, i + 1);
        assert(d.take(i + 1).drop_last() =~= d.take(i));
    } else {
        assert(d.take(i) =~= d);
    }
}

/// Reads `cs[from..to]` as [`parse_u32_spec`] does.
fn parse_u32_chars(cs: &Vec<char>, from: usize, to: usize) -> (r: Option<u32>)
    requires
        from <= to <= cs@.len(),
    ensures
        r == parse_u32_spec(cs@.subrange(from as int, to as int)),
{
    let ghost t = cs@.subrange(from as int, to as int);
    let mut start = from;
    if start < to && cs[start] == '+' {
        start = start + 1;
    }
    let ghost d = cs@.subrange(start as int, to as int);
    assert(d =~= strip_plus(t));
    if start == to {
        assert(d.len() == 0);
        return None;
    }
    let mut acc: u32 = 0;
    let mut i: usize = start;
    assert(d.take(0) =~= Seq::<char>::empty());
    while i < to
        invariant
            from <= start < to <= cs@.len(),
            start <= i <= to,
            d == cs@.subrange(start as int, to as int),
            t == cs@.subrange(from as int, to as int),
            d == strip_plus(t),
            forall|j: int| 0 <= j < i - start ==> is_ascii_digit(#[trigger] d[j]),
            acc == digits_value(d.take(i - start)),
        decreases to - i,
    {
        let c = cs[i];
        let ghost k: int = i - start;
        assert(d[k] == c);
        if !is_ascii_digit_exec(c) {
            assert(!is_ascii_digit(d[k]));
            return None;
        }
        assert(d.take(k + 1).drop_last() =~= d.take(k));
        assert(d.take(k + 1).last() == c);
        assert(digits_value(d.take(k + 1)) == acc * 10 + ((c as u32) - ('0' as u32)));
        let digit = (c as u32) - ('0' as u32);
        let next = match acc.checked_mul(10) {
            Some(m) => m.checked_add(digit),
            None => None,
        };
        match next {
            Some(v) => {
                acc = v;
            },
            None => {
                assert(digits_value(d.take(k + 1)) > u32::MAX);
                proof {
                    if d.len() > 0 && (forall|j: int| 0 <= j < d.len() ==> is_ascii_digit(#[trigger] d[j]))
                        && digits_value(d) <= u32::MAX {
                        lemma_digits_value_grows(d, k + 1);
                        assert(false);
                    }
                }
                return None;
            },
        }
        i = i + 1;
    }
    assert(d.take(i - start) =~= d);
    Some(acc)
}

/// The characters of `s`.
fn chars_of(s: &str) -> (r: Vec<char>)
    ensures
        r@ == s@,
{
    let n = s.unicode_len();
    let mut cs: Vec<char> = Vec::new();
    let mut i: usize = 0;
    while i < n
        invariant
            i <= n,
            n == s@.len(),
            cs@ == s@.take(i as int),
        decreases n - i,
    {
        cs.push(s.get_char(i));
        assert(cs@ =~= s@.take(i + 1));
        i = i + 1;
    }
    assert(cs@ =~= s@);
    cs
}

/// The bounds of `cs` without its leading and trailing white space.
fn trim_bounds(cs: &Vec<char>) -> (r: (usize, usize))
    ensures
        r.0 <= r.1 <= cs@.len(),
        trimmed(cs@) == cs@.subrange(r.0 as int, r.1 as int),
{
    let ghost s = cs@;
    let n = cs.len();
    let mut lo: usize = 0;
    assert(s.subrange(0, n as int) =~= s);
    while lo < n && is_white_space_exec(cs[lo])
        invariant
            lo <= n,
            n == s.len(),
            s == cs@,
            trim_start(s) == trim_start(s.subrange(lo as int, n as int)),
        decreases n - lo,
    {
        assert(s.subrange(lo as int, n as int).drop_first() =~= s.subrange(lo + 1, n as int));
        lo = lo + 1;
    }
    let mut hi: usize = n;
    while hi > lo && is_white_space_exec(cs[hi - 1])
        invariant
            lo <= hi <= n,
            n == s.len(),
            s == cs@,
            trimmed(s) == trim_end(s.subrange(lo as int, hi as int)),
        decreases hi - lo,
    {
        assert(s.subrange(lo as int, hi as int).drop_last() =~= s.subrange(lo as int, hi - 1));
        hi = hi - 1;
    }
    (lo, hi)
}

/// The index of the first `.` in `cs[lo..hi]`, if any.
fn find_dot(cs: &Vec<char>, lo: usize, hi: usize) -> (r: Option<usize>)
    requires
        lo <= hi <= cs@.len(),
    ensures
        match r {
            Some(d) => lo <= d < hi && find_char(cs@.subrange(lo as int, hi as int), '.') == Some(d - lo),
            None => find_char(cs@.subrange(lo as int, hi as int), '.') is None,
        },
{
    let ghost u = cs@.subrange(lo as int, hi as int);
    let mut dot: usize = lo;
    assert(u.skip(0) =~= u);
    while dot < hi
        invariant
            lo <= dot <= hi <= cs@.len(),
            u == cs@.subrange(lo as int, hi as int),
            find_char(u, '.') == match find_char(u.skip(dot - lo), '.') {
                Some(k) => Some(k + (dot - lo)),
                None => None::<int>,
            },
        decreases hi - dot,
    {
        assert(u.skip(dot - lo)[0] == cs@[dot as int]);
        if cs[dot] == '.' {
            return Some(dot);
        }
        assert(u.skip(dot - lo).drop_first() =~= u.skip(dot - lo + 1));
        dot = dot + 1;
    }
    assert(u.skip(dot - lo).len() == 0);
    None
}

/// The end of the run of ASCII digits of `cs` that starts at `from`, before `hi`.
fn digit_run_end(cs: &Vec<char>, from: usize, hi: usize) -> (r: usize)
    requires
        from <= hi <= cs@.len(),
    ensures
        from <= r <= hi,
        r - from == digit_prefix_len(cs@.subrange(from as int, hi as int)),
{
    let ghost rest = cs@.subrange(from as int, hi as int);
    let mut end: usize = from;
    assert(rest.skip(0) =~= rest);
    while end < hi && is_ascii_digit_exec(cs[end])
        invariant
            from <= end <= hi <= cs@.len(),
            rest == cs@.subrange(from as int, hi as int),
            digit_prefix_len(rest) == (end - from) + digit_prefix_len(rest.skip(end - from)),
        decreases hi - end,
    {
        assert(rest.skip(end - from)[0] == cs@[end as int]);
        assert(rest.skip(end - from).drop_first() =~= rest.skip(end - from + 1));
        end = end + 1;
    }
    end
}

/// Parses the output of `freebsd-version -u` (see [`release_spec`]), e.g. `14.5-RELEASE-p1`
/// gives `(14, 5)`.
pub fn parse_freebsd_release(output: &str) -> (r: Option<(u32, u32)>)
    ensures
        r == release_spec(output@),
{
    let cs = chars_of(output);
    let (lo, hi) = trim_bounds(&cs);
    let ghost u = cs@.subrange(lo as int, hi as int);
    let dot = match find_dot(&cs, lo, hi) {
        Some(d) => d,
        None => {
            return None;
        },
    };
    let major = parse_u32_chars(&cs, lo, dot);
    assert(u.take(dot - lo) =~= cs@.subrange(lo as int, dot as int));
    let ghost rest = u.skip(dot - lo + 1);
    assert(rest =~= cs@.subrange(dot + 1, hi as int));
    let end = digit_run_end(&cs, dot + 1, hi);
    assert(rest.take(digit_prefix_len(rest) as int) =~= cs@.subrange(dot + 1, end as int));
    let minor = parse_u32_chars(&cs, dot + 1, end);
    match (major, minor) {
        (Some(a), Some(b)) => Some((a, b)),
        _ => None,
    }
}

} // verus!
