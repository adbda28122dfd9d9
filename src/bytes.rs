//! Line-oriented reading of text held as UTF-8 bytes.

use vstd::prelude::*;

verus! {

/// Line feed.
pub const LF: u8 = 10;

/// Carriage return.
pub const CR: u8 = 13;

/// Double quote.
pub const QUOTE: u8 = 34;

/// Index of the first `c` in `t` at or after `from`, or the length of `t`.
pub open spec fn find_from(t: Seq<u8>, c: u8, from: int) -> int
    decreases t.len() - from,
{
    if from < 0 || from >= t.len() {
        t.len() as int
    } else if t[from] == c {
        from
    } else {
        find_from(t, c, from + 1)
    }
}

pub proof fn lemma_find_from(t: Seq<u8>, c: u8, from: int)
    requires
        0 <= from <= t.len(),
    ensures
        from <= find_from(t, c, from) <= t.len(),
        find_from(t, c, from) < t.len() ==> t[find_from(t, c, from)] == c,
        forall|k: int| from <= k < find_from(t, c, from) ==> t[k] != c,
    decreases t.len() - from,
{
    if from < t.len() && t[from] != c {
        lemma_find_from(t, c, from + 1);
    }
}

/// The line that starts at `pos`: the bytes up to the next line feed, less a
/// carriage return that stands right before that line feed.
pub open spec fn line_at(t: Seq<u8>, pos: int) -> Seq<u8> {
    let e = find_from(t, LF, pos);
    if e < t.len() && e > pos && t[e - 1] == CR {
        t.subrange(pos, e - 1)
    } else {
        t.subrange(pos, e)
    }
}

/// The lines of `t` that start at or after `pos`, where `pos` starts a line.
pub open spec fn lines_from(t: Seq<u8>, pos: int) -> Seq<Seq<u8>>
    decreases t.len() - pos,
{
    let e = find_from(t, LF, pos);
    if 0 <= pos < t.len() && pos <= e < t.len() {
        seq![line_at(t, pos)] + lines_from(t, e + 1)
    } else if 0 <= pos < t.len() {
        seq![line_at(t, pos)]
    } else {
        seq![]
    }
}

/// The lines of `t`, split at line feeds; a final line feed ends the last
/// line and opens none.
pub open spec fn lines(t: Seq<u8>) -> Seq<Seq<u8>> {
    lines_from(t, 0)
}

/// Finds the line that starts at `pos`: its end, and where the next starts.
pub fn line_bounds(t: &[u8], pos: usize) -> (r: (usize, usize))
    requires
        pos < t@.len(),
    ensures
        pos <= r.0 <= r.1 <= t@.len(),
        r.1 > pos,
        t@.subrange(pos as int, r.0 as int) == line_at(t@, pos as int),
        lines_from(t@, pos as int) == seq![line_at(t@, pos as int)] + lines_from(t@, r.1 as int),
{
    let mut e: usize = pos;
    while e < t.len() && t[e] != LF
        invariant
            pos <= e <= t@.len(),
            forall|k: int| pos <= k < e ==> t@[k] != LF,
        decreases t.len() - e,
    {
        e += 1;
    }
    proof {
        lemma_find_from(t@, LF, pos as int);
        let f = find_from(t@, LF, pos as int);
        if f < e {
            assert(t@[f] != LF);
        }
        if e < f {
            assert(t@[e as int] != LF);
        }
        assert(f == e);
    }
    let end = if e < t.len() && e > pos && t[e - 1] == CR {
        e - 1
    } else {
        e
    };
    let next = if e < t.len() {
        e + 1
    } else {
        e
    };
    proof {
        if e == t.len() {
            assert(lines_from(t@, next as int) =~= seq![]);
            assert(lines_from(t@, pos as int) =~= seq![line_at(t@, pos as int)] + lines_from(
                t@,
                next as int,
            ));
        }
    }
    (end, next)
}

/// `p` is a prefix of `s`.
pub open spec fn bytes_prefix(p: Seq<u8>, s: Seq<u8>) -> bool {
    p.len() <= s.len() && s.subrange(0, p.len() as int) == p
}

/// `p` occurs in `s`.
pub open spec fn bytes_contain(s: Seq<u8>, p: Seq<u8>) -> bool {
    exists|i: int| 0 <= i <= s.len() - p.len() && #[trigger] s.subrange(i, i + p.len()) == p
}

/// Whether `p` occurs in `t` at `at`, within `t[..end]`.
fn occurs_at(t: &[u8], at: usize, end: usize, p: &[u8]) -> (r: bool)
    requires
        at <= end <= t@.len(),
    ensures
        r == (p@.len() <= end - at && t@.subrange(at as int, at + p@.len()) == p@),
{
    if p.len() > end - at {
        return false;
    }
    let mut i: usize = 0;
    while i < p.len()
        invariant
            i <= p@.len() <= end - at,
            end <= t@.len(),
            forall|k: int| 0 <= k < i ==> t@[at + k] == p@[k],
        decreases p.len() - i,
    {
        if t[at + i] != p[i] {
            assert(t@.subrange(at as int, at + p@.len())[i as int] != p@[i as int]);
            return false;
        }
        i += 1;
    }
    assert(t@.subrange(at as int, at + p@.len()) =~= p@);
    true
}

/// Whether the bytes `t[a..b]` begin with `p`.
pub fn range_starts_with(t: &[u8], a: usize, b: usize, p: &[u8]) -> (r: bool)
    requires
        a <= b <= t@.len(),
    ensures
        r == bytes_prefix(p@, t@.subrange(a as int, b as int)),
{
    let r = occurs_at(t, a, b, p);
    proof {
        if p@.len() <= b - a {
            assert(t@.subrange(a as int, b as int).subrange(0, p@.len() as int) =~= t@.subrange(
                a as int,
                a + p@.len(),
            ));
        }
    }
    r
}

/// Whether `p` occurs in the bytes `t[a..b]`.
pub fn range_contains(t: &[u8], a: usize, b: usize, p: &[u8]) -> (r: bool)
    requires
        a <= b <= t@.len(),
    ensures
        r == bytes_contain(t@.subrange(a as int, b as int), p@),
{
    let ghost s = t@.subrange(a as int, b as int);
    if p.len() > b - a {
        return false;
    }
    if p.len() == 0 {
        assert(s.subrange(0int, 0int + p@.len()) =~= p@);
        return true;
    }
    let mut i: usize = a;
    while i <= b - p.len()
        invariant
            a <= i <= b - p@.len() + 1,
            0 < p@.len(),
            p@.len() <= b - a,
            b <= t@.len(),
            s == t@.subrange(a as int, b as int),
            forall|k: int| 0 <= k < i - a ==> #[trigger] s.subrange(k, k + p@.len()) != p@,
        decreases b - i,
    {
        let found = occurs_at(t, i, b, p);
        assert(s.subrange(i - a, i - a + p@.len()) =~= t@.subrange(i as int, i + p@.len()));
        if found {
            return true;
        }
        i += 1;
    }
    false
}

/// The text between the first double quote of `s` and the next one (or the
/// end of `s`), where `s` holds a double quote.
pub open spec fn quoted_field(s: Seq<u8>) -> Option<Seq<u8>> {
    let q = find_from(s, QUOTE, 0);
    if q < s.len() {
        Some(s.subrange(q + 1, find_from(s, QUOTE, q + 1)))
    } else {
        None
    }
}

/// Finds the quoted field of the line `t[a..b]`, as a range of `t`.
pub fn range_quoted(t: &[u8], a: usize, b: usize) -> (r: Option<(usize, usize)>)
    requires
        a <= b <= t@.len(),
    ensures
        match r {
            Some((x, y)) => a <= x <= y <= b && quoted_field(t@.subrange(a as int, b as int))
                == Some(t@.subrange(x as int, y as int)),
            None => quoted_field(t@.subrange(a as int, b as int)) is None,
        },
{
    let ghost s = t@.subrange(a as int, b as int);
    let mut q: usize = a;
    while q < b && t[q] != QUOTE
        invariant
            a <= q <= b <= t@.len(),
            forall|k: int| a <= k < q ==> t@[k] != QUOTE,
        decreases b - q,
    {
        q += 1;
    }
    proof {
        lemma_find_from(s, QUOTE, 0);
        let f = find_from(s, QUOTE, 0);
        if f < q - a {
            assert(t@[a + f] != QUOTE);
        }
        if q - a < f {
            assert(s[q - a] != QUOTE);
        }
    }
    if q == b {
        return None;
    }
    let mut e: usize = q + 1;
    while e < b && t[e] != QUOTE
        invariant
            q < e <= b <= t@.len(),
            forall|k: int| q < k < e ==> t@[k] != QUOTE,
        decreases b - e,
    {
        e += 1;
    }
    proof {
        let qs = q - a;
        lemma_find_from(s, QUOTE, qs + 1);
        let f = find_from(s, QUOTE, qs + 1);
        if f < e - a {
            assert(t@[a + f] != QUOTE);
        }
        if e - a < f {
            assert(s[e - a] != QUOTE);
        }
        assert(s.subrange(qs + 1, f) =~= t@.subrange(q + 1, e as int));
    }
    Some((q + 1, e))
}

/// The value of a run of decimal digits.
pub open spec fn digits_value(s: Seq<u8>) -> nat
    decreases s.len(),
{
    if s.len() == 0 {
        0
    } else {
        digits_value(s.drop_last()) * 10 + (s.last() - 48) as nat
    }
}

/// Every byte of `s` is a decimal digit.
pub open spec fn all_digits(s: Seq<u8>) -> bool {
    forall|i: int| 0 <= i < s.len() ==> 48 <= #[trigger] s[i] <= 57
}

/// The number that `s` writes in decimal, with an optional leading plus sign,
/// where it fits in a `usize`.
pub open spec fn parsed_number(s: Seq<u8>) -> Option<usize> {
    let d = if s.len() > 0 && s[0] == 43 {
        s.drop_first()
    } else {
        s
    };
    if d.len() > 0 && all_digits(d) && digits_value(d) <= usize::MAX {
        Some(digits_value(d) as usize)
    } else {
        None
    }
}

proof fn lemma_digits_value_grows(s: Seq<u8>, n: int)
    requires
        0 <= n <= s.len(),
        all_digits(s),
    ensures
        digits_value(s.subrange(0, n)) <= digits_value(s),
    decreases s.len() - n,
{
    if n < s.len() {
        lemma_digits_value_grows(s, n + 1);
        assert(s.subrange(0, n + 1).drop_last() =~= s.subrange(0, n));
    } else {
        assert(s.subrange(0, n) =~= s);
    }
}

/// Reads the number written in decimal in `t[a..b]`.
pub fn range_number(t: &[u8], a: usize, b: usize) -> (r: Option<usize>)
    requires
        a <= b <= t@.len(),
    ensures
        r == parsed_number(t@.subrange(a as int, b as int)),
{
    let ghost s = t@.subrange(a as int, b as int);
    let start = if a < b && t[a] == 43 {
        a + 1
    } else {
        a
    };
    let ghost d = t@.subrange(start as int, b as int);
    assert(d =~= (if s.len() > 0 && s[0] == 43 {
        s.drop_first()
    } else {
        s
    }));
    if start == b {
        return None;
    }
    let mut value: usize = 0;
    let mut i: usize = start;
    while i < b
        invariant
            start <= i <= b <= t@.len(),
            d == t@.subrange(start as int, b as int),
            s == t@.subrange(a as int, b as int),
            d == (if s.len() > 0 && s[0] == 43 {
                s.drop_first()
            } else {
                s
            }),
            all_digits(t@.subrange(start as int, i as int)),
            value as nat == digits_value(t@.subrange(start as int, i as int)),
        decreases b - i,
    {
        let c = t[i];
        assert(t@.subrange(start as int, i + 1).drop_last() =~= t@.subrange(start as int, i as int));
        if c < 48 || c > 57 {
            assert(!all_digits(d)) by {
                assert(d[i - start] == c);
            }
            return None;
        }
        let digit = (c - 48) as usize;
        if value > (usize::MAX - digit) / 10 {
            proof {
                assert(all_digits(t@.subrange(start as int, i + 1)));
                assert(digits_value(t@.subrange(start as int, i + 1)) > usize::MAX) by (nonlinear_arith)
                    requires
                        value > (usize::MAX - digit) / 10,
                        digits_value(t@.subrange(start as int, i + 1)) == value * 10 + digit,
                        digit <= 9,
                ;
                if all_digits(d) {
                    lemma_digits_value_grows(d, i + 1 - start);
                    assert(d.subrange(0, i + 1 - start) =~= t@.subrange(start as int, i + 1));
                }
            }
            return None;
        }
        value = value * 10 + digit;
        i += 1;
    }
    Some(value)
}

} // verus!
