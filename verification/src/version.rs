//! Strict `X.Y.Z` stable version numbers.
use vstd::prelude::*;
use crate::error::AppError;
use crate::text::{chars_of, decimal, digit_char, owned};

verus! {

/// A stable release number; prereleases and build suffixes are never accepted.
#[derive(Debug, Clone, Copy, PartialEq, Eq, Structural, PartialOrd, Ord, Hash)]
pub struct StableVersion(pub u64, pub u64, pub u64);

/// `a` is older than `b` (lexicographic on major, minor, patch).
pub open spec fn version_lt(a: StableVersion, b: StableVersion) -> bool {
    a.0 < b.0 || (a.0 == b.0 && (a.1 < b.1 || (a.1 == b.1 && a.2 < b.2)))
}

pub fn version_less(a: StableVersion, b: StableVersion) -> (r: bool)
    ensures
        r == version_lt(a, b),
{
    a.0 < b.0 || (a.0 == b.0 && (a.1 < b.1 || (a.1 == b.1 && a.2 < b.2)))
}

pub fn version_equal(a: StableVersion, b: StableVersion) -> (r: bool)
    ensures
        r == (a == b),
{
    a.0 == b.0 && a.1 == b.1 && a.2 == b.2
}

pub open spec fn is_digit(c: char) -> bool {
    '0' <= c && c <= '9'
}

/// A non-empty run of ASCII digits without a superfluous leading zero.
pub open spec fn canonical_numeral(p: Seq<char>) -> bool {
    &&& p.len() > 0
    &&& (p.len() > 1 ==> p[0] != '0')
    &&& forall|i: int| 0 <= i < p.len() ==> is_digit(#[trigger] p[i])
}

pub open spec fn numeral_value(p: Seq<char>) -> nat
    decreases p.len(),
{
    if p.len() == 0 {
        0
    } else {
        numeral_value(p.drop_last()) * 10 + ((p.last() as nat) - 48) as nat
    }
}

/// Position of the first `.` at or after `from`, or -1.
pub open spec fn find_dot(s: Seq<char>, from: int) -> int
    decreases s.len() - from,
{
    if from < 0 || from >= s.len() {
        -1
    } else if s[from] == '.' {
        from
    } else {
        find_dot(s, from + 1)
    }
}

/// The three dot-separated parts, when the text holds exactly two dots.
pub open spec fn version_parts(s: Seq<char>) -> Option<(Seq<char>, Seq<char>, Seq<char>)> {
    let i = find_dot(s, 0);
    let j = find_dot(s, i + 1);
    if i >= 0 && j >= 0 && find_dot(s, j + 1) == -1 {
        Some((s.subrange(0, i), s.subrange(i + 1, j), s.subrange(j + 1, s.len() as int)))
    } else {
        None
    }
}

pub open spec fn version_shape_ok(s: Seq<char>) -> bool {
    match version_parts(s) {
        Some((a, b, c)) => canonical_numeral(a) && canonical_numeral(b) && canonical_numeral(c),
        None => false,
    }
}

pub open spec fn format_message() -> Seq<char> {
    "版本号必须是严格的 X.Y.Z 稳定版本"@
}

pub open spec fn range_message() -> Seq<char> {
    "版本号超出范围"@
}

/// What parsing a version text yields: the version, or the message of the update error.
pub open spec fn parsed_version(s: Seq<char>) -> Result<StableVersion, Seq<char>> {
    if !version_shape_ok(s) {
        Err(format_message())
    } else {
        let (a, b, c) = version_parts(s).unwrap();
        if numeral_value(a) > u64::MAX || numeral_value(b) > u64::MAX || numeral_value(c)
            > u64::MAX {
            Err(range_message())
        } else {
            Ok(
                StableVersion(
                    numeral_value(a) as u64,
                    numeral_value(b) as u64,
                    numeral_value(c) as u64,
                ),
            )
        }
    }
}

/// An update failure carrying exactly `message`.
pub open spec fn is_update_error(e: AppError, message: Seq<char>) -> bool {
    e matches AppError::Update(m) && m@ == message
}

/// Result of the strict parser, compared with its specification.
pub open spec fn version_result_matches(r: Result<StableVersion, AppError>, s: Seq<char>) -> bool {
    match parsed_version(s) {
        Ok(v) => r == Ok::<StableVersion, AppError>(v),
        Err(m) => r is Err && is_update_error(r->Err_0, m),
    }
}

pub fn failure(message: String) -> (e: AppError)
    ensures
        e == AppError::Update(message),
{
    AppError::Update(message)
}

proof fn lemma_find_dot(s: Seq<char>, from: int, r: int)
    requires
        0 <= from <= r <= s.len(),
        forall|k: int| from <= k < r ==> #[trigger] s[k] != '.',
        r == s.len() || s[r] == '.',
    ensures
        find_dot(s, from) == (if r == s.len() { -1 } else { r }),
    decreases r - from,
{
    if from < r {
        lemma_find_dot(s, from + 1, r);
    }
}

fn find_dot_from(s: &Vec<char>, from: usize) -> (r: Option<usize>)
    requires
        from <= s.len(),
    ensures
        match r {
            Some(i) => find_dot(s@, from as int) == i as int && from <= i < s.len(),
            None => find_dot(s@, from as int) == -1,
        },
{
    let mut i = from;
    while i < s.len() && s[i] != '.'
        invariant
            from <= i <= s.len(),
            forall|k: int| from <= k < i ==> #[trigger] s@[k] != '.',
        decreases s.len() - i,
    {
        i = i + 1;
    }
    proof {
        lemma_find_dot(s@, from as int, i as int);
    }
    if i == s.len() {
        None
    } else {
        Some(i)
    }
}

fn canonical_range(s: &Vec<char>, lo: usize, hi: usize) -> (r: bool)
    requires
        lo <= hi <= s.len(),
    ensures
        r == canonical_numeral(s@.subrange(lo as int, hi as int)),
{
    let ghost p = s@.subrange(lo as int, hi as int);
    if lo == hi {
        return false;
    }
    if hi - lo > 1 && s[lo] == '0' {
        return false;
    }
    let mut i = lo;
    while i < hi
        invariant
            lo <= i <= hi,
            hi <= s.len(),
            p == s@.subrange(lo as int, hi as int),
            forall|k: int| 0 <= k < i - lo ==> is_digit(#[trigger] p[k]),
        decreases hi - i,
    {
        if !('0' <= s[i] && s[i] <= '9') {
            assert(!is_digit(p[i - lo]));
            return false;
        }
        i = i + 1;
    }
    true
}

proof fn lemma_numeral_prefix(s: Seq<char>, k: int)
    requires
        0 <= k <= s.len(),
        forall|i: int| 0 <= i < s.len() ==> is_digit(#[trigger] s[i]),
    ensures
        numeral_value(s.take(k)) <= numeral_value(s),
    decreases s.len() - k,
{
    if k < s.len() {
        let t = s.drop_last();
        assert(t.take(k) =~= s.take(k));
        assert forall|i: int| 0 <= i < t.len() implies is_digit(#[trigger] t[i]) by {
            assert(t[i] == s[i]);
        }
        lemma_numeral_prefix(t, k);
    } else {
        assert(s.take(k) =~= s);
    }
}

pub(crate) fn numeral_range(s: &Vec<char>, lo: usize, hi: usize) -> (r: Option<u64>)
    requires
        lo <= hi <= s.len(),
        forall|k: int| lo <= k < hi ==> is_digit(#[trigger] s@[k]),
    ensures
        match r {
            Some(v) => v as nat == numeral_value(s@.subrange(lo as int, hi as int)),
            None => numeral_value(s@.subrange(lo as int, hi as int)) > u64::MAX,
        },
{
    let ghost p = s@.subrange(lo as int, hi as int);
    let mut acc: u64 = 0;
    let mut i = lo;
    assert(p.take(0) =~= Seq::<char>::empty());
    while i < hi
        invariant
            lo <= i <= hi,
            hi <= s.len(),
            p == s@.subrange(lo as int, hi as int),
            forall|k: int| lo <= k < hi ==> is_digit(#[trigger] s@[k]),
            acc as nat == numeral_value(p.take(i - lo)),
        decreases hi - i,
    {
        let c = s[i];
        assert(is_digit(s@[i as int]));
        let d: u64 = (c as u32 - 48) as u64;
        let ghost next = p.take(i - lo + 1);
        assert(next.drop_last() =~= p.take(i - lo));
        assert(next.last() == c);
        if acc > 1844674407370955161u64 || (acc == 1844674407370955161u64 && d > 5) {
            proof {
                assert forall|k: int| 0 <= k < p.len() implies is_digit(#[trigger] p[k]) by {
                    assert(p[k] == s@[lo + k]);
                }
                lemma_numeral_prefix(p, i - lo + 1);
            }
            return None;
        }
        acc = acc * 10 + d;
        i = i + 1;
    }
    assert(p.take(hi - lo) =~= p);
    Some(acc)
}

/// Parses a strict `X.Y.Z` stable version.
pub fn parse_version(value: &str) -> (r: Result<StableVersion, AppError>)
    ensures
        version_result_matches(r, value@),
{
    let s = chars_of(value);
    parse_version_chars(&s)
}

pub fn parse_version_chars(s: &Vec<char>) -> (r: Result<StableVersion, AppError>)
    ensures
        version_result_matches(r, s@),
{
    let i = match find_dot_from(s, 0) {
        Some(i) => i,
        None => return Err(failure(owned("版本号必须是严格的 X.Y.Z 稳定版本"))),
    };
    let j = match find_dot_from(s, i + 1) {
        Some(j) => j,
        None => return Err(failure(owned("版本号必须是严格的 X.Y.Z 稳定版本"))),
    };
    if find_dot_from(s, j + 1).is_some() {
        return Err(failure(owned("版本号必须是严格的 X.Y.Z 稳定版本")));
    }
    let n = s.len();
    if !canonical_range(s, 0, i) || !canonical_range(s, i + 1, j) || !canonical_range(
        s,
        j + 1,
        n,
    ) {
        return Err(failure(owned("版本号必须是严格的 X.Y.Z 稳定版本")));
    }
    proof {
        assert forall|k: int| 0 <= k < i implies is_digit(#[trigger] s@[k]) by {
            assert(s@[k] == s@.subrange(0, i as int)[k]);
        }
        assert forall|k: int| i + 1 <= k < j implies is_digit(#[trigger] s@[k]) by {
            assert(s@[k] == s@.subrange(i + 1, j as int)[k - i - 1]);
        }
        assert forall|k: int| j + 1 <= k < n implies is_digit(#[trigger] s@[k]) by {
            assert(s@[k] == s@.subrange(j + 1, n as int)[k - j - 1]);
        }
    }
    let a = numeral_range(s, 0, i);
    let b = numeral_range(s, i + 1, j);
    let c = numeral_range(s, j + 1, n);
    match (a, b, c) {
        (Some(a), Some(b), Some(c)) => Ok(StableVersion(a, b, c)),
        _ => Err(failure(owned("版本号超出范围"))),
    }
}


/// `X.Y.Z` in decimal, as a version is written.
pub open spec fn version_text(v: StableVersion) -> Seq<char> {
    decimal(v.0 as nat) + seq!['.'] + decimal(v.1 as nat) + seq!['.'] + decimal(v.2 as nat)
}

proof fn lemma_digit_char(d: nat)
    requires
        d < 10,
    ensures
        is_digit(digit_char(d)),
        digit_char(d) as nat == 48 + d,
{
}

proof fn lemma_char_of_digit(c: char)
    requires
        is_digit(c),
    ensures
        digit_char((c as nat - 48) as nat) == c,
        (c as nat - 48) < 10,
{
}

/// The decimal notation of `n` is a canonical numeral of value `n`, starting
/// with a digit other than `0` when `n` is positive.
proof fn lemma_decimal(n: nat)
    ensures
        canonical_numeral(decimal(n)),
        numeral_value(decimal(n)) == n,
        n > 0 ==> decimal(n)[0] != '0',
    decreases n,
{
    if n < 10 {
        lemma_digit_char(n);
        let d = decimal(n);
        assert(d.drop_last() =~= Seq::<char>::empty());
        assert(numeral_value(d.drop_last()) == 0);
        assert(numeral_value(d) == numeral_value(d.drop_last()) * 10 + ((d.last() as nat) - 48) as nat);
    } else {
        let q = n / 10;
        let r = n % 10;
        assert(n == q * 10 + r && q > 0 && q < n) by (nonlinear_arith)
            requires n >= 10, q == n / 10, r == n % 10;
        lemma_decimal(q);
        lemma_digit_char(r);
        let d = decimal(n);
        assert(d.drop_last() =~= decimal(q));
        assert(d.last() == digit_char(r));
        assert(numeral_value(d) == numeral_value(decimal(q)) * 10 + r);
        assert(d[0] == decimal(q)[0]);
        assert forall|i: int| 0 <= i < d.len() implies is_digit(#[trigger] d[i]) by {
            if i < d.len() - 1 {
                assert(d[i] == decimal(q)[i]);
            }
        }
    }
}

/// A numeral that starts with a digit other than `0` has a positive value.
proof fn lemma_numeral_positive(p: Seq<char>)
    requires
        p.len() > 0,
        p[0] != '0',
        forall|i: int| 0 <= i < p.len() ==> is_digit(#[trigger] p[i]),
    ensures
        numeral_value(p) > 0,
    decreases p.len(),
{
    if p.len() > 1 {
        let q = p.drop_last();
        assert(is_digit(p[0]));
        assert forall|i: int| 0 <= i < q.len() implies is_digit(#[trigger] q[i]) by {
            assert(q[i] == p[i]);
        }
        lemma_numeral_positive(q);
    } else {
        assert(is_digit(p[0]));
    }
}

/// A canonical numeral is the decimal notation of its value.
proof fn lemma_canonical_decimal(p: Seq<char>)
    requires
        canonical_numeral(p),
    ensures
        decimal(numeral_value(p)) == p,
    decreases p.len(),
{
    let q = p.drop_last();
    let c = p.last();
    assert(is_digit(p[p.len() - 1]));
    lemma_char_of_digit(c);
    let d = (c as nat - 48) as nat;
    if p.len() == 1 {
        assert(q =~= Seq::<char>::empty());
        assert(numeral_value(q) == 0);
        assert(numeral_value(p) == d);
        assert(decimal(d) == seq![digit_char(d)]);
        assert(decimal(d) =~= p);
    } else {
        assert forall|i: int| 0 <= i < q.len() implies is_digit(#[trigger] q[i]) by {
            assert(q[i] == p[i]);
        }
        assert(q[0] == p[0]);
        lemma_numeral_positive(q);
        lemma_canonical_decimal(q);
        let v = numeral_value(q);
        let n = numeral_value(p);
        assert(n == v * 10 + d);
        assert(n / 10 == v && n % 10 == d && n >= 10) by (nonlinear_arith)
            requires n == v * 10 + d, d < 10, v > 0;
        assert(decimal(n) =~= q.push(c));
        assert(q.push(c) =~= p);
    }
}

proof fn lemma_find_dot_found(s: Seq<char>, from: int)
    requires
        0 <= from,
        find_dot(s, from) >= 0,
    ensures
        from <= find_dot(s, from) < s.len(),
        s[find_dot(s, from)] == '.',
    decreases s.len() - from,
{
    if from < s.len() && s[from] != '.' {
        lemma_find_dot_found(s, from + 1);
    }
}

proof fn lemma_no_dot(p: Seq<char>)
    requires
        canonical_numeral(p),
    ensures
        forall|i: int| 0 <= i < p.len() ==> #[trigger] p[i] != '.',
{
    assert forall|i: int| 0 <= i < p.len() implies #[trigger] p[i] != '.' by {
        assert(is_digit(p[i]));
    }
}

/// Parsing is the inverse of writing a version as `X.Y.Z`: the text of every
/// version parses back to it, and a text that parses is the text of what it
/// parses to, so no sign, space, leading zero, prefix, suffix or extra part is
/// ever accepted.
pub proof fn version_text_round_trip(v: StableVersion, s: Seq<char>)
    ensures
        parsed_version(version_text(v)) == Ok::<StableVersion, Seq<char>>(v),
        parsed_version(s) is Ok ==> s == version_text(parsed_version(s)->Ok_0),
{
    let (a, b, c) = (decimal(v.0 as nat), decimal(v.1 as nat), decimal(v.2 as nat));
    lemma_decimal(v.0 as nat);
    lemma_decimal(v.1 as nat);
    lemma_decimal(v.2 as nat);
    lemma_no_dot(a);
    lemma_no_dot(b);
    lemma_no_dot(c);
    let t = version_text(v);
    let i = a.len() as int;
    let j = i + 1 + b.len();
    assert forall|k: int| 0 <= k < i implies #[trigger] t[k] != '.' by {
        assert(t[k] == a[k]);
    }
    lemma_find_dot(t, 0, i);
    assert forall|k: int| i + 1 <= k < j implies #[trigger] t[k] != '.' by {
        assert(t[k] == b[k - i - 1]);
    }
    lemma_find_dot(t, i + 1, j);
    assert forall|k: int| j + 1 <= k < t.len() implies #[trigger] t[k] != '.' by {
        assert(t[k] == c[k - j - 1]);
    }
    lemma_find_dot(t, j + 1, t.len() as int);
    assert(t.subrange(0, i) =~= a);
    assert(t.subrange(i + 1, j) =~= b);
    assert(t.subrange(j + 1, t.len() as int) =~= c);
    if parsed_version(s) is Ok {
        let (x, y, z) = version_parts(s).unwrap();
        let p = find_dot(s, 0);
        let q = find_dot(s, p + 1);
        lemma_find_dot_found(s, 0);
        lemma_find_dot_found(s, p + 1);
        lemma_canonical_decimal(x);
        lemma_canonical_decimal(y);
        lemma_canonical_decimal(z);
        assert(s =~= x + seq!['.'] + y + seq!['.'] + z);
    }
}

} // verus!
