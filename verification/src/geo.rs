//! Day-range arguments and place names.
use vstd::prelude::*;
use crate::text::chars_of;

verus! {

/// An ASCII decimal digit.
pub open spec fn is_digit(c: char) -> bool {
    '0' <= c && c <= '9'
}

/// Every character of `s` is a decimal digit.
pub open spec fn all_digits(s: Seq<char>) -> bool {
    forall|i: int| 0 <= i < s.len() ==> is_digit(#[trigger] s[i])
}

/// The number that a digit string spells (most significant digit first).
pub open spec fn decimal_value(s: Seq<char>) -> int
    decreases s.len(),
{
    if s.len() == 0 {
        0
    } else {
        decimal_value(s.drop_last()) * 10 + (s.last() as int - '0' as int)
    }
}

/// The digits of an unsigned number: one leading `+` is allowed.
pub open spec fn unsigned_digits(s: Seq<char>) -> Seq<char> {
    if s.len() > 0 && s[0] == '+' {
        s.drop_first()
    } else {
        s
    }
}

/// What parsing `s` as a `u32` gives: an optional `+`, then at least one decimal
/// digit and nothing else, with a value that fits in 32 bits.
pub open spec fn parse_u32_spec(s: Seq<char>) -> Option<u32> {
    let ds = unsigned_digits(s);
    if ds.len() > 0 && all_digits(ds) && decimal_value(ds) <= u32::MAX {
        Some(decimal_value(ds) as u32)
    } else {
        None
    }
}

/// Index of the first `c` in `s` at or after `i`, or `s.len()` when there is none.
pub open spec fn find_from(s: Seq<char>, c: char, i: int) -> int
    decreases s.len() - i,
{
    if i < 0 || i >= s.len() {
        s.len() as int
    } else if s[i] == c {
        i
    } else {
        find_from(s, c, i + 1)
    }
}

/// Index of the first `c` in `s`, or `s.len()` when there is none.
pub open spec fn find_char(s: Seq<char>, c: char) -> int {
    find_from(s, c, 0)
}

/// Whether a command-line word is a day count (`7`) or a day range (`3-7`).
pub open spec fn spec_looks_like_days(s: Seq<char>) -> bool {
    ||| parse_u32_spec(s) is Some
    ||| {
        let k = find_char(s, '-');
        &&& k < s.len()
        &&& parse_u32_spec(s.subrange(0, k)) is Some
        &&& parse_u32_spec(s.subrange(k + 1, s.len() as int)) is Some
    }
}

/// Why a day argument was rejected.
#[derive(Clone, Copy, Debug, PartialEq, Eq, Structural)]
pub enum DaysError {
    /// `N-M` where `N` or `M` is not a number.
    InvalidRange,
    /// `N-M` outside `1 <= N <= M <= 16`.
    RangeOutOfBounds,
    /// A single value that is not a number.
    InvalidNumber,
    /// A single value outside `1..=16`.
    DaysOutOfBounds,
}

/// The forecast window that a day argument selects: `(from_day, to_day)`, both 1-based
/// and inclusive; `"7"` means `(1, 7)` and `"5-7"` means `(5, 7)`.
pub open spec fn spec_parse_days_str(s: Seq<char>) -> Result<(u32, u32), DaysError> {
    let k = find_char(s, '-');
    if k < s.len() {
        let a = parse_u32_spec(s.subrange(0, k));
        let b = parse_u32_spec(s.subrange(k + 1, s.len() as int));
        if a is None || b is None {
            Err(DaysError::InvalidRange)
        } else if a->0 < 1 || b->0 > 16 || a->0 > b->0 {
            Err(DaysError::RangeOutOfBounds)
        } else {
            Ok((a->0, b->0))
        }
    } else {
        match parse_u32_spec(s) {
            None => Err(DaysError::InvalidNumber),
            Some(d) => if d < 1 || d > 16 {
                Err(DaysError::DaysOutOfBounds)
            } else {
                Ok((1, d))
            },
        }
    }
}

proof fn lemma_decimal_value_nonneg(s: Seq<char>)
    requires
        all_digits(s),
    ensures
        decimal_value(s) >= 0,
    decreases s.len(),
{
    if s.len() > 0 {
        assert(all_digits(s.drop_last())) by {
            assert forall|i: int| 0 <= i < s.drop_last().len() implies is_digit(
                #[trigger] s.drop_last()[i],
            ) by {
                assert(s.drop_last()[i] == s[i]);
            }
        }
        lemma_decimal_value_nonneg(s.drop_last());
        assert(is_digit(s[s.len() - 1]));
    }
}

proof fn lemma_decimal_value_prefix(s: Seq<char>, k: int)
    requires
        all_digits(s),
        0 <= k <= s.len(),
    ensures
        decimal_value(s.subrange(0, k)) <= decimal_value(s),
    decreases s.len() - k,
{
    if k < s.len() {
        let t = s.subrange(0, k + 1);
        assert(all_digits(t)) by {
            assert forall|i: int| 0 <= i < t.len() implies is_digit(#[trigger] t[i]) by {
                assert(t[i] == s[i]);
            }
        }
        assert(t.drop_last() =~= s.subrange(0, k));
        lemma_decimal_value_nonneg(s.subrange(0, k));
        assert(is_digit(s[k]));
        assert(t.last() == s[k]);
        lemma_decimal_value_prefix(s, k + 1);
    } else {
        assert(s.subrange(0, k) =~= s);
    }
}

/// Parses `v[lo..hi]` as a `u32`, accepting what `str::parse::<u32>` accepts.
fn parse_u32_in(v: &Vec<char>, lo: usize, hi: usize) -> (r: Option<u32>)
    requires
        lo <= hi <= v.len(),
    ensures
        r == parse_u32_spec(v@.subrange(lo as int, hi as int)),
{
    let ghost s = v@.subrange(lo as int, hi as int);
    let mut start = lo;
    if lo < hi && v[lo] == '+' {
        start = lo + 1;
    }
    let ghost ds = v@.subrange(start as int, hi as int);
    assert(ds =~= unsigned_digits(s));
    if start == hi {
        return None;
    }
    let mut acc: u64 = 0;
    let mut i = start;
    while i < hi
        invariant
            lo <= start <= i <= hi <= v.len(),
            ds == v@.subrange(start as int, hi as int),
            ds == unsigned_digits(v@.subrange(lo as int, hi as int)),
            ds.len() > 0,
            all_digits(ds.subrange(0, i - start)),
            acc == decimal_value(ds.subrange(0, i - start)),
            acc <= u32::MAX,
        decreases hi - i,
    {
        let c = v[i];
        if !('0' <= c && c <= '9') {
            assert(ds[i - start] == c);
            assert(!all_digits(ds));
            return None;
        }
        let d: u64 = (c as u32 - '0' as u32) as u64;
        let next: u64 = acc * 10 + d;
        let ghost pre = ds.subrange(0, i - start);
        let ghost cur = ds.subrange(0, i + 1 - start);
        assert(cur.drop_last() =~= pre);
        assert(cur.last() == c);
        assert(all_digits(cur)) by {
            assert forall|j: int| 0 <= j < cur.len() implies is_digit(#[trigger] cur[j]) by {
                if j < pre.len() {
                    assert(cur[j] == pre[j]);
                }
            }
        }
        if next > u32::MAX as u64 {
            proof {
                if all_digits(ds) {
                    lemma_decimal_value_prefix(ds, i + 1 - start);
                    assert(decimal_value(cur) == next);
                    assert(decimal_value(ds) > u32::MAX);
                }
            }
            return None;
        }
        acc = next;
        i = i + 1;
    }
    assert(ds.subrange(0, hi - start) =~= ds);
    Some(acc as u32)
}

/// Index of the first `-` in `v`, or `v.len()`.
fn find_dash(v: &Vec<char>) -> (k: usize)
    ensures
        k == find_char(v@, '-'),
{
    let mut i: usize = 0;
    while i < v.len()
        invariant
            i <= v.len(),
            find_from(v@, '-', i as int) == find_char(v@, '-'),
        decreases v.len() - i,
    {
        if v[i] == '-' {
            return i;
        }
        i = i + 1;
    }
    i
}

/// Whether a command-line word is a day count (`7`) or a day range (`3-7`).
pub fn looks_like_days(s: &str) -> (r: bool)
    ensures
        r == spec_looks_like_days(s@),
{
    let v = chars_of(s);
    if parse_u32_in(&v, 0, v.len()).is_some() {
        assert(v@.subrange(0, v@.len() as int) =~= v@);
        return true;
    }
    assert(v@.subrange(0, v@.len() as int) =~= v@);
    let k = find_dash(&v);
    if k < v.len() {
        parse_u32_in(&v, 0, k).is_some() && parse_u32_in(&v, k + 1, v.len()).is_some()
    } else {
        false
    }
}

/// Parses a day argument: `"7"` gives `(1, 7)`, `"5-7"` gives `(5, 7)`.
pub fn parse_days_str(s: &str) -> (r: Result<(u32, u32), DaysError>)
    ensures
        r == spec_parse_days_str(s@),
        r matches Ok((a, b)) ==> 1 <= a <= b <= 16,
{
    let v = chars_of(s);
    let k = find_dash(&v);
    if k < v.len() {
        let a = parse_u32_in(&v, 0, k);
        let b = parse_u32_in(&v, k + 1, v.len());
        match (a, b) {
            (Some(from), Some(to)) => {
                if from < 1 || to > 16 || from > to {
                    Err(DaysError::RangeOutOfBounds)
                } else {
                    Ok((from, to))
                }
            },
            _ => Err(DaysError::InvalidRange),
        }
    } else {
        assert(v@.subrange(0, v@.len() as int) =~= v@);
        match parse_u32_in(&v, 0, v.len()) {
            None => Err(DaysError::InvalidNumber),
            Some(d) => if d < 1 || d > 16 {
                Err(DaysError::DaysOutOfBounds)
            } else {
                Ok((1, d))
            },
        }
    }
}

/// The forecast window selected by an optional day argument; without one, days 1 to 7.
pub fn parse_days(s: Option<&String>) -> (r: Result<(u32, u32), DaysError>)
    ensures
        s is None ==> r == Ok::<(u32, u32), DaysError>((1, 7)),
        s matches Some(t) ==> r == spec_parse_days_str(t@),
{
    match s {
        None => Ok((1, 7)),
        Some(t) => parse_days_str(t.as_str()),
    }
}

/// Every day argument that `parse_days_str` accepts is one that `looks_like_days`
/// recognizes.
pub proof fn law_accepted_days_look_like_days(s: Seq<char>)
    requires
        spec_parse_days_str(s) is Ok,
    ensures
        spec_looks_like_days(s),
{
}

/// A word that does not look like a day argument is rejected by `parse_days_str`.
pub proof fn law_non_days_are_rejected(s: Seq<char>)
    requires
        !spec_looks_like_days(s),
    ensures
        spec_parse_days_str(s) is Err,
{
}

/// The name shown for a reverse-geocoded place: the city, else the town, else the
/// village.
pub fn settlement_name(city: Option<String>, town: Option<String>, village: Option<String>) -> (r:
    Option<String>)
    ensures
        r == (if city is Some { city } else if town is Some { town } else { village }),
{
    match city {
        Some(c) => Some(c),
        None => match town {
            Some(t) => Some(t),
            None => village,
        },
    }
}

} // verus!
