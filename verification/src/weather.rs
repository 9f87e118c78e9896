//! Grouping of hourly and daily records by calendar day and month.
use vstd::prelude::*;
use crate::types::{Date, Stamp, stamp_le, stamp_not_after, date_le, day_number, valid_date, lemma_day_number_increasing};
use std::collections::{BTreeMap, HashSet};
use vstd::std_specs::btree::spec_btree_map_iter;
use vstd::std_specs::iter::IteratorSpec;

verus! {

/// Indices `i < j` whose date satisfies `p`, in increasing order.
pub open spec fn indices_where(s: Seq<Date>, p: spec_fn(Date) -> bool, j: int) -> Seq<usize>
    decreases j,
{
    if j <= 0 {
        Seq::empty()
    } else if p(s[j - 1]) {
        indices_where(s, p, j - 1).push((j - 1) as usize)
    } else {
        indices_where(s, p, j - 1)
    }
}

/// The indices selected by `indices_where` are increasing and below `j`.
pub proof fn lemma_indices_where_sorted(s: Seq<Date>, p: spec_fn(Date) -> bool, j: int)
    requires
        0 <= j <= s.len() <= usize::MAX,
    ensures
        forall|k: int|
            0 <= k < indices_where(s, p, j).len() ==> #[trigger] indices_where(s, p, j)[k] < j,
        forall|a: int, b: int|
            0 <= a < b < indices_where(s, p, j).len() ==> #[trigger] indices_where(s, p, j)[a]
                < #[trigger] indices_where(s, p, j)[b],
    decreases j,
{
    if j > 0 {
        lemma_indices_where_sorted(s, p, j - 1);
        let prev = indices_where(s, p, j - 1);
        if p(s[j - 1]) {
            let q = prev.push((j - 1) as usize);
            assert(indices_where(s, p, j) == q);
            assert forall|k: int| 0 <= k < q.len() implies #[trigger] q[k] < j by {
                if k < prev.len() {
                    assert(q[k] == prev[k]);
                }
            }
            assert forall|a: int, b: int| 0 <= a < b < q.len() implies #[trigger] q[a] < #[trigger] q[b] by {
                assert(q[a] == prev[a]);
                if b < prev.len() {
                    assert(q[b] == prev[b]);
                }
            }
        }
    }
}

/// An index is selected by `indices_where` exactly when it is below `j` and its date
/// satisfies `p`.
pub proof fn lemma_indices_where_member(s: Seq<Date>, p: spec_fn(Date) -> bool, j: int, i: usize)
    requires
        0 <= j <= s.len() <= usize::MAX,
    ensures
        indices_where(s, p, j).contains(i) <==> (i < j && p(s[i as int])),
    decreases j,
{
    if j > 0 {
        lemma_indices_where_member(s, p, j - 1, i);
        lemma_indices_where_sorted(s, p, j - 1);
        let prev = indices_where(s, p, j - 1);
        if p(s[j - 1]) {
            let q = prev.push((j - 1) as usize);
            assert(indices_where(s, p, j) == q);
            assert(q[prev.len() as int] == (j - 1) as usize);
            if q.contains(i) {
                let k = choose|k: int| 0 <= k < q.len() && #[trigger] q[k] == i;
                if k < prev.len() {
                    assert(prev[k] == i);
                    assert(prev.contains(i));
                }
            }
            if prev.contains(i) {
                let k = choose|k: int| 0 <= k < prev.len() && #[trigger] prev[k] == i;
                assert(q[k] == i);
            }
        } else {
            if i == j - 1 {
                if prev.contains(i) {
                    let k = choose|k: int| 0 <= k < prev.len() && #[trigger] prev[k] == i;
                    assert(prev[k] < j - 1);
                }
            }
        }
    }
}

/// The records on `date`, by index into `dates`.
pub open spec fn on_date(date: Date) -> spec_fn(Date) -> bool {
    |d: Date| d == date
}

/// Indices of the records whose date is `date`, in order.
pub fn hours_on(dates: &Vec<Date>, date: Date) -> (r: Vec<usize>)
    ensures
        r@ == indices_where(dates@, on_date(date), dates@.len() as int),
{
    let mut r: Vec<usize> = Vec::new();
    let mut j: usize = 0;
    while j < dates.len()
        invariant
            j <= dates.len(),
            r@ == indices_where(dates@, on_date(date), j as int),
        decreases dates.len() - j,
    {
        if dates[j] == date {
            r.push(j);
        }
        j = j + 1;
    }
    r
}

/// Sunrise and sunset of one day.
#[derive(Clone, Copy, Debug, PartialEq, Eq, Structural)]
pub struct SolarDay {
    pub date: Date,
    pub sunrise: Stamp,
    pub sunset: Stamp,
}

/// 06:00 and 20:00 on `date`: the sunrise and sunset assumed when none is known.
pub open spec fn default_sun_times(date: Date) -> (Stamp, Stamp) {
    (Stamp { date, hour: 6, minute: 0 }, Stamp { date, hour: 20, minute: 0 })
}

/// Index of the first entry of `s` at or after `i` that is for `date`, or `s.len()`.
pub open spec fn first_solar_from(s: Seq<SolarDay>, date: Date, i: int) -> int
    decreases s.len() - i,
{
    if i < 0 || i >= s.len() {
        s.len() as int
    } else if s[i].date == date {
        i
    } else {
        first_solar_from(s, date, i + 1)
    }
}

/// Sunrise and sunset for `date`: those of the first entry for that date, or the
/// default 06:00 and 20:00 when there is none.
pub open spec fn spec_sun_times(s: Seq<SolarDay>, date: Date) -> (Stamp, Stamp) {
    let k = first_solar_from(s, date, 0);
    if k < s.len() {
        (s[k].sunrise, s[k].sunset)
    } else {
        default_sun_times(date)
    }
}

/// Sunrise and sunset for `date`, falling back to 06:00 and 20:00.
pub fn sun_times(solar: &Vec<SolarDay>, date: Date) -> (r: (Stamp, Stamp))
    ensures
        r == spec_sun_times(solar@, date),
{
    let mut i: usize = 0;
    while i < solar.len()
        invariant
            i <= solar.len(),
            first_solar_from(solar@, date, i as int) == first_solar_from(solar@, date, 0),
        decreases solar.len() - i,
    {
        if solar[i].date == date {
            return (solar[i].sunrise, solar[i].sunset);
        }
        i = i + 1;
    }
    (Stamp { date, hour: 6, minute: 0 }, Stamp { date, hour: 20, minute: 0 })
}

/// A solar entry for `date`, where an unreadable sunrise or sunset becomes 06:00 or 20:00.
pub fn solar_day(date: Date, sunrise: Option<Stamp>, sunset: Option<Stamp>) -> (r: SolarDay)
    ensures
        r.date == date,
        r.sunrise == (match sunrise { Some(t) => t, None => default_sun_times(date).0 }),
        r.sunset == (match sunset { Some(t) => t, None => default_sun_times(date).1 }),
{
    let rise = match sunrise {
        Some(t) => t,
        None => Stamp { date, hour: 6, minute: 0 },
    };
    let set = match sunset {
        Some(t) => t,
        None => Stamp { date, hour: 20, minute: 0 },
    };
    SolarDay { date, sunrise: rise, sunset: set }
}

/// A time is in daylight when it is at or after sunrise and before sunset.
pub open spec fn spec_is_daylight(t: Stamp, sunrise: Stamp, sunset: Stamp) -> bool {
    stamp_le(sunrise, t) && !stamp_le(sunset, t)
}

/// Whether the hour starting at `t` is highlighted as daylight.
pub fn is_daylight(t: Stamp, sunrise: Stamp, sunset: Stamp) -> (r: bool)
    ensures
        r == spec_is_daylight(t, sunrise, sunset),
{
    stamp_not_after(sunrise, t) && !stamp_not_after(sunset, t)
}

/// The sunrise and sunset of a date are those of the first solar entry for that date;
/// with no entry for it they are 06:00 and 20:00 of that date.
pub proof fn law_sun_times_from_first_entry(s: Seq<SolarDay>, date: Date)
    ensures
        (exists|k: int| 0 <= k < s.len() && #[trigger] s[k].date == date) ==> exists|k: int|
            0 <= k < s.len() && #[trigger] s[k].date == date && spec_sun_times(s, date) == (
            s[k].sunrise, s[k].sunset) && forall|j: int| 0 <= j < k ==> s[j].date != date,
        (forall|k: int| 0 <= k < s.len() ==> #[trigger] s[k].date != date) ==> spec_sun_times(s, date)
            == (Stamp { date, hour: 6, minute: 0 }, Stamp { date, hour: 20, minute: 0 }),
{
    lemma_first_solar(s, date, 0);
    let k = first_solar_from(s, date, 0);
    if k < s.len() {
        assert(s[k].date == date);
    }
}

proof fn lemma_first_solar(s: Seq<SolarDay>, date: Date, i: int)
    requires
        0 <= i <= s.len(),
    ensures
        i <= first_solar_from(s, date, i) <= s.len(),
        first_solar_from(s, date, i) < s.len() ==> s[first_solar_from(s, date, i)].date == date,
        forall|j: int| i <= j < first_solar_from(s, date, i) ==> s[j].date != date,
        first_solar_from(s, date, i) == s.len() ==> forall|j: int| i <= j < s.len() ==> s[j].date != date,
    decreases s.len() - i,
{
    if i < s.len() && s[i].date != date {
        lemma_first_solar(s, date, i + 1);
    }
}

/// Minutes from the epoch to a wall-clock time.
pub open spec fn minutes_since_epoch(s: Stamp) -> int {
    day_number(s.date) * 1440 + s.hour * 60 + s.minute
}

/// A wall-clock time that exists: a calendar date, an hour of 0..24, a minute of 0..60.
pub open spec fn valid_stamp(s: Stamp) -> bool {
    valid_date(s.date) && s.hour < 24 && s.minute < 60
}

proof fn lemma_stamp_order(a: Stamp, b: Stamp)
    requires
        valid_stamp(a),
        valid_stamp(b),
    ensures
        stamp_le(a, b) <==> minutes_since_epoch(a) <= minutes_since_epoch(b),
{
    if a.date != b.date {
        if date_le(a.date, b.date) {
            lemma_day_number_increasing(a.date, b.date);
        } else {
            lemma_day_number_increasing(b.date, a.date);
        }
    }
}

/// An hour is highlighted as daylight exactly when, in chronological order on a 24-hour
/// clock, it is at or after sunrise and before sunset.
pub proof fn law_daylight_is_between_sunrise_and_sunset(t: Stamp, sunrise: Stamp, sunset: Stamp)
    requires
        valid_stamp(t),
        valid_stamp(sunrise),
        valid_stamp(sunset),
    ensures
        spec_is_daylight(t, sunrise, sunset) == (minutes_since_epoch(sunrise) <= minutes_since_epoch(t)
            && minutes_since_epoch(t) < minutes_since_epoch(sunset)),
        t.date == sunrise.date && t.date == sunset.date ==> spec_is_daylight(t, sunrise, sunset) == (
        sunrise.hour * 60 + sunrise.minute <= t.hour * 60 + t.minute && t.hour * 60 + t.minute
            < sunset.hour * 60 + sunset.minute),
{
    lemma_stamp_order(sunrise, t);
    lemma_stamp_order(sunset, t);
}

/// `s` with every run of equal neighbours collapsed to one element (as `Vec::dedup`).
pub open spec fn dedup(s: Seq<Date>) -> Seq<Date>
    decreases s.len(),
{
    if s.len() == 0 {
        s
    } else if s.len() >= 2 && s[s.len() - 2] == s.last() {
        dedup(s.drop_last())
    } else {
        dedup(s.drop_last()).push(s.last())
    }
}

/// The distinct days of a run of records, in order of appearance of each run.
pub fn unique_dates(dates: &Vec<Date>) -> (r: Vec<Date>)
    ensures
        r@ == dedup(dates@),
{
    let mut r: Vec<Date> = Vec::new();
    let mut j: usize = 0;
    while j < dates.len()
        invariant
            j <= dates.len(),
            r@ == dedup(dates@.subrange(0, j as int)),
            j > 0 ==> r@.len() > 0 && r@.last() == dates@[j - 1],
        decreases dates.len() - j,
    {
        let ghost pre = dates@.subrange(0, j as int);
        let ghost next = dates@.subrange(0, j + 1);
        assert(next.drop_last() =~= pre);
        if j == 0 || dates[j - 1] != dates[j] {
            r.push(dates[j]);
        }
        j = j + 1;
    }
    assert(dates@.subrange(0, dates.len() as int) =~= dates@);
    r
}

/// The days kept when the forecast window starts at day `day_from` (1-based): the
/// first `day_from - 1` days are dropped.
pub fn keep_from_day(days: &Vec<Date>, day_from: u32) -> (r: Vec<Date>)
    requires
        day_from >= 1,
    ensures
        r@ == (if day_from - 1 <= days@.len() { days@.skip(day_from - 1) } else { Seq::empty() }),
{
    let skip = (day_from - 1) as usize;
    let mut r: Vec<Date> = Vec::new();
    let mut j: usize = skip;
    if j > days.len() {
        return r;
    }
    while j < days.len()
        invariant
            skip <= j <= days.len(),
            skip == day_from - 1,
            r@ == days@.subrange(skip as int, j as int),
        decreases days.len() - j,
    {
        r.push(days[j]);
        j = j + 1;
    }
    r
}

/// An integer key for a date; distinct dates have distinct keys.
pub open spec fn date_key(d: Date) -> int {
    d.year * 18446744073709551616 + d.month * 4294967296 + d.day
}

fn date_key_exec(d: Date) -> (k: i128)
    ensures
        k == date_key(d),
{
    (d.year as i128) * 18446744073709551616i128 + (d.month as i128) * 4294967296i128 + (d.day as i128)
}

proof fn lemma_date_key_injective(a: Date, b: Date)
    requires
        date_key(a) == date_key(b),
    ensures
        a == b,
{
    assert(a.year == b.year) by (nonlinear_arith)
        requires
            a.year * 18446744073709551616 + a.month * 4294967296 + a.day == b.year
                * 18446744073709551616 + b.month * 4294967296 + b.day,
            0 <= a.month < 4294967296,
            0 <= b.month < 4294967296,
            0 <= a.day < 4294967296,
            0 <= b.day < 4294967296,
    ;
    assert(a.month == b.month) by (nonlinear_arith)
        requires
            a.month * 4294967296 + a.day == b.month * 4294967296 + b.day,
            0 <= a.day < 4294967296,
            0 <= b.day < 4294967296,
    ;
}

/// For each record date, whether it is one of the days in `keep`; the days to keep are
/// looked up in a hash set.
pub fn days_kept(records: &Vec<Date>, keep: &Vec<Date>) -> (r: Vec<bool>)
    ensures
        r@.len() == records@.len(),
        forall|i: int| 0 <= i < records@.len() ==> #[trigger] r@[i] == keep@.contains(records@[i]),
{
    broadcast use vstd::std_specs::hash::group_hash_axioms;
    let mut set: HashSet<i128> = HashSet::new();
    let mut j: usize = 0;
    while j < keep.len()
        invariant
            j <= keep.len(),
            forall|k: i128| #[trigger] set@.contains(k) <==> exists|t: int| 0 <= t < j && date_key(keep@[t]) == k,
        decreases keep.len() - j,
    {
        let k = date_key_exec(keep[j]);
        set.insert(k);
        assert forall|k2: i128| #[trigger] set@.contains(k2) <==> exists|t: int| 0 <= t < j + 1 && date_key(keep@[t]) == k2 by {
            if k2 == k {
                assert(date_key(keep@[j as int]) == k2);
            }
        }
        j = j + 1;
    }
    let mut r: Vec<bool> = Vec::new();
    let mut i: usize = 0;
    while i < records.len()
        invariant
            i <= records.len(),
            r@.len() == i,
            forall|k: i128| #[trigger] set@.contains(k) <==> exists|t: int| 0 <= t < keep@.len() && date_key(keep@[t]) == k,
            forall|a: int| 0 <= a < i ==> #[trigger] r@[a] == keep@.contains(records@[a]),
        decreases records.len() - i,
    {
        let k = date_key_exec(records[i]);
        let found = set.contains(&k);
        proof {
            if found {
                let t = choose|t: int| 0 <= t < keep@.len() && date_key(keep@[t]) == k;
                lemma_date_key_injective(keep@[t], records@[i as int]);
                assert(keep@[t] == records@[i as int]);
            } else if keep@.contains(records@[i as int]) {
                let t = choose|t: int| 0 <= t < keep@.len() && keep@[t] == records@[i as int];
                assert(date_key(keep@[t]) == k);
            }
        }
        r.push(found);
        i = i + 1;
    }
    r
}

} // verus!

verus! {

/// The days of one calendar month, by index into the daily records.
#[derive(Debug)]
pub struct MonthBucket {
    pub year: i32,
    pub month: u32,
    pub days: Vec<usize>,
}

/// Order of (year, month) keys.
pub open spec fn month_lt(a: (i32, u32), b: (i32, u32)) -> bool {
    a.0 < b.0 || (a.0 == b.0 && a.1 < b.1)
}

/// The (year, month) of a date.
pub open spec fn month_of(d: Date) -> (i32, u32) {
    (d.year, d.month)
}

/// Dates in the month `key`.
pub open spec fn in_month(key: (i32, u32)) -> spec_fn(Date) -> bool {
    |d: Date| month_of(d) == key
}

/// The records of `dates[..i]` grouped by month: every month of those records is a key,
/// every key is such a month, and each key maps to the indices of its records in order.
pub open spec fn month_map_upto(dates: Seq<Date>, m: Map<(i32, u32), Vec<usize>>, i: int) -> bool {
    &&& forall|j: int| 0 <= j < i ==> #[trigger] m.contains_key(month_of(dates[j]))
    &&& forall|key: (i32, u32)|
        #[trigger] m.contains_key(key) ==> m[key]@ == indices_where(dates, in_month(key), i)
            && exists|j: int| #![trigger dates[j]] 0 <= j < i && month_of(dates[j]) == key
}

/// The indices of all records of month `key`.
pub open spec fn all_days_in(dates: Seq<Date>, key: (i32, u32)) -> Seq<usize> {
    indices_where(dates, in_month(key), dates.len() as int)
}

/// `(year, month)` keys follow the laws of a total order, so a map keyed by them
/// behaves as its specification says.
spec fn month_keys_ordered() -> bool {
    vstd::laws_cmp::obeys_cmp::<(i32, u32)>()
}

proof fn lemma_month_keys_ordered()
    ensures
        month_keys_ordered(),
{
    broadcast use vstd::laws_cmp::group_laws_cmp;
}

/// A map walked in increasing key order visits the months in increasing order.
proof fn lemma_walk_sorted(m: BTreeMap<(i32, u32), Vec<usize>>)
    requires
        vstd::std_specs::btree::increasing_seq(IteratorSpec::remaining(&spec_btree_map_iter(&m)).map_values(
            |kv: (&(i32, u32), &Vec<usize>)| *kv.0,
        )),
    ensures
        forall|a: int, b: int|
            #![trigger IteratorSpec::remaining(&spec_btree_map_iter(&m))[a], IteratorSpec::remaining(&spec_btree_map_iter(&m))[b]]
            0 <= a < b < IteratorSpec::remaining(&spec_btree_map_iter(&m)).len() ==> month_lt(
                *IteratorSpec::remaining(&spec_btree_map_iter(&m))[a].0,
                *IteratorSpec::remaining(&spec_btree_map_iter(&m))[b].0,
            ),
{
    broadcast use vstd::std_specs::btree::group_btree_axioms;
    broadcast use vstd::laws_cmp::group_laws_cmp;
    let rem = IteratorSpec::remaining(&spec_btree_map_iter(&m));
    let ks = IteratorSpec::remaining(&spec_btree_map_iter(&m)).map_values(
        |kv: (&(i32, u32), &Vec<usize>)| *kv.0,
    );
    assert forall|a: int, b: int| 0 <= a < b < rem.len() implies month_lt(*rem[a].0, *rem[b].0) by {
        assert(ks[a] == *rem[a].0 && ks[b] == *rem[b].0);
        assert(vstd::std_specs::cmp::OrdSpec::cmp_spec(&ks[a], &ks[b]) is Less);
    }
}

/// Groups the records by month in a map from (year, month) to the indices of its records.
fn month_map(dates: &Vec<Date>) -> (m: BTreeMap<(i32, u32), Vec<usize>>)
    ensures
        month_map_upto(dates@, m@, dates@.len() as int),
{
    broadcast use vstd::std_specs::btree::group_btree_axioms;
    proof {
        lemma_month_keys_ordered();
    }
    let mut m: BTreeMap<(i32, u32), Vec<usize>> = BTreeMap::new();
    let mut i: usize = 0;
    while i < dates.len()
        invariant
            i <= dates.len(),
            month_keys_ordered(),
            month_map_upto(dates@, m@, i as int),
        decreases dates.len() - i,
    {
        let key: (i32, u32) = (dates[i].year, dates[i].month);
        assert(key == month_of(dates@[i as int]));
        let ghost old_m = m@;
        let mut v = match m.remove(&key) {
            Some(v) => v,
            None => {
                proof {
                    let idx = indices_where(dates@, in_month(key), i as int);
                    if idx.len() > 0 {
                        lemma_indices_where_member(dates@, in_month(key), i as int, idx[0]);
                        assert(old_m.contains_key(month_of(dates@[idx[0] as int])));
                    }
                    assert(idx =~= Seq::<usize>::empty());
                }
                Vec::new()
            },
        };
        assert(v@ == indices_where(dates@, in_month(key), i as int));
        v.push(i);
        assert(in_month(key)(dates@[i as int]));
        assert(v@ == indices_where(dates@, in_month(key), i + 1));
        m.insert(key, v);
        assert(m@ == old_m.insert(key, v));
        assert forall|k2: (i32, u32)| #[trigger] m@.contains_key(k2) implies m@[k2]@ == indices_where(
            dates@,
            in_month(k2),
            i + 1,
        ) && exists|j: int| #![trigger dates@[j]] 0 <= j < i + 1 && month_of(dates@[j]) == k2 by {
            if k2 != key {
                assert(old_m.contains_key(k2));
                assert(!in_month(k2)(dates@[i as int]));
                let j = choose|j: int| #![trigger dates@[j]] 0 <= j < i && month_of(dates@[j]) == k2;
                assert(0 <= j < i + 1 && month_of(dates@[j]) == k2);
            } else {
                assert(month_of(dates@[i as int]) == k2);
            }
        }
        assert forall|j: int| 0 <= j < i + 1 implies #[trigger] m@.contains_key(month_of(dates@[j])) by {
            if j < i {
                assert(old_m.contains_key(month_of(dates@[j])));
            }
        }
        i = i + 1;
    }
    m
}

/// The monthly buckets of a series of days: one bucket per month that occurs, in
/// increasing (year, month) order, each with the indices of its days in their order.
pub open spec fn monthly_buckets_ok(dates: Seq<Date>, r: Seq<MonthBucket>) -> bool {
    &&& forall|a: int, b: int|
        0 <= a < b < r.len() ==> month_lt(
            ((#[trigger] r[a]).year, r[a].month),
            ((#[trigger] r[b]).year, r[b].month),
        )
    &&& forall|a: int|
        0 <= a < r.len() ==> (#[trigger] r[a]).days@ == all_days_in(dates, (r[a].year, r[a].month)) && exists|j: int| #![trigger dates[j]] 0 <= j < dates.len() && month_of(dates[j]) == (r[a].year, r[a].month)
    &&& forall|j: int| 0 <= j < dates.len() ==> has_bucket(r, month_of(#[trigger] dates[j]))
}

/// Some bucket of `r` is for the month `key`.
pub open spec fn has_bucket(r: Seq<MonthBucket>, key: (i32, u32)) -> bool {
    exists|a: int| 0 <= a < r.len() && ((#[trigger] r[a]).year, r[a].month) == key
}

/// Groups daily records into calendar months (year, month), ordered by month; the
/// averages and extremes of each month are taken over its bucket's days.
pub fn aggregate_monthly(dates: &Vec<Date>) -> (r: Vec<MonthBucket>)
    ensures
        monthly_buckets_ok(dates@, r@),
{
    broadcast use vstd::std_specs::btree::group_btree_axioms;
    let m = month_map(dates);
    let ghost rem = IteratorSpec::remaining(&spec_btree_map_iter(&m));
    proof {
        lemma_month_keys_ordered();
    }
    let walk = m.iter();
    proof {
        assert(vstd::std_specs::btree::increasing_seq(IteratorSpec::remaining(&spec_btree_map_iter(&m)).map_values(
            |kv: (&(i32, u32), &Vec<usize>)| *kv.0,
        )));
        lemma_walk_sorted(m);
    }
    let mut r: Vec<MonthBucket> = Vec::new();
    for kv in it: walk
        invariant
            month_map_upto(dates@, m@, dates@.len() as int),
            rem == IteratorSpec::remaining(&spec_btree_map_iter(&m)),
            it.seq() == rem,
            r@.len() == it.index(),
            forall|t: int| #![trigger r@[t]] 0 <= t < it.index() ==> (r@[t].year, r@[t].month) == *rem[t].0
                && r@[t].days@ == (*rem[t].1)@,
    {
        let key = *kv.0;
        let days = kv.1.clone();
        assert(days@ =~= (*kv.1)@);
        r.push(MonthBucket { year: key.0, month: key.1, days });
    }
    assert(r@.len() == rem.len());
    assert forall|t: int| #![trigger r@[t]] 0 <= t < r@.len() implies r@[t].days@ == all_days_in(
        dates@,
        (r@[t].year, r@[t].month),
    ) && exists|j: int| #![trigger dates@[j]] 0 <= j < dates@.len() && month_of(dates@[j]) == (
    r@[t].year, r@[t].month) by {
        let key = *rem[t].0;
        assert(m@.contains_key(key) && m@[key] == *rem[t].1);
    }
    assert forall|a: int, b: int| 0 <= a < b < r@.len() implies month_lt(
        ((#[trigger] r@[a]).year, r@[a].month),
        ((#[trigger] r@[b]).year, r@[b].month),
    ) by {
        assert(month_lt(*rem[a].0, *rem[b].0));
    }
    assert forall|j: int| 0 <= j < dates@.len() implies has_bucket(r@, month_of(#[trigger] dates@[j])) by {
        let key = month_of(dates@[j]);
        assert(m@.contains_key(key));
        assert(rem.contains((&key, &m@[key])));
        let t = choose|t: int| 0 <= t < rem.len() && rem[t] == (&key, &m@[key]);
        assert((r@[t].year, r@[t].month) == key);
    }
    r
}

} // verus!

verus! {

/// Each daily record falls in exactly one monthly bucket: the bucket of its own month.
pub proof fn law_day_in_own_month_bucket(dates: Seq<Date>, r: Seq<MonthBucket>, j: int, a: int)
    requires
        monthly_buckets_ok(dates, r),
        dates.len() <= usize::MAX,
        0 <= j < dates.len(),
        0 <= a < r.len(),
    ensures
        r[a].days@.contains(j as usize) <==> month_of(dates[j]) == (r[a].year, r[a].month),
        has_bucket(r, month_of(dates[j])),
{
    assert(r[a].days@ == indices_where(dates, in_month((r[a].year, r[a].month)), dates.len() as int));
    lemma_indices_where_member(dates, in_month((r[a].year, r[a].month)), dates.len() as int, j as usize);
    assert(has_bucket(r, month_of(dates[j])));
}

} // verus!

verus! {

proof fn lemma_dedup_props(s: Seq<Date>)
    ensures
        forall|i: int| 0 <= i < dedup(s).len() - 1 ==> #[trigger] dedup(s)[i] != dedup(s)[i + 1],
        forall|i: int| 0 <= i < dedup(s).len() ==> s.contains(#[trigger] dedup(s)[i]),
        forall|j: int| 0 <= j < s.len() ==> dedup(s).contains(#[trigger] s[j]),
        s.len() > 0 ==> dedup(s).len() > 0 && dedup(s).last() == s.last(),
    decreases s.len(),
{
    if s.len() > 0 {
        let p = s.drop_last();
        lemma_dedup_props(p);
        let d = dedup(s);
        let dp = dedup(p);
        if s.len() >= 2 && s[s.len() - 2] == s.last() {
            assert(d == dp);
            assert forall|i: int| 0 <= i < d.len() implies s.contains(#[trigger] d[i]) by {
                assert(p.contains(d[i]));
                let k = choose|k: int| 0 <= k < p.len() && p[k] == d[i];
                assert(s[k] == d[i]);
            }
            assert forall|j: int| 0 <= j < s.len() implies d.contains(#[trigger] s[j]) by {
                if j < s.len() - 1 {
                    assert(s[j] == p[j]);
                } else {
                    assert(p[p.len() - 1] == s[j]);
                }
            }
        } else {
            assert(d == dp.push(s.last()));
            assert forall|i: int| 0 <= i < d.len() - 1 implies #[trigger] d[i] != d[i + 1] by {
                if i < dp.len() - 1 {
                    assert(d[i] == dp[i] && d[i + 1] == dp[i + 1]);
                } else {
                    assert(d[i] == dp.last());
                    assert(dp.last() == p.last());
                }
            }
            assert forall|i: int| 0 <= i < d.len() implies s.contains(#[trigger] d[i]) by {
                if i < dp.len() {
                    assert(d[i] == dp[i]);
                    assert(p.contains(dp[i]));
                    let k = choose|k: int| 0 <= k < p.len() && p[k] == dp[i];
                    assert(s[k] == d[i]);
                } else {
                    assert(s[s.len() - 1] == d[i]);
                }
            }
            assert forall|j: int| 0 <= j < s.len() implies d.contains(#[trigger] s[j]) by {
                if j < s.len() - 1 {
                    assert(s[j] == p[j]);
                    assert(dp.contains(p[j]));
                    let k = choose|k: int| 0 <= k < dp.len() && dp[k] == p[j];
                    assert(d[k] == s[j]);
                } else {
                    assert(d[d.len() - 1] == s[j]);
                }
            }
        }
    }
}

/// The distinct days of a run of records never repeat a day back to back, contain only
/// days of the records, and contain every day of the records.
pub proof fn law_unique_dates(s: Seq<Date>)
    ensures
        forall|i: int| 0 <= i < dedup(s).len() - 1 ==> #[trigger] dedup(s)[i] != dedup(s)[i + 1],
        forall|i: int| 0 <= i < dedup(s).len() ==> s.contains(#[trigger] dedup(s)[i]),
        forall|j: int| 0 <= j < s.len() ==> dedup(s).contains(#[trigger] s[j]),
{
    lemma_dedup_props(s);
}

} // verus!
