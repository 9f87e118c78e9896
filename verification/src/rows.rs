//! Which day-summary line accompanies each hourly row of a table.
use vstd::prelude::*;
use crate::types::Date;

verus! {

/// Placement of one hourly row.
#[derive(Clone, Copy, Debug, PartialEq, Eq, Structural)]
pub struct RowPlan {
    /// The row starts a new day (a separator precedes it unless it is the first row).
    pub new_day: bool,
    /// Which day summary is shown beside the day's rows.
    pub summary_index: usize,
    /// Position of the row within its day, selecting the summary line shown beside it.
    pub row_in_day: usize,
}

/// Index of the first row of the run of equal dates that contains row `i`.
pub open spec fn run_start(d: Seq<Date>, i: int) -> int
    decreases i,
{
    if i <= 0 {
        0
    } else if d[i] != d[i - 1] {
        i
    } else {
        run_start(d, i - 1)
    }
}

/// Index of the first entry at or after `k` equal to `date`, or `s.len()`.
pub open spec fn find_date_from(s: Seq<Date>, date: Date, k: int) -> int
    decreases s.len() - k,
{
    if k < 0 || k >= s.len() {
        s.len() as int
    } else if s[k] == date {
        k
    } else {
        find_date_from(s, date, k + 1)
    }
}

/// Index of the summary for `date`: its first position in `dates`, or 0 if absent.
pub open spec fn summary_index_for(dates: Seq<Date>, date: Date) -> int {
    let k = find_date_from(dates, date, 0);
    if k < dates.len() { k } else { 0 }
}

/// The plan of row `i`.
pub open spec fn spec_row_plan(d: Seq<Date>, dates: Seq<Date>, i: int) -> RowPlan {
    RowPlan {
        new_day: i == 0 || d[i] != d[i - 1],
        summary_index: summary_index_for(dates, d[i]) as usize,
        row_in_day: (i - run_start(d, i)) as usize,
    }
}

proof fn lemma_run_start_bounds(d: Seq<Date>, i: int)
    requires
        0 <= i < d.len(),
    ensures
        0 <= run_start(d, i) <= i,
        d[run_start(d, i)] == d[i],
    decreases i,
{
    if i > 0 && d[i] == d[i - 1] {
        lemma_run_start_bounds(d, i - 1);
    }
}

/// Index of the summary for `date` in `dates`.
fn summary_index(dates: &Vec<Date>, date: Date) -> (r: usize)
    ensures
        r == summary_index_for(dates@, date),
{
    let mut k: usize = 0;
    while k < dates.len()
        invariant
            k <= dates.len(),
            find_date_from(dates@, date, k as int) == find_date_from(dates@, date, 0),
        decreases dates.len() - k,
    {
        if dates[k] == date {
            return k;
        }
        k = k + 1;
    }
    0
}

/// Plans the hourly rows of a table: `record_dates` are the dates of the hourly records
/// in order, `dates` the days that have summaries.
pub fn plan_rows(record_dates: &Vec<Date>, dates: &Vec<Date>) -> (r: Vec<RowPlan>)
    ensures
        r@.len() == record_dates@.len(),
        forall|i: int| 0 <= i < r@.len() ==> #[trigger] r@[i] == spec_row_plan(record_dates@, dates@, i),
{
    let mut r: Vec<RowPlan> = Vec::new();
    let mut i: usize = 0;
    let mut idx: usize = 0;
    let mut row: usize = 0;
    while i < record_dates.len()
        invariant
            i <= record_dates.len(),
            r@.len() == i,
            forall|j: int| 0 <= j < i ==> #[trigger] r@[j] == spec_row_plan(record_dates@, dates@, j),
            i > 0 ==> idx == summary_index_for(dates@, record_dates@[i - 1]),
            i > 0 ==> row == i - 1 - run_start(record_dates@, i - 1),
        decreases record_dates.len() - i,
    {
        let d = record_dates[i];
        let new_day = i == 0 || record_dates[i - 1] != d;
        if new_day {
            idx = summary_index(dates, d);
            row = 0;
        } else {
            proof {
                lemma_run_start_bounds(record_dates@, (i - 1) as int);
            }
            row = row + 1;
        }
        r.push(RowPlan { new_day, summary_index: idx, row_in_day: row });
        i = i + 1;
    }
    r
}

/// Row `i` shows line `i - s` of its day's summary, where `s` is the first row of that
/// day: the rows of one day are numbered 0, 1, 2, ... without gaps.
pub proof fn law_rows_count_within_day(d: Seq<Date>, dates: Seq<Date>, i: int)
    requires
        0 < i < d.len(),
        i - run_start(d, i) <= usize::MAX,
        i - 1 - run_start(d, i - 1) < usize::MAX,
    ensures
        spec_row_plan(d, dates, i).new_day ==> spec_row_plan(d, dates, i).row_in_day == 0,
        !spec_row_plan(d, dates, i).new_day ==> spec_row_plan(d, dates, i).row_in_day
            == spec_row_plan(d, dates, i - 1).row_in_day + 1
            && spec_row_plan(d, dates, i).summary_index == spec_row_plan(d, dates, i - 1).summary_index,
{
    lemma_run_start_bounds(d, i - 1);
}

} // verus!
