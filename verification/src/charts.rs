//! Geometry of the overview charts and their axes.
use vstd::prelude::*;
use crate::text::{decimal, push_decimal};

verus! {

/// `a * b / d`, computed without overflow.
fn mul_div(a: usize, b: usize, d: usize) -> (r: u128)
    requires
        d > 0,
    ensures
        r == (a * b) as int / (d as int),
{
    assert((a as u128) * (b as u128) <= u128::MAX) by (nonlinear_arith)
        requires
            a <= u64::MAX,
            b <= u64::MAX,
    ;
    (a as u128) * (b as u128) / (d as u128)
}

/// Which value a chart column shows: `min(c * n / chart_w, n - 1)` with `n` at least 1.
pub open spec fn spec_sample_index(c: int, len: int, chart_w: int) -> int {
    let n = if len >= 1 { len } else { 1 };
    let i = c * n / chart_w;
    if i < n - 1 { i } else { n - 1 }
}

/// The index of the value shown in chart column `c` of `chart_w`, for `len` values.
pub fn sample_index(c: usize, len: usize, chart_w: usize) -> (r: usize)
    requires
        chart_w > 0,
    ensures
        r == spec_sample_index(c as int, len as int, chart_w as int),
        r < (if len >= 1 { len } else { 1 }),
{
    let n: usize = if len >= 1 { len } else { 1 };
    let i: u128 = mul_div(c, n, chart_w);
    if i < (n - 1) as u128 { i as usize } else { n - 1 }
}

/// Later chart columns never show earlier values.
pub proof fn law_sample_index_monotone(c1: int, c2: int, len: int, chart_w: int)
    requires
        0 <= c1 <= c2,
        chart_w > 0,
        len >= 0,
    ensures
        spec_sample_index(c1, len, chart_w) <= spec_sample_index(c2, len, chart_w),
{
    let n = if len >= 1 { len } else { 1 };
    assert(c1 * n <= c2 * n) by (nonlinear_arith)
        requires
            0 <= c1 <= c2,
            n >= 1,
    ;
    vstd::arithmetic::div_mod::lemma_div_is_ordered(c1 * n, c2 * n, chart_w);
}

/// The chart's columns spread over the whole series: column `c` of `chart_w` shows the
/// value `i` with `i * chart_w <= c * len < (i + 1) * chart_w` (the value under the
/// column's left edge when the series is stretched across the chart), or the last value
/// when that lies past the end; so the first column shows the first value and the last
/// column a value within `len / chart_w + 1` of the end.
pub proof fn law_sample_index_spreads(c: int, len: int, chart_w: int)
    requires
        len >= 1,
        chart_w > 0,
        0 <= c,
    ensures
        0 <= spec_sample_index(c, len, chart_w) < len,
        spec_sample_index(c, len, chart_w) * chart_w <= c * len,
        spec_sample_index(c, len, chart_w) == len - 1 || c * len < (spec_sample_index(c, len, chart_w) + 1) * chart_w,
        c * len >= (len - 1) * chart_w ==> spec_sample_index(c, len, chart_w) == len - 1,
        spec_sample_index(0, len, chart_w) == 0,
        spec_sample_index(chart_w - 1, len, chart_w) >= len - len / chart_w - 1,
{
    let q = c * len / chart_w;
    vstd::arithmetic::div_mod::lemma_fundamental_div_mod(c * len, chart_w);
    vstd::arithmetic::div_mod::lemma_mod_bound(c * len, chart_w);
    assert(0 <= c * len) by (nonlinear_arith)
        requires
            0 <= c,
            len >= 1,
    ;
    vstd::arithmetic::div_mod::lemma_div_pos_is_pos(c * len, chart_w);
    assert(chart_w * q <= c * len < chart_w * (q + 1)) by (nonlinear_arith)
        requires
            c * len == chart_w * q + (c * len) % chart_w,
            0 <= (c * len) % chart_w < chart_w,
    ;
    let i = spec_sample_index(c, len, chart_w);
    if q < len - 1 {
        assert(i == q);
        assert(i * chart_w == chart_w * q) by (nonlinear_arith)
            requires
                i == q,
        ;
        assert((i + 1) * chart_w == chart_w * (q + 1)) by (nonlinear_arith)
            requires
                i == q,
        ;
    } else {
        assert(i == len - 1);
        assert(i * chart_w <= c * len) by (nonlinear_arith)
            requires
                i == len - 1,
                i <= q,
                chart_w * q <= c * len,
                chart_w > 0,
        ;
    }
    if c * len >= (len - 1) * chart_w {
        vstd::arithmetic::div_mod::lemma_div_is_ordered((len - 1) * chart_w, c * len, chart_w);
        vstd::arithmetic::div_mod::lemma_div_multiples_vanish(len - 1, chart_w);
        assert((len - 1) * chart_w == chart_w * (len - 1)) by (nonlinear_arith);
    }
    assert(0 * len == 0);
    // the last column
    let w = chart_w;
    let ql = (w - 1) * len / w;
    let lq = len / w;
    vstd::arithmetic::div_mod::lemma_fundamental_div_mod(len, w);
    vstd::arithmetic::div_mod::lemma_mod_bound(len, w);
    vstd::arithmetic::div_mod::lemma_fundamental_div_mod((w - 1) * len, w);
    vstd::arithmetic::div_mod::lemma_mod_bound((w - 1) * len, w);
    assert(ql >= len - lq - 1) by (nonlinear_arith)
        requires
            len == w * lq + len % w,
            0 <= len % w < w,
            (w - 1) * len == w * ql + ((w - 1) * len) % w,
            0 <= ((w - 1) * len) % w < w,
            w > 0,
    ;
}

/// Eighths of a cell filled in chart row `r` (0 = top) of `h` rows for a value that is
/// `p` eighths tall: 8 for a full block, 0 for an empty cell.
pub open spec fn spec_cell_eighths(p: int, r: int, h: int) -> int {
    let bottom = (h - 1 - r) * 8;
    let top = (h - r) * 8;
    if p >= top {
        8
    } else if p <= bottom {
        0
    } else {
        p - bottom
    }
}

/// Eighths of the cell in row `r` (0 = top) of a chart `h` rows tall for a value `p`
/// eighths tall; the result indexes the block characters ` ▁▂▃▄▅▆▇█`.
pub fn cell_eighths(p: usize, r: usize, h: usize) -> (e: usize)
    requires
        r < h,
        h * 8 <= usize::MAX,
    ensures
        e == spec_cell_eighths(p as int, r as int, h as int),
        e <= 8,
{
    let bottom = (h - 1 - r) * 8;
    let top = (h - r) * 8;
    if p >= top {
        8
    } else if p <= bottom {
        0
    } else {
        p - bottom
    }
}

/// Total eighths in the lowest `m` rows of a column `h` rows tall.
pub open spec fn column_eighths(p: int, h: int, m: int) -> int
    decreases m,
{
    if m <= 0 {
        0
    } else {
        column_eighths(p, h, m - 1) + spec_cell_eighths(p, h - m, h)
    }
}

/// The cells of a chart column together show exactly the value's height, capped at the
/// chart's height.
pub proof fn law_column_shows_value(p: int, h: int)
    requires
        p >= 0,
        h >= 0,
    ensures
        column_eighths(p, h, h) == (if p <= 8 * h { p } else { 8 * h }),
{
    lemma_column_eighths(p, h, h);
}

proof fn lemma_column_eighths(p: int, h: int, m: int)
    requires
        p >= 0,
        0 <= m <= h,
    ensures
        column_eighths(p, h, m) == (if p <= 8 * m { p } else { 8 * m }),
    decreases m,
{
    if m > 0 {
        lemma_column_eighths(p, h, m - 1);
        assert((h - 1 - (h - m)) * 8 == (m - 1) * 8);
        assert((h - (h - m)) * 8 == m * 8);
    }
}

/// Whether the secondary series' marker sits in row `r`, and with how many eighths.
pub open spec fn spec_marker_eighths(s: int, r: int, h: int) -> Option<int> {
    let bottom = (h - 1 - r) * 8;
    let top = (h - r) * 8;
    if s > bottom && s <= top {
        Some(if s - bottom <= 8 { s - bottom } else { 8 })
    } else {
        None
    }
}

/// The secondary series' marker in row `r` (0 = top) of `h` rows, for a value `s` eighths
/// tall: the cell where the value's top lies.
pub fn marker_eighths(s: usize, r: usize, h: usize) -> (e: Option<usize>)
    requires
        r < h,
        h * 8 <= usize::MAX,
    ensures
        e == (match spec_marker_eighths(s as int, r as int, h as int) {
            Some(x) => Some(x as usize),
            None => None::<usize>,
        }),
{
    let bottom = (h - 1 - r) * 8;
    let top = (h - r) * 8;
    if s > bottom && s <= top {
        let f = s - bottom;
        Some(if f <= 8 { f } else { 8 })
    } else {
        None
    }
}

/// A value of positive height within the chart has its marker in exactly one row.
pub proof fn law_marker_in_one_row(s: int, h: int, r1: int, r2: int)
    requires
        0 < s <= 8 * h,
        0 <= r1 < h,
        0 <= r2 < h,
        spec_marker_eighths(s, r1, h) is Some,
        spec_marker_eighths(s, r2, h) is Some,
    ensures
        r1 == r2,
{
    if r1 < r2 {
        assert((h - 1 - r1) * 8 >= (h - r2) * 8);
    } else if r2 < r1 {
        assert((h - 1 - r2) * 8 >= (h - r1) * 8);
    }
}

/// The marker of a value of positive height within the chart lies in row
/// `h - 1 - (s - 1) / 8`.
pub proof fn law_marker_row(s: int, h: int)
    requires
        0 < s <= 8 * h,
    ensures
        0 <= h - 1 - (s - 1) / 8 < h,
        spec_marker_eighths(s, h - 1 - (s - 1) / 8, h) is Some,
{
    let q = (s - 1) / 8;
    vstd::arithmetic::div_mod::lemma_fundamental_div_mod(s - 1, 8);
    vstd::arithmetic::div_mod::lemma_mod_bound(s - 1, 8);
    assert(q >= 0);
    assert(8 * q <= s - 1);
    assert(s - 1 < 8 * q + 8);
    assert(q < h);
    let r = h - 1 - q;
    assert((h - 1 - r) * 8 == q * 8);
    assert((h - r) * 8 == q * 8 + 8);
}

/// `label` can be written at `col` of `axis`: it fits and covers only `fill` characters.
pub open spec fn can_place(axis: Seq<char>, col: int, label: Seq<char>, fill: char) -> bool {
    &&& 0 <= col
    &&& col + label.len() <= axis.len()
    &&& forall|i: int| col <= i < col + label.len() ==> axis[i] == fill
}

/// `axis` with `label` written at `col` when it can be placed there, else unchanged.
pub open spec fn placed(axis: Seq<char>, col: int, label: Seq<char>, fill: char) -> Seq<char> {
    if can_place(axis, col, label, fill) {
        axis.subrange(0, col) + label + axis.subrange(col + label.len(), axis.len() as int)
    } else {
        axis
    }
}

/// Writes `label` into `axis` at `col` if it fits and only covers `fill` characters, so that
/// labels never overlap or get cut; returns whether it was written.
pub fn try_place(axis: &mut Vec<char>, col: usize, label: &Vec<char>, fill: char) -> (r: bool)
    ensures
        r == can_place(old(axis)@, col as int, label@, fill),
        final(axis)@ == placed(old(axis)@, col as int, label@, fill),
{
    if label.len() > axis.len() || col > axis.len() - label.len() {
        return false;
    }
    let mut j: usize = 0;
    while j < label.len()
        invariant
            j <= label.len(),
            col + label.len() <= axis.len(),
            forall|i: int| col <= i < col + j ==> axis@[i] == fill,
        decreases label.len() - j,
    {
        if axis[col + j] != fill {
            assert(!can_place(axis@, col as int, label@, fill));
            return false;
        }
        j = j + 1;
    }
    let ghost before = axis@;
    let mut k: usize = 0;
    while k < label.len()
        invariant
            k <= label.len(),
            col + label.len() <= axis.len(),
            axis@.len() == before.len(),
            forall|i: int| 0 <= i < col ==> axis@[i] == before[i],
            forall|i: int| col + label.len() <= i < before.len() ==> axis@[i] == before[i],
            forall|i: int| col <= i < col + k ==> axis@[i] == label@[i - col],
        decreases label.len() - k,
    {
        axis.set(col + k, label[k]);
        k = k + 1;
    }
    assert(axis@ =~= placed(before, col as int, label@, fill));
    true
}

/// `axis` with `label` written from `col` on, cut at the end of the axis.
pub open spec fn spec_place_clipped(axis: Seq<char>, col: int, label: Seq<char>) -> Seq<char> {
    Seq::new(axis.len(), |i: int| if col <= i < col + label.len() { label[i - col] } else { axis[i] })
}

/// Writes `label` into `axis` from `col` on, dropping what runs past the end.
pub fn place_clipped(axis: &mut Vec<char>, col: usize, label: &Vec<char>)
    ensures
        final(axis)@ == spec_place_clipped(old(axis)@, col as int, label@),
{
    let ghost before = axis@;
    let mut j: usize = 0;
    while j < label.len()
        invariant
            j <= label.len(),
            axis@.len() == before.len(),
            forall|i: int| 0 <= i < axis@.len() ==> #[trigger] axis@[i] == (if col <= i < col + j {
                label@[i - col]
            } else {
                before[i]
            }),
        decreases label.len() - j,
    {
        if col < axis.len() && j < axis.len() - col {
            axis.set(col + j, label[j]);
        }
        j = j + 1;
    }
    assert(axis@ =~= spec_place_clipped(before, col as int, label@));
}

/// An axis line of `width` rule characters.
pub open spec fn blank_axis(width: int) -> Seq<char> {
    Seq::new(width as nat, |i: int| '─')
}

/// The axis after trying to place the first `k` labels, label `j` at column
/// `marks[j] * width / n`.
pub open spec fn labeled_axis(width: int, n: int, marks: Seq<usize>, labels: Seq<Seq<char>>, k: int) -> Seq<char>
    decreases k,
{
    if k <= 0 {
        blank_axis(width)
    } else {
        placed(labeled_axis(width, n, marks, labels, k - 1), marks[k - 1] * width / n, labels[k - 1], '─')
    }
}

/// An axis line of `width` columns for `n` values, with label `j` tried at the column of
/// value `marks[j]`; a label that would run past the end or over an earlier label is left out.
pub fn axis_line(width: usize, n: usize, marks: &Vec<usize>, labels: &Vec<Vec<char>>) -> (r: Vec<char>)
    requires
        n > 0,
        marks.len() == labels.len(),
    ensures
        r@ == labeled_axis(width as int, n as int, marks@, labels@.map_values(|l: Vec<char>| l@), marks.len() as int),
{
    let ghost ls = labels@.map_values(|l: Vec<char>| l@);
    let mut axis: Vec<char> = Vec::new();
    let mut i: usize = 0;
    while i < width
        invariant
            i <= width,
            axis@ == Seq::new(i as nat, |j: int| '─'),
        decreases width - i,
    {
        axis.push('─');
        i = i + 1;
        assert(axis@ =~= Seq::new(i as nat, |j: int| '─'));
    }
    let mut k: usize = 0;
    while k < marks.len()
        invariant
            k <= marks.len() == labels.len(),
            n > 0,
            ls == labels@.map_values(|l: Vec<char>| l@),
            axis@ == labeled_axis(width as int, n as int, marks@, ls, k as int),
        decreases marks.len() - k,
    {
        let col: u128 = mul_div(marks[k], width, n);
        let ghost before = axis@;
        if col <= usize::MAX as u128 {
            try_place(&mut axis, col as usize, &labels[k], '─');
        } else {
            let alen = axis.len();
            assert(!can_place(before, (marks@[k as int] * width) as int / (n as int), ls[k as int], '─'));
        }
        assert(ls[k as int] == labels@[k as int]@);
        k = k + 1;
    }
    axis
}

/// Row `i` begins a new month (the month before the first row counts as 0).
pub open spec fn month_change(months: Seq<u32>, i: int) -> bool {
    months[i] != (if i == 0 { 0 } else { months[i - 1] })
}

/// Indices `i < j` where a new month begins.
pub open spec fn month_starts_upto(months: Seq<u32>, j: int) -> Seq<usize>
    decreases j,
{
    if j <= 0 {
        Seq::empty()
    } else if month_change(months, j - 1) {
        month_starts_upto(months, j - 1).push((j - 1) as usize)
    } else {
        month_starts_upto(months, j - 1)
    }
}

/// The days of a daily series where a month label goes: every day whose month differs
/// from the previous day's.
pub fn month_starts(months: &Vec<u32>) -> (r: Vec<usize>)
    ensures
        r@ == month_starts_upto(months@, months@.len() as int),
{
    let mut r: Vec<usize> = Vec::new();
    let mut last: u32 = 0;
    let mut i: usize = 0;
    while i < months.len()
        invariant
            i <= months.len(),
            last == (if i == 0 { 0 } else { months@[i - 1] }),
            r@ == month_starts_upto(months@, i as int),
        decreases months.len() - i,
    {
        if months[i] != last {
            r.push(i);
            last = months[i];
        }
        i = i + 1;
    }
    r
}

/// Years between labels on a monthly axis, from the columns available per year
/// (`12 * width / n`, compared exactly): 1 for at least 5, 2 for at least 3, 5 for at least
/// 2, 10 for at least 1, else 20.
pub open spec fn spec_year_interval(width: int, n: int) -> int {
    if 12 * width >= 5 * n {
        1
    } else if 12 * width >= 3 * n {
        2
    } else if 12 * width >= 2 * n {
        5
    } else if 12 * width >= n {
        10
    } else {
        20
    }
}

/// Years between labels on a monthly axis.
pub fn year_interval(width: usize, n: usize) -> (r: i64)
    ensures
        r == spec_year_interval(width as int, n as int),
        r >= 1,
{
    let w: u128 = 12 * (width as u128);
    let m: u128 = n as u128;
    if w >= 5 * m {
        1
    } else if w >= 3 * m {
        2
    } else if w >= 2 * m {
        5
    } else if w >= m {
        10
    } else {
        20
    }
}

/// Absolute value.
pub open spec fn abs(x: int) -> int {
    if x < 0 { -x } else { x }
}

/// Row `i` of a monthly series begins a year that gets a label: its year differs from the
/// previous row's (the year before the first row counts as 0) and lies a whole number of
/// intervals after the first year.
pub open spec fn year_labeled(years: Seq<i32>, interval: int, i: int) -> bool {
    &&& years[i] != (if i == 0 { 0 } else { years[i - 1] })
    &&& abs(years[i] - years[0]) % interval == 0
}

/// The monthly axis after considering the first `k` rows.
pub open spec fn monthly_axis_upto(years: Seq<i32>, width: int, interval: int, k: int) -> Seq<char>
    decreases k,
{
    if k <= 0 {
        blank_axis(width)
    } else if year_labeled(years, interval, k - 1) {
        placed(
            monthly_axis_upto(years, width, interval, k - 1),
            (k - 1) * width / (years.len() as int),
            decimal(years[k - 1] as int),
            '─',
        )
    } else {
        monthly_axis_upto(years, width, interval, k - 1)
    }
}

/// The axis under a monthly chart: year numbers at the first month of every
/// `year_interval` years, placed where they fit.
pub fn monthly_axis(years: &Vec<i32>, width: usize) -> (r: Vec<char>)
    requires
        years.len() > 0,
    ensures
        r@ == monthly_axis_upto(years@, width as int, spec_year_interval(width as int, years.len() as int), years.len() as int),
{
    let n = years.len();
    let interval = year_interval(width, n);
    let mut axis: Vec<char> = Vec::new();
    let mut i: usize = 0;
    while i < width
        invariant
            i <= width,
            axis@ == Seq::new(i as nat, |j: int| '─'),
        decreases width - i,
    {
        axis.push('─');
        i = i + 1;
        assert(axis@ =~= Seq::new(i as nat, |j: int| '─'));
    }
    let first = years[0];
    let mut last: i32 = 0;
    let mut mi: usize = 0;
    while mi < n
        invariant
            mi <= n == years.len(),
            n > 0,
            first == years@[0],
            interval == spec_year_interval(width as int, n as int),
            interval >= 1,
            last == (if mi == 0 { 0 } else { years@[mi - 1] }),
            axis@ == monthly_axis_upto(years@, width as int, interval as int, mi as int),
        decreases n - mi,
    {
        let y = years[mi];
        if y != last {
            let d: i64 = (y as i64) - (first as i64);
            let a: u64 = if d < 0 { (-d) as u64 } else { d as u64 };
            if a % (interval as u64) == 0 {
                let col: u128 = mul_div(mi, width, n);
                let mut label: Vec<char> = Vec::new();
                push_decimal(&mut label, y as i64);
                assert(label@ =~= decimal(y as int));
                let ghost before = axis@;
                if col <= usize::MAX as u128 {
                    try_place(&mut axis, col as usize, &label, '─');
                } else {
                    let alen = axis.len();
                    assert(!can_place(before, (mi * width) as int / (n as int), label@, '─'));
                }
            }
            last = y;
        }
        mi = mi + 1;
    }
    axis
}

} // verus!

verus! {

/// Row `i` begins a new year (the year before the first row counts as 0).
pub open spec fn year_change(years: Seq<i32>, i: int) -> bool {
    years[i] != (if i == 0 { 0 } else { years[i - 1] })
}

/// Indices `i < j` where a new year begins.
pub open spec fn year_starts_upto(years: Seq<i32>, j: int) -> Seq<usize>
    decreases j,
{
    if j <= 0 {
        Seq::empty()
    } else if year_change(years, j - 1) {
        year_starts_upto(years, j - 1).push((j - 1) as usize)
    } else {
        year_starts_upto(years, j - 1)
    }
}

/// The rows of a monthly series where a year heading goes: every row whose year differs
/// from the previous row's.
pub fn year_starts(years: &Vec<i32>) -> (r: Vec<usize>)
    ensures
        r@ == year_starts_upto(years@, years@.len() as int),
{
    let mut r: Vec<usize> = Vec::new();
    let mut last: i32 = 0;
    let mut i: usize = 0;
    while i < years.len()
        invariant
            i <= years.len(),
            last == (if i == 0 { 0 } else { years@[i - 1] }),
            r@ == year_starts_upto(years@, i as int),
        decreases years.len() - i,
    {
        if years[i] != last {
            r.push(i);
            last = years[i];
        }
        i = i + 1;
    }
    r
}

} // verus!
