//! Column layout of the hourly, drone and historical tables.
use vstd::prelude::*;

verus! {

/// Narrowest bar a column may get.
pub const MIN_BAR: usize = 3;

/// Width of the value half of a day-summary row.
pub const SUMMARY_VALUE_W: usize = 7;

/// A table column: the width of its value label and its default bar width.
#[derive(Clone, Copy, Debug, PartialEq, Eq, Structural)]
pub struct ColumnDef {
    pub label_w: usize,
    pub bar_w: usize,
}

/// Width of the day-summary column: room for the widest label, a value and a space, at
/// least the header's width, and never less than 18.
pub open spec fn spec_day_column_width(label_w: int, header_w: int) -> int {
    let need = label_w + SUMMARY_VALUE_W + 1;
    let a = if need >= header_w { need } else { header_w };
    if a >= 18 { a } else { 18 }
}

/// Width of the day-summary column and the label width that goes with it,
/// `(day_w, day_w - 8)`.
pub fn day_column_width(natural_label_w: usize, header_w: usize) -> (r: (usize, usize))
    requires
        natural_label_w + SUMMARY_VALUE_W + 1 <= usize::MAX,
    ensures
        r.0 == spec_day_column_width(natural_label_w as int, header_w as int),
        r.1 == r.0 - SUMMARY_VALUE_W - 1,
        r.1 >= natural_label_w,
{
    let need = natural_label_w + SUMMARY_VALUE_W + 1;
    let a = if need >= header_w { need } else { header_w };
    let day_w = if a >= 18 { a } else { 18 };
    (day_w, day_w - SUMMARY_VALUE_W - 1)
}

/// Width taken by the first `k` columns when every bar is at its minimum.
pub open spec fn min_width(cols: Seq<ColumnDef>, k: int) -> int
    decreases k,
{
    if k <= 0 {
        0
    } else {
        min_width(cols, k - 1) + 1 + cols[k - 1].label_w + 1 + MIN_BAR
    }
}

/// Width of the first `k` columns without their bars (a space on each side of the label).
pub open spec fn fixed_width(cols: Seq<ColumnDef>, k: int) -> int
    decreases k,
{
    if k <= 0 {
        0
    } else {
        fixed_width(cols, k - 1) + 1 + cols[k - 1].label_w + 1
    }
}

/// Sum of the default bar widths of the first `k` columns.
pub open spec fn bar_weight(cols: Seq<ColumnDef>, k: int) -> int
    decreases k,
{
    if k <= 0 {
        0
    } else {
        bar_weight(cols, k - 1) + cols[k - 1].bar_w
    }
}

proof fn lemma_min_width_mono(cols: Seq<ColumnDef>, j: int, k: int)
    requires
        0 <= j <= k <= cols.len(),
    ensures
        min_width(cols, j) <= min_width(cols, k),
        min_width(cols, k) == fixed_width(cols, k) + MIN_BAR * k,
        fixed_width(cols, j) <= fixed_width(cols, k),
        bar_weight(cols, j) <= bar_weight(cols, k),
    decreases k,
{
    if k > 0 {
        if j < k {
            lemma_min_width_mono(cols, j, k - 1);
        } else {
            lemma_min_width_mono(cols, j - 1, k - 1);
        }
    }
}

/// Sum of the minimum widths of the first `n` columns.
fn min_width_exec(cols: &Vec<ColumnDef>, n: usize, limit: Ghost<int>) -> (r: usize)
    requires
        n <= cols.len(),
        min_width(cols@, cols.len() as int) <= limit@ <= usize::MAX,
    ensures
        r == min_width(cols@, n as int),
{
    let mut s: usize = 0;
    let mut i: usize = 0;
    while i < n
        invariant
            i <= n <= cols.len(),
            min_width(cols@, cols.len() as int) <= limit@ <= usize::MAX,
            s == min_width(cols@, i as int),
        decreases n - i,
    {
        proof {
            lemma_min_width_mono(cols@, i + 1, cols.len() as int);
        }
        s = s + 1 + cols[i].label_w + 1 + MIN_BAR;
        i = i + 1;
    }
    s
}

/// How many leading columns fit in `term_w` next to a prefix of `prefix_w`: the most
/// columns whose minimum layout fits, and always at least one.
pub fn fit_columns(prefix_w: usize, cols: &Vec<ColumnDef>, term_w: usize) -> (n: usize)
    requires
        cols.len() >= 1,
        prefix_w + min_width(cols@, cols.len() as int) <= usize::MAX,
    ensures
        1 <= n <= cols.len(),
        n == 1 || prefix_w + min_width(cols@, n as int) <= term_w,
        forall|k: int| n < k <= cols.len() ==> prefix_w + min_width(cols@, k) > term_w,
{
    let ghost lim = prefix_w + min_width(cols@, cols.len() as int);
    let mut n = cols.len();
    loop
        invariant
            1 <= n <= cols.len(),
            lim == prefix_w + min_width(cols@, cols.len() as int),
            lim <= usize::MAX,
            forall|k: int| n < k <= cols.len() ==> prefix_w + min_width(cols@, k) > term_w,
        ensures
            1 <= n <= cols.len(),
            n == 1 || prefix_w + min_width(cols@, n as int) <= term_w,
            forall|k: int| n < k <= cols.len() ==> prefix_w + min_width(cols@, k) > term_w,
        decreases n,
    {
        proof {
            lemma_min_width_mono(cols@, n as int, cols.len() as int);
        }
        let needed = prefix_w + min_width_exec(cols, n, Ghost(min_width(cols@, cols.len() as int)));
        if needed <= term_w || n == 1 {
            break;
        }
        n = n - 1;
    }
    n
}

/// Default bar width `bw` scaled to the available space, but at least `MIN_BAR`.
pub open spec fn base_bar(c: ColumnDef, avail: int, total: int) -> int {
    let w = c.bar_w * avail / (if total > 0 { total } else { 1 });
    if w >= MIN_BAR { w } else { MIN_BAR as int }
}

/// Sum of the scaled bar widths of the first `k` columns.
pub open spec fn base_sum(cols: Seq<ColumnDef>, k: int, avail: int, total: int) -> int
    decreases k,
{
    if k <= 0 {
        0
    } else {
        base_sum(cols, k - 1, avail, total) + base_bar(cols[k - 1], avail, total)
    }
}

/// Sum of the scaled widths before the minimum is applied.
pub open spec fn floor_sum(cols: Seq<ColumnDef>, k: int, avail: int, t: int) -> int
    decreases k,
{
    if k <= 0 {
        0
    } else {
        floor_sum(cols, k - 1, avail, t) + cols[k - 1].bar_w * avail / t
    }
}

proof fn lemma_floor_add(a: int, b: int, d: int)
    requires
        a >= 0,
        b >= 0,
        d > 0,
    ensures
        a / d + b / d <= (a + b) / d,
{
    vstd::arithmetic::div_mod::lemma_fundamental_div_mod(a, d);
    vstd::arithmetic::div_mod::lemma_fundamental_div_mod(b, d);
    vstd::arithmetic::div_mod::lemma_fundamental_div_mod(a + b, d);
    vstd::arithmetic::div_mod::lemma_mod_bound(a, d);
    vstd::arithmetic::div_mod::lemma_mod_bound(b, d);
    vstd::arithmetic::div_mod::lemma_mod_bound(a + b, d);
    let qa = a / d;
    let qb = b / d;
    let q = (a + b) / d;
    assert(d * q + (a + b) % d == d * qa + a % d + d * qb + b % d);
    assert(d * (qa + qb) == d * qa + d * qb) by (nonlinear_arith);
    assert(q >= qa + qb) by (nonlinear_arith)
        requires
            d * q + (a + b) % d == d * (qa + qb) + a % d + b % d,
            0 <= a % d < d,
            0 <= b % d < d,
            0 <= (a + b) % d < d,
            d > 0,
    ;
}

proof fn lemma_floor_sum_bound(cols: Seq<ColumnDef>, k: int, avail: int, t: int)
    requires
        0 <= k <= cols.len(),
        avail >= 0,
        t > 0,
    ensures
        floor_sum(cols, k, avail, t) <= bar_weight(cols, k) * avail / t,
        floor_sum(cols, k, avail, t) >= 0,
    decreases k,
{
    if k > 0 {
        lemma_floor_sum_bound(cols, k - 1, avail, t);
        let a = bar_weight(cols, k - 1) * avail;
        let b = cols[k - 1].bar_w * avail;
        assert(bar_weight(cols, k - 1) >= 0) by {
            lemma_bar_weight_nonneg(cols, k - 1);
        }
        assert(a >= 0) by (nonlinear_arith)
            requires
                bar_weight(cols, k - 1) >= 0,
                avail >= 0,
                a == bar_weight(cols, k - 1) * avail,
        ;
        assert(b >= 0) by (nonlinear_arith)
            requires
                cols[k - 1].bar_w >= 0,
                avail >= 0,
                b == cols[k - 1].bar_w * avail,
        ;
        lemma_floor_add(a, b, t);
        assert(bar_weight(cols, k) * avail == a + b) by (nonlinear_arith)
            requires
                bar_weight(cols, k) == bar_weight(cols, k - 1) + cols[k - 1].bar_w,
                a == bar_weight(cols, k - 1) * avail,
                b == cols[k - 1].bar_w * avail,
        ;
        assert(b / t >= 0) by (nonlinear_arith)
            requires
                b >= 0,
                t > 0,
        ;
    }
}

proof fn lemma_bar_weight_nonneg(cols: Seq<ColumnDef>, k: int)
    requires
        0 <= k <= cols.len(),
    ensures
        bar_weight(cols, k) >= 0,
    decreases k,
{
    if k > 0 {
        lemma_bar_weight_nonneg(cols, k - 1);
    }
}

proof fn lemma_base_sum_bound(cols: Seq<ColumnDef>, k: int, avail: int, total: int)
    requires
        0 <= k <= cols.len(),
        avail >= 0,
        total >= 0,
    ensures
        base_sum(cols, k, avail, total) <= floor_sum(cols, k, avail, if total > 0 { total } else { 1 }) + MIN_BAR * k,
        base_sum(cols, k, avail, total) >= MIN_BAR * k,
    decreases k,
{
    if k > 0 {
        lemma_base_sum_bound(cols, k - 1, avail, total);
    }
}

/// The scaled total of all bars never exceeds the available space plus the minimums.
proof fn lemma_bars_fit(cols: Seq<ColumnDef>, n: int, avail: int, total: int)
    requires
        0 <= n <= cols.len(),
        avail >= 0,
        total == bar_weight(cols, n),
    ensures
        MIN_BAR * n <= base_sum(cols, n, avail, total) <= avail + MIN_BAR * n,
{
    let t = if total > 0 { total } else { 1 };
    lemma_bar_weight_nonneg(cols, n);
    lemma_base_sum_bound(cols, n, avail, total);
    lemma_floor_sum_bound(cols, n, avail, t);
    assert(bar_weight(cols, n) * avail / t <= avail) by {
        if total > 0 {
            assert(total * avail / total == avail) by {
                vstd::arithmetic::div_mod::lemma_div_multiples_vanish(avail, total);
                vstd::arithmetic::mul::lemma_mul_is_commutative(total, avail);
            }
        } else {
            assert(bar_weight(cols, n) == 0);
            assert(bar_weight(cols, n) * avail == 0) by (nonlinear_arith)
                requires
                    bar_weight(cols, n) == 0,
            ;
        }
    }
}

/// Space left for bars after the prefix and the labels.
pub open spec fn available(prefix_w: int, cols: Seq<ColumnDef>, n: int, term_w: int) -> int {
    let fixed = prefix_w + fixed_width(cols, n);
    if term_w >= fixed { term_w - fixed } else { 0 }
}

/// Width of the table when every bar has its scaled width.
pub open spec fn used_width(prefix_w: int, cols: Seq<ColumnDef>, n: int, term_w: int) -> int {
    prefix_w + fixed_width(cols, n) + base_sum(
        cols,
        n,
        available(prefix_w, cols, n, term_w),
        bar_weight(cols, n),
    )
}

/// Bar width of column `i` among the first `n`: its scaled width, where the last column
/// also takes whatever is left up to `term_w`.
pub open spec fn spec_bar_width(prefix_w: int, cols: Seq<ColumnDef>, n: int, term_w: int, i: int) -> int {
    let b = base_bar(cols[i], available(prefix_w, cols, n, term_w), bar_weight(cols, n));
    let used = used_width(prefix_w, cols, n, term_w);
    if i == n - 1 && used < term_w {
        b + (term_w - used)
    } else {
        b
    }
}

/// Sum of a sequence of widths.
pub open spec fn total(s: Seq<usize>) -> int
    decreases s.len(),
{
    if s.len() == 0 {
        0
    } else {
        total(s.drop_last()) + s.last()
    }
}

/// Bar widths of the first `n` columns: each default width scaled to the space left
/// beside the prefix and the labels, at least `MIN_BAR`, with the last column widened to
/// fill the terminal.
pub fn bar_widths(prefix_w: usize, cols: &Vec<ColumnDef>, n: usize, term_w: usize) -> (r: Vec<usize>)
    requires
        1 <= n <= cols.len(),
        prefix_w + min_width(cols@, n as int) <= usize::MAX,
        term_w + MIN_BAR * n <= usize::MAX,
        bar_weight(cols@, n as int) <= usize::MAX,
        forall|i: int| 0 <= i < n ==> (#[trigger] cols@[i]).bar_w * term_w <= usize::MAX,
    ensures
        r@.len() == n,
        forall|i: int| 0 <= i < n ==> #[trigger] r@[i] == spec_bar_width(prefix_w as int, cols@, n as int, term_w as int, i),
        forall|i: int| 0 <= i < n ==> #[trigger] r@[i] >= MIN_BAR,
        prefix_w + fixed_width(cols@, n as int) + total(r@) == (if used_width(prefix_w as int, cols@, n as int, term_w as int) < term_w {
            term_w as int
        } else {
            used_width(prefix_w as int, cols@, n as int, term_w as int)
        }),
{
    let ghost cs = cols@;
    proof {
        lemma_min_width_mono(cs, n as int, n as int);
    }
    // labels and their spaces
    let mut fixed: usize = prefix_w;
    let mut total_w: usize = 0;
    let mut i: usize = 0;
    while i < n
        invariant
            i <= n <= cols.len(),
            cs == cols@,
            prefix_w + min_width(cs, n as int) <= usize::MAX,
            bar_weight(cs, n as int) <= usize::MAX,
            fixed == prefix_w + fixed_width(cs, i as int),
            total_w == bar_weight(cs, i as int),
        decreases n - i,
    {
        proof {
            lemma_min_width_mono(cs, i + 1, n as int);
        }
        fixed = fixed + 1 + cols[i].label_w + 1;
        total_w = total_w + cols[i].bar_w;
        i = i + 1;
    }
    let avail: usize = if term_w >= fixed { term_w - fixed } else { 0 };
    let t: usize = if total_w > 0 { total_w } else { 1 };
    let ghost av = avail as int;
    proof {
        lemma_bars_fit(cs, n as int, av, total_w as int);
    }
    let mut r: Vec<usize> = Vec::new();
    let mut sum: usize = 0;
    let mut k: usize = 0;
    while k < n
        invariant
            k <= n <= cols.len(),
            cs == cols@,
            av == available(prefix_w as int, cs, n as int, term_w as int),
            avail == av,
            avail <= term_w,
            total_w == bar_weight(cs, n as int),
            t == (if total_w > 0 { total_w } else { 1 }),
            term_w + MIN_BAR * n <= usize::MAX,
            MIN_BAR * n <= base_sum(cs, n as int, av, total_w as int) <= av + MIN_BAR * n,
            forall|j: int| 0 <= j < n ==> (#[trigger] cs[j]).bar_w * term_w <= usize::MAX,
            r@.len() == k,
            forall|j: int| 0 <= j < k ==> #[trigger] r@[j] == base_bar(cs[j], av, total_w as int),
            sum == base_sum(cs, k as int, av, total_w as int),
            total(r@) == sum,
        decreases n - k,
    {
        proof {
            lemma_base_sum_mono(cs, (k + 1) as int, n as int, av, total_w as int);
            assert(cs[k as int].bar_w * avail <= cs[k as int].bar_w * term_w) by (nonlinear_arith)
                requires
                    avail <= term_w,
                    cs[k as int].bar_w >= 0,
            ;
        }
        let w = cols[k].bar_w * avail / t;
        let b = if w >= MIN_BAR { w } else { MIN_BAR };
        let ghost old_r = r@;
        r.push(b);
        assert(r@.drop_last() == old_r);
        sum = sum + b;
        k = k + 1;
    }
    let used = fixed + sum;
    if used < term_w {
        proof {
            lemma_base_sum_bound(cs, (n - 1) as int, av, total_w as int);
            assert(r@[n - 1] <= sum);
        }
        let extra = term_w - used;
        let last = r[n - 1] + extra;
        let ghost old_r = r@;
        r.set(n - 1, last);
        proof {
            assert(r@.drop_last() =~= old_r.drop_last());
        }
    }
    r
}

proof fn lemma_base_sum_mono(cols: Seq<ColumnDef>, j: int, k: int, avail: int, total: int)
    requires
        0 <= j <= k <= cols.len(),
        avail >= 0,
    ensures
        base_sum(cols, j, avail, total) <= base_sum(cols, k, avail, total),
    decreases k,
{
    if j < k {
        lemma_base_sum_mono(cols, j, k - 1, avail, total);
    }
}

} // verus!

verus! {

/// A column definition.
pub open spec fn col(label_w: usize, bar_w: usize) -> ColumnDef {
    ColumnDef { label_w, bar_w }
}

/// Columns of the hourly forecast table: temperature/feel, cloud, rain, wind, pressure,
/// humidity.
pub fn forecast_columns() -> (r: Vec<ColumnDef>)
    ensures
        r@ == seq![col(11, 9), col(3, 10), col(9, 10), col(11, 9), col(6, 8), col(3, 10)],
{
    vec![
        ColumnDef { label_w: 11, bar_w: 9 },
        ColumnDef { label_w: 3, bar_w: 10 },
        ColumnDef { label_w: 9, bar_w: 10 },
        ColumnDef { label_w: 11, bar_w: 9 },
        ColumnDef { label_w: 6, bar_w: 8 },
        ColumnDef { label_w: 3, bar_w: 10 },
    ]
}

/// Columns of the drone table: temperature, rain, wind at 10, 80, 120 and 180 m, gusts,
/// UV index.
pub fn drone_columns() -> (r: Vec<ColumnDef>)
    ensures
        r@ == seq![col(5, 7), col(9, 8), col(6, 6), col(6, 6), col(6, 6), col(6, 6), col(5, 6), col(4, 5)],
{
    vec![
        ColumnDef { label_w: 5, bar_w: 7 },
        ColumnDef { label_w: 9, bar_w: 8 },
        ColumnDef { label_w: 6, bar_w: 6 },
        ColumnDef { label_w: 6, bar_w: 6 },
        ColumnDef { label_w: 6, bar_w: 6 },
        ColumnDef { label_w: 6, bar_w: 6 },
        ColumnDef { label_w: 5, bar_w: 6 },
        ColumnDef { label_w: 4, bar_w: 5 },
    ]
}

/// Columns of the historical daily table: temperature, rain, wind.
pub fn historical_daily_columns() -> (r: Vec<ColumnDef>)
    ensures
        r@ == seq![col(11, 9), col(7, 8), col(11, 9)],
{
    vec![
        ColumnDef { label_w: 11, bar_w: 9 },
        ColumnDef { label_w: 7, bar_w: 8 },
        ColumnDef { label_w: 11, bar_w: 9 },
    ]
}

/// Columns of the historical monthly table: average temperature, extreme temperature,
/// rain, wind.
pub fn historical_monthly_columns() -> (r: Vec<ColumnDef>)
    ensures
        r@ == seq![col(11, 9), col(11, 9), col(7, 8), col(11, 9)],
{
    vec![
        ColumnDef { label_w: 11, bar_w: 9 },
        ColumnDef { label_w: 11, bar_w: 9 },
        ColumnDef { label_w: 7, bar_w: 8 },
        ColumnDef { label_w: 11, bar_w: 9 },
    ]
}

/// The columns shown and their bar widths.
#[derive(Debug)]
pub struct TableLayout {
    /// How many leading columns are shown.
    pub n_cols: usize,
    /// Bar width of each shown column.
    pub bar_widths: Vec<usize>,
    /// Total width of a row, the width of the separator lines.
    pub sep_w: usize,
}

/// Column widths are small enough that no width computation overflows.
pub open spec fn layout_fits_machine(prefix_w: int, cols: Seq<ColumnDef>, term_w: int) -> bool {
    &&& cols.len() >= 1
    &&& prefix_w + min_width(cols, cols.len() as int) <= usize::MAX
    &&& term_w + MIN_BAR * cols.len() <= usize::MAX
    &&& bar_weight(cols, cols.len() as int) <= usize::MAX
    &&& forall|i: int| 0 <= i < cols.len() ==> (#[trigger] cols[i]).bar_w * term_w <= usize::MAX
}

/// Lays out a table next to a prefix of `prefix_w` columns (day summary and hour, or a
/// date): with `drop_columns`, trailing columns are dropped until the minimum layout fits
/// (keeping at least one); the shown columns share the remaining width.
pub fn table_layout(prefix_w: usize, cols: &Vec<ColumnDef>, term_w: usize, drop_columns: bool) -> (r: TableLayout)
    requires
        layout_fits_machine(prefix_w as int, cols@, term_w as int),
    ensures
        1 <= r.n_cols <= cols.len(),
        !drop_columns ==> r.n_cols == cols.len(),
        drop_columns ==> (r.n_cols == 1 || prefix_w + min_width(cols@, r.n_cols as int) <= term_w),
        drop_columns ==> forall|k: int| r.n_cols < k <= cols.len() ==> prefix_w + min_width(cols@, k) > term_w,
        r.bar_widths@.len() == r.n_cols,
        forall|i: int| 0 <= i < r.n_cols ==> #[trigger] r.bar_widths@[i] == spec_bar_width(prefix_w as int, cols@, r.n_cols as int, term_w as int, i),
        forall|i: int| 0 <= i < r.n_cols ==> #[trigger] r.bar_widths@[i] >= MIN_BAR,
        r.sep_w == prefix_w + fixed_width(cols@, r.n_cols as int) + total(r.bar_widths@),
        r.sep_w >= term_w,
        r.sep_w == term_w <==> used_width(prefix_w as int, cols@, r.n_cols as int, term_w as int) <= term_w,
{
    let n = if drop_columns { fit_columns(prefix_w, cols, term_w) } else { cols.len() };
    proof {
        lemma_min_width_mono(cols@, n as int, cols.len() as int);
        lemma_min_width_mono(cols@, n as int, n as int);
        lemma_bar_weight_mono(cols@, n as int, cols.len() as int);
    }
    let bars = bar_widths(prefix_w, cols, n, term_w);
    proof {
        let av = available(prefix_w as int, cols@, n as int, term_w as int);
        lemma_bars_fit(cols@, n as int, av, bar_weight(cols@, n as int));
        lemma_total_prefix(bars@, 0);
        assert(bars@.subrange(0, 0) =~= Seq::<usize>::empty());
    }
    let mut fixed: usize = prefix_w;
    let mut i: usize = 0;
    while i < n
        invariant
            i <= n <= cols.len(),
            prefix_w + min_width(cols@, n as int) <= usize::MAX,
            min_width(cols@, n as int) == fixed_width(cols@, n as int) + MIN_BAR * n,
            fixed == prefix_w + fixed_width(cols@, i as int),
        decreases n - i,
    {
        proof {
            lemma_min_width_mono(cols@, i + 1, n as int);
        }
        fixed = fixed + 1 + cols[i].label_w + 1;
        i = i + 1;
    }
    let mut sum: usize = 0;
    let mut k: usize = 0;
    while k < n
        invariant
            k <= n,
            bars@.len() == n,
            sum == total(bars@.subrange(0, k as int)),
            fixed + total(bars@) <= usize::MAX,
            sum <= total(bars@),
        decreases n - k,
    {
        proof {
            lemma_total_prefix(bars@, (k + 1) as int);
            assert(bars@.subrange(0, k + 1).drop_last() =~= bars@.subrange(0, k as int));
        }
        sum = sum + bars[k];
        k = k + 1;
    }
    assert(bars@.subrange(0, n as int) =~= bars@);
    TableLayout { n_cols: n, bar_widths: bars, sep_w: fixed + sum }
}

proof fn lemma_bar_weight_mono(cols: Seq<ColumnDef>, j: int, k: int)
    requires
        0 <= j <= k <= cols.len(),
    ensures
        bar_weight(cols, j) <= bar_weight(cols, k),
{
    lemma_min_width_mono(cols, j, k);
}

proof fn lemma_total_prefix(s: Seq<usize>, k: int)
    requires
        0 <= k <= s.len(),
    ensures
        total(s.subrange(0, k)) <= total(s),
    decreases s.len() - k,
{
    if k < s.len() {
        lemma_total_prefix(s, k + 1);
        assert(s.subrange(0, k + 1).drop_last() =~= s.subrange(0, k));
    } else {
        assert(s.subrange(0, k) =~= s);
    }
}

/// Column where column `k` starts: the prefix plus the full width of the columns before it.
pub open spec fn spec_column_offset(prefix_w: int, cols: Seq<ColumnDef>, bars: Seq<usize>, k: int) -> int
    decreases k,
{
    if k <= 0 {
        prefix_w
    } else {
        spec_column_offset(prefix_w, cols, bars, k - 1) + 1 + cols[k - 1].label_w + 1 + bars[k - 1]
    }
}

/// Column where column `k` starts (used to align the drone wind chart under the wind columns).
pub fn column_offset(prefix_w: usize, cols: &Vec<ColumnDef>, bars: &Vec<usize>, k: usize) -> (r: usize)
    requires
        k <= cols.len(),
        k <= bars.len(),
        spec_column_offset(prefix_w as int, cols@, bars@, k as int) <= usize::MAX,
    ensures
        r == spec_column_offset(prefix_w as int, cols@, bars@, k as int),
{
    let mut off = prefix_w;
    let mut i: usize = 0;
    while i < k
        invariant
            i <= k <= cols.len(),
            k <= bars.len(),
            spec_column_offset(prefix_w as int, cols@, bars@, k as int) <= usize::MAX,
            off == spec_column_offset(prefix_w as int, cols@, bars@, i as int),
        decreases k - i,
    {
        proof {
            lemma_offset_mono(prefix_w as int, cols@, bars@, (i + 1) as int, k as int);
        }
        off = off + 1 + cols[i].label_w + 1 + bars[i];
        i = i + 1;
    }
    off
}

proof fn lemma_offset_mono(prefix_w: int, cols: Seq<ColumnDef>, bars: Seq<usize>, j: int, k: int)
    requires
        0 <= j <= k <= cols.len(),
        k <= bars.len(),
    ensures
        spec_column_offset(prefix_w, cols, bars, j) <= spec_column_offset(prefix_w, cols, bars, k),
    decreases k,
{
    if j < k {
        lemma_offset_mono(prefix_w, cols, bars, j, k - 1);
    }
}

} // verus!
