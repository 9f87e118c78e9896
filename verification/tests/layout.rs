use pogoda::layout::{
    bar_widths, column_offset, day_column_width, drone_columns, fit_columns, forecast_columns,
    historical_daily_columns, historical_monthly_columns, table_layout, ColumnDef,
};
use pogoda::rows::{plan_rows, RowPlan};
use pogoda::types::Date;

#[test]
fn day_column_width_floor_and_labels() {
    assert_eq!(day_column_width(9, 11), (18, 10));
    assert_eq!(day_column_width(14, 11), (22, 14));
    assert_eq!(day_column_width(5, 25), (25, 17));
}

#[test]
fn forecast_table_fills_wide_terminal() {
    let cols = forecast_columns();
    let l = table_layout(24, &cols, 120, true);
    assert_eq!(l.n_cols, 6);
    assert_eq!(l.bar_widths, vec![6, 7, 7, 6, 5, 10]);
    assert_eq!(l.sep_w, 120);
}

#[test]
fn forecast_table_drops_columns_on_narrow_terminal() {
    let cols = forecast_columns();
    assert_eq!(fit_columns(24, &cols, 80), 4);
    let l = table_layout(24, &cols, 80, true);
    assert_eq!(l.n_cols, 4);
    assert_eq!(l.bar_widths, vec![3, 3, 3, 5]);
    assert_eq!(l.sep_w, 80);
}

#[test]
fn tiny_terminal_keeps_one_column_at_minimum_bars() {
    let cols = forecast_columns();
    let l = table_layout(24, &cols, 10, true);
    assert_eq!(l.n_cols, 1);
    assert_eq!(l.bar_widths, vec![3]);
    assert_eq!(l.sep_w, 24 + 13 + 3);
    assert!(l.sep_w >= 10);
}

#[test]
fn historical_tables_keep_all_columns() {
    let daily = historical_daily_columns();
    let l = table_layout(13, &daily, 30, false);
    assert_eq!(l.n_cols, 3);
    assert!(l.bar_widths.iter().all(|&b| b >= 3));
    let monthly = historical_monthly_columns();
    let l = table_layout(10, &monthly, 120, false);
    assert_eq!(l.n_cols, 4);
    assert_eq!(l.sep_w, 120);
}

#[test]
fn bar_widths_scale_with_weights() {
    let cols = vec![ColumnDef { label_w: 1, bar_w: 1 }, ColumnDef { label_w: 1, bar_w: 3 }];
    // fixed = 10 + 3 + 3 = 16, available = 24: 1*24/4 = 6 and 3*24/4 = 18
    assert_eq!(bar_widths(10, &cols, 2, 40), vec![6, 18]);
}

#[test]
fn drone_wind_columns_offset() {
    let cols = drone_columns();
    let l = table_layout(24, &cols, 200, true);
    assert_eq!(l.n_cols, 8);
    let off = column_offset(24, &cols, &l.bar_widths, 2);
    assert_eq!(off, 24 + (1 + 5 + 1 + l.bar_widths[0]) + (1 + 9 + 1 + l.bar_widths[1]));
}

#[test]
fn rows_follow_days() {
    let d1 = Date { year: 2024, month: 6, day: 1 };
    let d2 = Date { year: 2024, month: 6, day: 2 };
    let rows = plan_rows(&vec![d1, d1, d1, d2, d2], &vec![d1, d2]);
    assert_eq!(
        rows,
        vec![
            RowPlan { new_day: true, summary_index: 0, row_in_day: 0 },
            RowPlan { new_day: false, summary_index: 0, row_in_day: 1 },
            RowPlan { new_day: false, summary_index: 0, row_in_day: 2 },
            RowPlan { new_day: true, summary_index: 1, row_in_day: 0 },
            RowPlan { new_day: false, summary_index: 1, row_in_day: 1 },
        ]
    );
    // a day without a summary uses the first summary
    let d3 = Date { year: 2024, month: 6, day: 3 };
    assert_eq!(plan_rows(&vec![d3], &vec![d1, d2])[0].summary_index, 0);
}
