use pogoda::bars::{
    chart_block, dual_bar_cells, has_shear, rain_cells, sector_arrow, value_bar_cells, BarGlyph,
};
use pogoda::charts::{
    axis_line, cell_eighths, marker_eighths, month_starts, monthly_axis, place_clipped,
    sample_index, try_place, year_interval,
};

fn chars(s: &str) -> Vec<char> {
    s.chars().collect()
}

#[test]
fn sample_index_spreads_values() {
    assert_eq!(sample_index(0, 24, 100), 0);
    assert_eq!(sample_index(50, 24, 100), 12);
    assert_eq!(sample_index(99, 24, 100), 23);
    assert_eq!(sample_index(3, 0, 10), 0);
    assert_eq!(sample_index(9, 3, 4), 2);
}

#[test]
fn column_cells_add_up_to_value() {
    let h = 4;
    for p in 0..=40usize {
        let total: usize = (0..h).map(|r| cell_eighths(p, r, h)).sum();
        assert_eq!(total, p.min(8 * h));
    }
    assert_eq!(cell_eighths(12, 3, 4), 8);
    assert_eq!(cell_eighths(12, 2, 4), 4);
    assert_eq!(cell_eighths(12, 1, 4), 0);
}

#[test]
fn marker_sits_in_one_row() {
    let h = 4;
    for s in 1..=32usize {
        let rows: Vec<usize> = (0..h).filter(|&r| marker_eighths(s, r, h).is_some()).collect();
        assert_eq!(rows, vec![h - 1 - (s - 1) / 8]);
    }
    assert_eq!(marker_eighths(0, 3, 4), None);
    assert_eq!(marker_eighths(9, 2, 4), Some(1));
}

#[test]
fn try_place_refuses_overlap_and_overflow() {
    let mut axis = vec!['─'; 10];
    assert!(try_place(&mut axis, 0, &chars("Jan"), '─'));
    assert!(!try_place(&mut axis, 2, &chars("Feb"), '─'));
    assert!(!try_place(&mut axis, 8, &chars("Mar"), '─'));
    assert!(try_place(&mut axis, 4, &chars("Apr"), '─'));
    assert_eq!(axis.iter().collect::<String>(), "Jan─Apr───");
}

#[test]
fn place_clipped_cuts_at_end() {
    let mut axis = vec!['─'; 8];
    place_clipped(&mut axis, 5, &chars("Mon 01"));
    assert_eq!(axis.iter().collect::<String>(), "─────Mon");
}

#[test]
fn daily_axis_labels_month_starts() {
    let months = vec![1, 1, 1, 2, 2, 3];
    let marks = month_starts(&months);
    assert_eq!(marks, vec![0, 3, 5]);
    let labels = vec![chars("Jan"), chars("Feb"), chars("Mar")];
    let axis = axis_line(12, 6, &marks, &labels);
    assert_eq!(axis.iter().collect::<String>(), "Jan───Feb───");
}

#[test]
fn year_interval_thresholds() {
    assert_eq!(year_interval(100, 24), 1);
    assert_eq!(year_interval(10, 24), 1);
    assert_eq!(year_interval(9, 24), 2);
    assert_eq!(year_interval(5, 24), 5);
    assert_eq!(year_interval(2, 24), 10);
    assert_eq!(year_interval(1, 24), 20);
}

#[test]
fn monthly_axis_places_years() {
    let years: Vec<i32> = (0..24).map(|i| 2020 + i / 12).collect();
    let axis = monthly_axis(&years, 24);
    assert_eq!(axis.iter().collect::<String>(), "2020────────2021────────");
    let crowded: Vec<i32> = (0..48).map(|i| 2020 + i / 12).collect();
    // 12 * 9 / 48 = 2.25 columns per year: a label every 5 years
    let axis = monthly_axis(&crowded, 9);
    assert_eq!(axis.iter().collect::<String>(), "2020─────");
}

#[test]
fn value_bar_layout() {
    assert_eq!(value_bar_cells(2, 5), vec![BarGlyph::Trail, BarGlyph::Trail, BarGlyph::Marker, BarGlyph::Blank, BarGlyph::Blank]);
    assert_eq!(value_bar_cells(0, 1), vec![BarGlyph::Marker]);
}

#[test]
fn dual_bar_layout() {
    assert_eq!(dual_bar_cells(1, 4, 6), vec![BarGlyph::Trail, BarGlyph::Marker, BarGlyph::Dotted, BarGlyph::Dotted, BarGlyph::Diamond, BarGlyph::Blank]);
    assert_eq!(dual_bar_cells(3, 1, 5), vec![BarGlyph::Trail, BarGlyph::Diamond, BarGlyph::Trail, BarGlyph::Marker, BarGlyph::Blank]);
    assert_eq!(dual_bar_cells(2, 2, 4), vec![BarGlyph::Trail, BarGlyph::Trail, BarGlyph::Marker, BarGlyph::Blank]);
    assert_eq!(dual_bar_cells(0, 9, 3), vec![BarGlyph::Marker, BarGlyph::Dotted, BarGlyph::Dotted]);
}

#[test]
fn rain_and_chart_blocks() {
    assert_eq!(rain_cells(2, 0, 4), vec!['▁', '▁', ' ', ' ']);
    assert_eq!(rain_cells(3, 8, 3), vec!['█', '█', '█']);
    assert_eq!(rain_cells(1, 4, 2), vec!['▄', ' ']);
    assert_eq!(chart_block(0), ' ');
    assert_eq!(chart_block(8), '█');
}

#[test]
fn arrows_and_shear() {
    assert_eq!(sector_arrow(0), '↑');
    assert_eq!(sector_arrow(2), '→');
    assert_eq!(sector_arrow(7), '↖');
    assert!(!has_shear('↑', '↑', '↑', '↑'));
    assert!(has_shear('↑', '↑', '↗', '↑'));
}
