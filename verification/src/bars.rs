//! Character layout of the horizontal bars in the tables.
use vstd::prelude::*;

verus! {

/// One cell of a bar.
#[derive(Clone, Copy, Debug, PartialEq, Eq, Structural)]
pub enum BarGlyph {
    /// empty cell
    Blank,
    /// `─` trail up to the primary value
    Trail,
    /// `┈` span between the primary and a larger secondary value
    Dotted,
    /// `●` the primary value
    Marker,
    /// `◆` the secondary value
    Diamond,
}

/// Cell `i` of a single-value bar with the value at `pos`.
pub open spec fn spec_value_cell(pos: int, i: int) -> BarGlyph {
    if i < pos {
        BarGlyph::Trail
    } else if i == pos {
        BarGlyph::Marker
    } else {
        BarGlyph::Blank
    }
}

/// A bar `width` cells wide with a trail up to the value's cell `pos` and a marker there.
pub fn value_bar_cells(pos: usize, width: usize) -> (r: Vec<BarGlyph>)
    requires
        pos < width,
    ensures
        r@.len() == width,
        forall|i: int| 0 <= i < width ==> #[trigger] r@[i] == spec_value_cell(pos as int, i),
{
    let mut r: Vec<BarGlyph> = Vec::new();
    let mut i: usize = 0;
    while i < width
        invariant
            i <= width,
            r@.len() == i,
            forall|j: int| 0 <= j < i ==> #[trigger] r@[j] == spec_value_cell(pos as int, j),
        decreases width - i,
    {
        let g = if i < pos {
            BarGlyph::Trail
        } else if i == pos {
            BarGlyph::Marker
        } else {
            BarGlyph::Blank
        };
        r.push(g);
        i = i + 1;
    }
    r
}

/// Cell `i` of a two-value bar: primary at `p`, secondary at `s`.
pub open spec fn spec_dual_cell(p: int, s: int, i: int) -> BarGlyph {
    if i == p {
        BarGlyph::Marker
    } else if i == s {
        BarGlyph::Diamond
    } else if i < p {
        BarGlyph::Trail
    } else if p < i && i < s {
        BarGlyph::Dotted
    } else {
        BarGlyph::Blank
    }
}

/// A bar with the primary value at `p` (trail and marker) and the secondary value at `s`
/// (a diamond, joined by a dotted span when it lies beyond the primary). The primary's
/// marker wins when both fall in one cell.
pub fn dual_bar_cells(p: usize, s: usize, width: usize) -> (r: Vec<BarGlyph>)
    requires
        p < width,
    ensures
        r@.len() == width,
        forall|i: int| 0 <= i < width ==> #[trigger] r@[i] == spec_dual_cell(p as int, s as int, i),
{
    let mut r: Vec<BarGlyph> = Vec::new();
    let mut i: usize = 0;
    while i < width
        invariant
            i <= width,
            r@.len() == i,
            forall|j: int| 0 <= j < i ==> #[trigger] r@[j] == spec_dual_cell(p as int, s as int, j),
        decreases width - i,
    {
        let g = if i == p {
            BarGlyph::Marker
        } else if i == s {
            BarGlyph::Diamond
        } else if i < p {
            BarGlyph::Trail
        } else if p < i && i < s {
            BarGlyph::Dotted
        } else {
            BarGlyph::Blank
        };
        r.push(g);
        i = i + 1;
    }
    r
}

/// Block characters by height in eighths, 0 (blank) to 8 (full).
pub open spec fn spec_chart_block(e: int) -> char {
    if e <= 0 { ' ' }
    else if e == 1 { '▁' }
    else if e == 2 { '▂' }
    else if e == 3 { '▃' }
    else if e == 4 { '▄' }
    else if e == 5 { '▅' }
    else if e == 6 { '▆' }
    else if e == 7 { '▇' }
    else { '█' }
}

/// The block character for a cell filled `e` eighths high.
pub fn chart_block(e: usize) -> (c: char)
    requires
        e <= 8,
    ensures
        c == spec_chart_block(e as int),
{
    if e == 0 { ' ' }
    else if e == 1 { '▁' }
    else if e == 2 { '▂' }
    else if e == 3 { '▃' }
    else if e == 4 { '▄' }
    else if e == 5 { '▅' }
    else if e == 6 { '▆' }
    else if e == 7 { '▇' }
    else { '█' }
}

/// Rain intensity blocks, index 0 to 8; the two lowest levels share the lowest block so
/// that any rain is visible.
pub open spec fn spec_rain_block(k: int) -> char {
    if k <= 1 { '▁' } else { spec_chart_block(k) }
}

/// A rain cell `width` wide: `filled` blocks of intensity `level` (0 to 8), then blanks.
pub fn rain_cells(filled: usize, level: usize, width: usize) -> (r: Vec<char>)
    requires
        filled <= width,
        level <= 8,
    ensures
        r@.len() == width,
        forall|i: int| 0 <= i < width ==> #[trigger] r@[i] == (if i < filled {
            spec_rain_block(level as int)
        } else {
            ' '
        }),
{
    let ch = if level <= 1 { '▁' } else { chart_block(level) };
    let mut r: Vec<char> = Vec::new();
    let mut i: usize = 0;
    while i < width
        invariant
            i <= width,
            r@.len() == i,
            ch == spec_rain_block(level as int),
            forall|j: int| 0 <= j < i ==> #[trigger] r@[j] == (if j < filled {
                spec_rain_block(level as int)
            } else {
                ' '
            }),
        decreases width - i,
    {
        r.push(if i < filled { ch } else { ' ' });
        i = i + 1;
    }
    r
}

/// Arrows for the eight compass sectors, clockwise from north.
pub open spec fn spec_sector_arrow(s: int) -> char {
    if s == 0 { '↑' }
    else if s == 1 { '↗' }
    else if s == 2 { '→' }
    else if s == 3 { '↘' }
    else if s == 4 { '↓' }
    else if s == 5 { '↙' }
    else if s == 6 { '←' }
    else { '↖' }
}

/// The arrow for compass sector `s` (0 = north, clockwise in 45° steps).
pub fn sector_arrow(s: usize) -> (c: char)
    requires
        s < 8,
    ensures
        c == spec_sector_arrow(s as int),
{
    if s == 0 { '↑' }
    else if s == 1 { '↗' }
    else if s == 2 { '→' }
    else if s == 3 { '↘' }
    else if s == 4 { '↓' }
    else if s == 5 { '↙' }
    else if s == 6 { '←' }
    else { '↖' }
}

/// A single-value bar is a trail up to one marker at the value's cell, then blanks:
/// the marker stands at `pos` and nowhere else, and no trail follows it.
pub proof fn law_value_bar_shape(pos: int, i: int, j: int)
    requires
        0 <= i < j,
    ensures
        spec_value_cell(pos, i) == BarGlyph::Marker <==> i == pos,
        spec_value_cell(pos, j) == BarGlyph::Trail ==> spec_value_cell(pos, i) == BarGlyph::Trail,
        spec_value_cell(pos, i) == BarGlyph::Blank ==> spec_value_cell(pos, j) == BarGlyph::Blank,
        i < pos ==> spec_value_cell(pos, i) == BarGlyph::Trail,
        i > pos ==> spec_value_cell(pos, i) == BarGlyph::Blank,
{
}

/// A two-value bar keeps the primary's trail and marker; the secondary shows as a
/// diamond at its own cell unless the marker is there, and a dotted span joins the two
/// only when the secondary lies beyond the primary.
pub proof fn law_dual_bar_shape(p: int, s: int, i: int)
    ensures
        spec_dual_cell(p, s, i) == BarGlyph::Marker <==> i == p,
        spec_dual_cell(p, s, i) == BarGlyph::Diamond <==> (i == s && s != p),
        spec_dual_cell(p, s, i) == BarGlyph::Trail <==> (i < p && i != s),
        spec_dual_cell(p, s, i) == BarGlyph::Dotted <==> (p < i && i < s),
{
}

/// Filled rain cells all show one block whose height grows with the intensity, the
/// lowest block standing for any rain at all.
pub proof fn law_rain_block_grows(k1: int, k2: int)
    requires
        0 <= k1 <= k2 <= 8,
    ensures
        block_height(spec_rain_block(k1)) <= block_height(spec_rain_block(k2)),
        block_height(spec_rain_block(k1)) >= 1,
        k1 >= 1 ==> block_height(spec_rain_block(k1)) == k1,
{
}

/// Height in eighths of a block character.
pub open spec fn block_height(c: char) -> int {
    if c == '▁' { 1 }
    else if c == '▂' { 2 }
    else if c == '▃' { 3 }
    else if c == '▄' { 4 }
    else if c == '▅' { 5 }
    else if c == '▆' { 6 }
    else if c == '▇' { 7 }
    else if c == '█' { 8 }
    else { 0 }
}

/// An arrow turned 45° clockwise.
pub open spec fn turned_clockwise(c: char) -> char {
    if c == '↑' { '↗' }
    else if c == '↗' { '→' }
    else if c == '→' { '↘' }
    else if c == '↘' { '↓' }
    else if c == '↓' { '↙' }
    else if c == '↙' { '←' }
    else if c == '←' { '↖' }
    else if c == '↖' { '↑' }
    else { c }
}

/// The direction an arrow points, as (east, north) steps of -1, 0 or 1.
pub open spec fn arrow_heading(c: char) -> (int, int) {
    if c == '↑' { (0, 1) }
    else if c == '↗' { (1, 1) }
    else if c == '→' { (1, 0) }
    else if c == '↘' { (1, -1) }
    else if c == '↓' { (0, -1) }
    else if c == '↙' { (-1, -1) }
    else if c == '←' { (-1, 0) }
    else if c == '↖' { (-1, 1) }
    else { (0, 0) }
}

/// The sector arrows start at north and turn clockwise by 45° from one sector to the
/// next, all the way round; so sector `s` points at bearing `45 * s`: east of north
/// for sectors 1 to 3, south of east for 3 to 5, west for 5 to 7, and north again for
/// 7 and 1.
pub proof fn law_sector_arrows_turn_clockwise(s: int)
    requires
        0 <= s < 8,
    ensures
        spec_sector_arrow(0) == '↑',
        spec_sector_arrow((s + 1) % 8) == turned_clockwise(spec_sector_arrow(s)),
        arrow_heading(spec_sector_arrow(s)).0 == (if s == 0 || s == 4 { 0 } else if s < 4 { 1 } else { -1 }),
        arrow_heading(spec_sector_arrow(s)).1 == (if s == 2 || s == 6 { 0 } else if s < 2 || s > 6 { 1 } else { -1 }),
{
}

/// Wind shear: the arrows at 80, 120 or 180 m point elsewhere than at 10 m.
pub fn has_shear(a10: char, a80: char, a120: char, a180: char) -> (r: bool)
    ensures
        r == (a80 != a10 || a120 != a10 || a180 != a10),
{
    a80 != a10 || a120 != a10 || a180 != a10
}

} // verus!
