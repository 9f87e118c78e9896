//! The "POGODA" logo drawn in block characters with a drop shadow.
use vstd::prelude::*;
use crate::text::{decimal, push_decimal, push_str, no_escape, lemma_no_escape_concat};
use crate::style::{strip_sgr, strips_to, rgb_code, lemma_strips_concat, lemma_strips_plain, lemma_rgb_code_strips, lemma_code_strips};

verus! {

/// Row `row` of letter `letter` (P, O, G, O, D, A) in a 4-pixel-wide font; bit 3 is the
/// leftmost pixel.
pub open spec fn font_row(letter: int, row: int) -> u8 {
    if letter == 0 {
        if row == 0 { 0b1110 } else if row == 1 { 0b1001 } else if row == 2 { 0b1110 } else if row == 3 { 0b1000 } else { 0b1000 }
    } else if letter == 1 || letter == 3 {
        if row == 0 { 0b0110 } else if row == 1 { 0b1001 } else if row == 2 { 0b1001 } else if row == 3 { 0b1001 } else { 0b0110 }
    } else if letter == 2 {
        if row == 0 { 0b0111 } else if row == 1 { 0b1000 } else if row == 2 { 0b1011 } else if row == 3 { 0b1001 } else { 0b0111 }
    } else if letter == 4 {
        if row == 0 { 0b1110 } else if row == 1 { 0b1001 } else if row == 2 { 0b1001 } else if row == 3 { 0b1001 } else { 0b1110 }
    } else {
        if row == 0 { 0b0110 } else if row == 1 { 0b1001 } else if row == 2 { 0b1111 } else if row == 3 { 0b1001 } else { 0b1001 }
    }
}

fn font_row_exec(letter: usize, row: usize) -> (b: u8)
    ensures
        b == font_row(letter as int, row as int),
{
    if letter == 0 {
        if row == 0 { 0b1110 } else if row == 1 { 0b1001 } else if row == 2 { 0b1110 } else if row == 3 { 0b1000 } else { 0b1000 }
    } else if letter == 1 || letter == 3 {
        if row == 0 { 0b0110 } else if row == 1 { 0b1001 } else if row == 2 { 0b1001 } else if row == 3 { 0b1001 } else { 0b0110 }
    } else if letter == 2 {
        if row == 0 { 0b0111 } else if row == 1 { 0b1000 } else if row == 2 { 0b1011 } else if row == 3 { 0b1001 } else { 0b0111 }
    } else if letter == 4 {
        if row == 0 { 0b1110 } else if row == 1 { 0b1001 } else if row == 2 { 0b1001 } else if row == 3 { 0b1001 } else { 0b1110 }
    } else {
        if row == 0 { 0b0110 } else if row == 1 { 0b1001 } else if row == 2 { 0b1111 } else if row == 3 { 0b1001 } else { 0b1001 }
    }
}

/// Pixel (`row`, `col`) of a letter is filled; outside the 5 by 4 grid nothing is.
pub open spec fn pixel(letter: int, row: int, col: int) -> bool {
    0 <= row < 5 && 0 <= col < 4 && ((font_row(letter, row) >> ((3 - col) as u8)) & 1u8) == 1u8
}

fn pixel_exec(letter: usize, row: usize, col: usize) -> (b: bool)
    ensures
        b == pixel(letter as int, row as int, col as int),
{
    if row < 5 && col < 4 {
        let bits = font_row_exec(letter, row);
        let shift: u8 = (3 - col) as u8;
        ((bits >> shift) & 1u8) == 1u8
    } else {
        false
    }
}

/// Escape sequence selecting an RGB foreground color.
pub open spec fn fg_rgb(c: (u8, u8, u8)) -> Seq<char> {
    "\x1b[38;2;"@ + decimal(c.0 as int) + ";"@ + decimal(c.1 as int) + ";"@ + decimal(c.2 as int) + "m"@
}

/// One logo cell (two columns wide): a filled pixel, the shadow of the pixel to its left,
/// or blank.
pub open spec fn cell_text(letter: int, row: int, col: int, main: (u8, u8, u8), shadow: (u8, u8, u8), mono: bool) -> Seq<char> {
    if pixel(letter, row, col) {
        if mono { "██"@ } else { fg_rgb(main) + "██"@ + "\x1b[0m"@ }
    } else if col > 0 && pixel(letter, row, col - 1) {
        if mono { "█ "@ } else { fg_rgb(shadow) + "█"@ + "\x1b[0m"@ + " "@ }
    } else {
        "  "@
    }
}

/// The first `k` cells of a letter's row.
pub open spec fn letter_text(letter: int, row: int, main: (u8, u8, u8), shadow: (u8, u8, u8), mono: bool, k: int) -> Seq<char>
    decreases k,
{
    if k <= 0 {
        Seq::empty()
    } else {
        letter_text(letter, row, main, shadow, mono, k - 1) + cell_text(letter, row, k - 1, main, shadow, mono)
    }
}

/// The first `l` letters of a row, each five cells and two spaces wide.
pub open spec fn row_text(row: int, main: (u8, u8, u8), shadow: (u8, u8, u8), mono: bool, l: int) -> Seq<char>
    decreases l,
{
    if l <= 0 {
        Seq::empty()
    } else {
        row_text(row, main, shadow, mono, l - 1) + letter_text(l - 1, row, main, shadow, mono, 5) + "  "@
    }
}

/// The first `r` lines of the logo.
pub open spec fn banner_lines(main: (u8, u8, u8), shadow: (u8, u8, u8), mono: bool, r: int) -> Seq<char>
    decreases r,
{
    if r <= 0 {
        Seq::empty()
    } else {
        banner_lines(main, shadow, mono, r - 1) + "  "@ + row_text(r - 1, main, shadow, mono, 6) + "\n"@
    }
}

/// The whole logo: five lines and an empty line.
pub open spec fn banner_text(main: (u8, u8, u8), shadow: (u8, u8, u8), mono: bool) -> Seq<char> {
    banner_lines(main, shadow, mono, 5) + "\n"@
}

fn push_fg(out: &mut Vec<char>, c: (u8, u8, u8))
    ensures
        final(out)@ == old(out)@ + fg_rgb(c),
{
    push_str(out, "\x1b[38;2;");
    push_decimal(out, c.0 as i64);
    push_str(out, ";");
    push_decimal(out, c.1 as i64);
    push_str(out, ";");
    push_decimal(out, c.2 as i64);
    push_str(out, "m");
    assert(out@ =~= old(out)@ + fg_rgb(c));
}

fn push_cell(out: &mut Vec<char>, letter: usize, row: usize, col: usize, main: (u8, u8, u8), shadow: (u8, u8, u8), mono: bool)
    ensures
        final(out)@ == old(out)@ + cell_text(letter as int, row as int, col as int, main, shadow, mono),
{
    let is_main = pixel_exec(letter, row, col);
    let is_shadow = col > 0 && pixel_exec(letter, row, col - 1);
    if is_main {
        if mono {
            push_str(out, "██");
        } else {
            push_fg(out, main);
            push_str(out, "██");
            push_str(out, "\x1b[0m");
            assert(out@ =~= old(out)@ + cell_text(letter as int, row as int, col as int, main, shadow, mono));
        }
    } else if is_shadow {
        if mono {
            push_str(out, "█ ");
        } else {
            push_fg(out, shadow);
            push_str(out, "█");
            push_str(out, "\x1b[0m");
            push_str(out, " ");
            assert(out@ =~= old(out)@ + cell_text(letter as int, row as int, col as int, main, shadow, mono));
        }
    } else {
        push_str(out, "  ");
    }
}

/// Writes the logo into `out` in the given colors (plain blocks when `mono`).
pub fn print_banner(out: &mut Vec<char>, main_rgb: (u8, u8, u8), shadow_rgb: (u8, u8, u8), mono: bool)
    ensures
        final(out)@ == old(out)@ + banner_text(main_rgb, shadow_rgb, mono),
{
    let mut drow: usize = 0;
    while drow < 5
        invariant
            drow <= 5,
            out@ == old(out)@ + banner_lines(main_rgb, shadow_rgb, mono, drow as int),
        decreases 5 - drow,
    {
        let ghost line_start = out@;
        push_str(out, "  ");
        let mut letter: usize = 0;
        while letter < 6
            invariant
                drow < 5,
                letter <= 6,
                out@ == line_start + "  "@ + row_text(drow as int, main_rgb, shadow_rgb, mono, letter as int),
            decreases 6 - letter,
        {
            let ghost letter_start = out@;
            let mut dcol: usize = 0;
            while dcol < 5
                invariant
                    dcol <= 5,
                    out@ == letter_start + letter_text(letter as int, drow as int, main_rgb, shadow_rgb, mono, dcol as int),
                decreases 5 - dcol,
            {
                push_cell(out, letter, drow, dcol, main_rgb, shadow_rgb, mono);
                dcol = dcol + 1;
                assert(out@ =~= letter_start + letter_text(letter as int, drow as int, main_rgb, shadow_rgb, mono, dcol as int));
            }
            push_str(out, "  ");
            letter = letter + 1;
            assert(out@ =~= line_start + "  "@ + row_text(drow as int, main_rgb, shadow_rgb, mono, letter as int));
        }
        push_str(out, "\n");
        drow = drow + 1;
        assert(out@ =~= old(out)@ + banner_lines(main_rgb, shadow_rgb, mono, drow as int));
    }
    push_str(out, "\n");
    assert(out@ =~= old(out)@ + banner_text(main_rgb, shadow_rgb, mono));
}

proof fn lemma_mono_cell(letter: int, row: int, col: int, main: (u8, u8, u8), shadow: (u8, u8, u8))
    ensures
        no_escape(cell_text(letter, row, col, main, shadow, true)),
{
    reveal_strlit("██");
    reveal_strlit("█ ");
    reveal_strlit("  ");
}

proof fn lemma_mono_letter(letter: int, row: int, main: (u8, u8, u8), shadow: (u8, u8, u8), k: int)
    ensures
        no_escape(letter_text(letter, row, main, shadow, true, k)),
    decreases k,
{
    if k > 0 {
        lemma_mono_letter(letter, row, main, shadow, k - 1);
        lemma_mono_cell(letter, row, k - 1, main, shadow);
        lemma_no_escape_concat(
            letter_text(letter, row, main, shadow, true, k - 1),
            cell_text(letter, row, k - 1, main, shadow, true),
        );
    }
}

proof fn lemma_mono_row(row: int, main: (u8, u8, u8), shadow: (u8, u8, u8), l: int)
    ensures
        no_escape(row_text(row, main, shadow, true, l)),
    decreases l,
{
    if l > 0 {
        reveal_strlit("  ");
        lemma_mono_row(row, main, shadow, l - 1);
        lemma_mono_letter(l - 1, row, main, shadow, 5);
        lemma_no_escape_concat(
            row_text(row, main, shadow, true, l - 1),
            letter_text(l - 1, row, main, shadow, true, 5),
        );
        lemma_no_escape_concat(
            row_text(row, main, shadow, true, l - 1) + letter_text(l - 1, row, main, shadow, true, 5),
            "  "@,
        );
    }
}

proof fn lemma_mono_lines(main: (u8, u8, u8), shadow: (u8, u8, u8), r: int)
    ensures
        no_escape(banner_lines(main, shadow, true, r)),
    decreases r,
{
    if r > 0 {
        reveal_strlit("  ");
        reveal_strlit("\n");
        let prev = banner_lines(main, shadow, true, r - 1);
        let row = row_text(r - 1, main, shadow, true, 6);
        lemma_mono_lines(main, shadow, r - 1);
        lemma_mono_row(r - 1, main, shadow, 6);
        lemma_no_escape_concat(prev, "  "@);
        lemma_no_escape_concat(prev + "  "@, row);
        lemma_no_escape_concat(prev + "  "@ + row, "\n"@);
    }
}

/// In monochrome mode the logo is plain text: it holds no escape character, whatever
/// colors were asked for.
pub proof fn law_mono_banner_has_no_escape(main: (u8, u8, u8), shadow: (u8, u8, u8))
    ensures
        no_escape(banner_text(main, shadow, true)),
{
    reveal_strlit("\n");
    lemma_mono_lines(main, shadow, 5);
    lemma_no_escape_concat(banner_lines(main, shadow, true, 5), "\n"@);
}

proof fn lemma_colorless_letter(letter: int, row: int, m1: (u8, u8, u8), s1: (u8, u8, u8), m2: (u8, u8, u8), s2: (u8, u8, u8), k: int)
    ensures
        letter_text(letter, row, m1, s1, true, k) == letter_text(letter, row, m2, s2, true, k),
    decreases k,
{
    if k > 0 {
        lemma_colorless_letter(letter, row, m1, s1, m2, s2, k - 1);
    }
}

proof fn lemma_colorless_row(row: int, m1: (u8, u8, u8), s1: (u8, u8, u8), m2: (u8, u8, u8), s2: (u8, u8, u8), l: int)
    ensures
        row_text(row, m1, s1, true, l) == row_text(row, m2, s2, true, l),
    decreases l,
{
    if l > 0 {
        lemma_colorless_row(row, m1, s1, m2, s2, l - 1);
        lemma_colorless_letter(l - 1, row, m1, s1, m2, s2, 5);
    }
}

proof fn lemma_colorless_lines(m1: (u8, u8, u8), s1: (u8, u8, u8), m2: (u8, u8, u8), s2: (u8, u8, u8), r: int)
    ensures
        banner_lines(m1, s1, true, r) == banner_lines(m2, s2, true, r),
    decreases r,
{
    if r > 0 {
        lemma_colorless_lines(m1, s1, m2, s2, r - 1);
        lemma_colorless_row(r - 1, m1, s1, m2, s2, 6);
    }
}

/// The monochrome logo is the same whatever colors are asked for.
pub proof fn law_mono_banner_colorless(m1: (u8, u8, u8), s1: (u8, u8, u8), m2: (u8, u8, u8), s2: (u8, u8, u8))
    ensures
        banner_text(m1, s1, true) == banner_text(m2, s2, true),
{
    lemma_colorless_lines(m1, s1, m2, s2, 5);
}

proof fn lemma_fg_rgb_strips(c: (u8, u8, u8))
    ensures
        strips_to(fg_rgb(c), Seq::empty()),
{
    reveal_strlit("\x1b[38;2;");
    reveal_strlit("\x1b[");
    reveal_strlit("38");
    reveal_strlit(";2;");
    assert("38"@ =~= seq!['3', '8']);
    lemma_rgb_code_strips("38"@, c.0, c.1, c.2);
    assert(fg_rgb(c) =~= rgb_code("38"@, c.0, c.1, c.2));
}

proof fn lemma_strips_cell(letter: int, row: int, col: int, main: (u8, u8, u8), shadow: (u8, u8, u8))
    ensures
        strips_to(cell_text(letter, row, col, main, shadow, false), cell_text(letter, row, col, main, shadow, true)),
{
    reveal_strlit("██");
    reveal_strlit("█");
    reveal_strlit("█ ");
    reveal_strlit("  ");
    reveal_strlit(" ");
    reveal_strlit("\x1b[0m");
    let e = Seq::<char>::empty();
    let reset = "\x1b[0m"@;
    lemma_code_strips(reset);
    if pixel(letter, row, col) {
        lemma_fg_rgb_strips(main);
        lemma_strips_plain("██"@);
        lemma_strips_concat(fg_rgb(main), e, "██"@, "██"@);
        lemma_strips_concat(fg_rgb(main) + "██"@, e + "██"@, reset, e);
        assert(e + "██"@ + e =~= "██"@);
    } else if col > 0 && pixel(letter, row, col - 1) {
        lemma_fg_rgb_strips(shadow);
        lemma_strips_plain("█"@);
        lemma_strips_plain(" "@);
        lemma_strips_concat(fg_rgb(shadow), e, "█"@, "█"@);
        lemma_strips_concat(fg_rgb(shadow) + "█"@, e + "█"@, reset, e);
        lemma_strips_concat(fg_rgb(shadow) + "█"@ + reset, e + "█"@ + e, " "@, " "@);
        assert(e + "█"@ + e + " "@ =~= "█ "@);
    } else {
        lemma_strips_plain("  "@);
    }
}

proof fn lemma_strips_letter(letter: int, row: int, main: (u8, u8, u8), shadow: (u8, u8, u8), k: int)
    ensures
        strips_to(letter_text(letter, row, main, shadow, false, k), letter_text(letter, row, main, shadow, true, k)),
    decreases k,
{
    if k <= 0 {
        lemma_strips_plain(Seq::<char>::empty());
    } else {
        lemma_strips_letter(letter, row, main, shadow, k - 1);
        lemma_strips_cell(letter, row, k - 1, main, shadow);
        lemma_strips_concat(
            letter_text(letter, row, main, shadow, false, k - 1),
            letter_text(letter, row, main, shadow, true, k - 1),
            cell_text(letter, row, k - 1, main, shadow, false),
            cell_text(letter, row, k - 1, main, shadow, true),
        );
    }
}

proof fn lemma_strips_row(row: int, main: (u8, u8, u8), shadow: (u8, u8, u8), l: int)
    ensures
        strips_to(row_text(row, main, shadow, false, l), row_text(row, main, shadow, true, l)),
    decreases l,
{
    if l <= 0 {
        lemma_strips_plain(Seq::<char>::empty());
    } else {
        reveal_strlit("  ");
        lemma_strips_plain("  "@);
        lemma_strips_row(row, main, shadow, l - 1);
        lemma_strips_letter(l - 1, row, main, shadow, 5);
        let a = row_text(row, main, shadow, false, l - 1);
        let ma = row_text(row, main, shadow, true, l - 1);
        let b = letter_text(l - 1, row, main, shadow, false, 5);
        let mb = letter_text(l - 1, row, main, shadow, true, 5);
        lemma_strips_concat(a, ma, b, mb);
        lemma_strips_concat(a + b, ma + mb, "  "@, "  "@);
    }
}

proof fn lemma_strips_lines(main: (u8, u8, u8), shadow: (u8, u8, u8), r: int)
    ensures
        strips_to(banner_lines(main, shadow, false, r), banner_lines(main, shadow, true, r)),
    decreases r,
{
    if r <= 0 {
        lemma_strips_plain(Seq::<char>::empty());
    } else {
        reveal_strlit("  ");
        reveal_strlit("\n");
        lemma_strips_plain("  "@);
        lemma_strips_plain("\n"@);
        lemma_strips_lines(main, shadow, r - 1);
        lemma_strips_row(r - 1, main, shadow, 6);
        let a = banner_lines(main, shadow, false, r - 1);
        let ma = banner_lines(main, shadow, true, r - 1);
        let b = row_text(r - 1, main, shadow, false, 6);
        let mb = row_text(r - 1, main, shadow, true, 6);
        lemma_strips_concat(a, ma, "  "@, "  "@);
        lemma_strips_concat(a + "  "@, ma + "  "@, b, mb);
        lemma_strips_concat(a + "  "@ + b, ma + "  "@ + mb, "\n"@, "\n"@);
    }
}

/// The monochrome logo is the colored logo with its color sequences removed.
pub proof fn law_colored_banner_shows_mono(main: (u8, u8, u8), shadow: (u8, u8, u8))
    ensures
        strip_sgr(banner_text(main, shadow, false)) == banner_text(main, shadow, true),
{
    reveal_strlit("\n");
    lemma_strips_plain("\n"@);
    lemma_strips_lines(main, shadow, 5);
    lemma_strips_concat(
        banner_lines(main, shadow, false, 5),
        banner_lines(main, shadow, true, 5),
        "\n"@,
        "\n"@,
    );
}

/// A character of the monochrome logo: a block or a space.
pub open spec fn block_char(c: char) -> bool {
    c == ' ' || c == '█'
}

/// Every character of `s` is a block or a space.
pub open spec fn all_blocks(s: Seq<char>) -> bool {
    forall|i: int| 0 <= i < s.len() ==> block_char(#[trigger] s[i])
}

proof fn lemma_all_blocks_concat(a: Seq<char>, b: Seq<char>)
    requires
        all_blocks(a),
        all_blocks(b),
    ensures
        all_blocks(a + b),
{
    assert forall|i: int| 0 <= i < (a + b).len() implies block_char(#[trigger] (a + b)[i]) by {
        if i < a.len() {
            assert((a + b)[i] == a[i]);
        } else {
            assert((a + b)[i] == b[i - a.len()]);
        }
    }
}

proof fn lemma_shape_letter(letter: int, row: int, main: (u8, u8, u8), shadow: (u8, u8, u8), k: int)
    requires
        k >= 0,
    ensures
        letter_text(letter, row, main, shadow, true, k).len() == 2 * k,
        all_blocks(letter_text(letter, row, main, shadow, true, k)),
    decreases k,
{
    if k > 0 {
        reveal_strlit("██");
        reveal_strlit("█ ");
        reveal_strlit("  ");
        lemma_shape_letter(letter, row, main, shadow, k - 1);
        let c = cell_text(letter, row, k - 1, main, shadow, true);
        assert(c.len() == 2 && all_blocks(c));
        lemma_all_blocks_concat(letter_text(letter, row, main, shadow, true, k - 1), c);
    }
}

proof fn lemma_shape_row(row: int, main: (u8, u8, u8), shadow: (u8, u8, u8), l: int)
    requires
        l >= 0,
    ensures
        row_text(row, main, shadow, true, l).len() == 12 * l,
        all_blocks(row_text(row, main, shadow, true, l)),
    decreases l,
{
    if l > 0 {
        reveal_strlit("  ");
        lemma_shape_row(row, main, shadow, l - 1);
        lemma_shape_letter(l - 1, row, main, shadow, 5);
        let a = row_text(row, main, shadow, true, l - 1);
        let b = letter_text(l - 1, row, main, shadow, true, 5);
        assert(all_blocks("  "@));
        lemma_all_blocks_concat(a, b);
        lemma_all_blocks_concat(a + b, "  "@);
    }
}

/// Line `i` of `t` is 74 blocks and spaces followed by a line break.
pub open spec fn logo_line_at(t: Seq<char>, i: int) -> bool {
    &&& t[75 * i + 74] == '\n'
    &&& forall|j: int| 0 <= j < 74 ==> block_char(#[trigger] t[75 * i + j])
}

proof fn lemma_shape_lines(main: (u8, u8, u8), shadow: (u8, u8, u8), r: int)
    requires
        r >= 0,
    ensures
        banner_lines(main, shadow, true, r).len() == 75 * r,
        forall|i: int| 0 <= i < r ==> #[trigger] logo_line_at(banner_lines(main, shadow, true, r), i),
    decreases r,
{
    if r > 0 {
        reveal_strlit("  ");
        reveal_strlit("\n");
        lemma_shape_lines(main, shadow, r - 1);
        lemma_shape_row(r - 1, main, shadow, 6);
        let prev = banner_lines(main, shadow, true, r - 1);
        let row = row_text(r - 1, main, shadow, true, 6);
        let line = "  "@ + row + "\n"@;
        let t = banner_lines(main, shadow, true, r);
        assert(t == prev + line);
        assert(line.len() == 75);
        assert forall|i: int| 0 <= i < r implies #[trigger] logo_line_at(t, i) by {
            if i < r - 1 {
                assert(logo_line_at(prev, i));
                assert(t[75 * i + 74] == prev[75 * i + 74]);
                assert forall|j: int| 0 <= j < 74 implies block_char(#[trigger] t[75 * i + j]) by {
                    assert(t[75 * i + j] == prev[75 * i + j]);
                }
            } else {
                assert(t[75 * i + 74] == line[74]);
                assert forall|j: int| 0 <= j < 74 implies block_char(#[trigger] t[75 * i + j]) by {
                    assert(t[75 * i + j] == line[j]);
                    if j >= 2 {
                        assert(line[j] == row[j - 2]);
                    }
                }
            }
        }
    }
}

/// The monochrome logo is five lines of 74 blocks and spaces, then an empty line.
pub proof fn law_mono_banner_shape(main: (u8, u8, u8), shadow: (u8, u8, u8))
    ensures
        banner_text(main, shadow, true).len() == 376,
        forall|i: int| 0 <= i < 5 ==> #[trigger] logo_line_at(banner_text(main, shadow, true), i),
        banner_text(main, shadow, true)[375] == '\n',
{
    reveal_strlit("\n");
    lemma_shape_lines(main, shadow, 5);
    let l = banner_lines(main, shadow, true, 5);
    let t = banner_text(main, shadow, true);
    assert(t == l + "\n"@);
    assert forall|i: int| 0 <= i < 5 implies #[trigger] logo_line_at(t, i) by {
        assert(logo_line_at(l, i));
        assert(t[75 * i + 74] == l[75 * i + 74]);
        assert forall|j: int| 0 <= j < 74 implies block_char(#[trigger] t[75 * i + j]) by {
            assert(t[75 * i + j] == l[75 * i + j]);
        }
    }
}

} // verus!
