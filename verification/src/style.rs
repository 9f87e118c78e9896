//! Terminal styling: the escape sequences that color and emphasise a piece of text, and
//! what is left of them in monochrome mode.
use vstd::prelude::*;
use crate::text::{decimal, digits_of, digit_char, push_decimal, push_str, push_chars, no_escape};

verus! {

/// A terminal color.
#[derive(Clone, Copy, Debug, PartialEq, Eq, Structural)]
pub enum Tint {
    /// 24-bit color
    Rgb(u8, u8, u8),
    White,
    DarkGray,
    Cyan,
    Blue,
    /// any other named color: written without a color sequence
    Other,
}

/// How a span of text is styled.
#[derive(Clone, Copy, Debug, PartialEq, Eq, Structural)]
pub struct SpanStyle {
    /// foreground color
    pub fg: Option<Tint>,
    /// background color (only 24-bit backgrounds are written)
    pub bg: Option<Tint>,
    pub bold: bool,
    pub blink: bool,
    /// some modifier is set (bold and blink count among them)
    pub any_modifier: bool,
}

/// Escape sequence selecting a 24-bit color; `sel` is `38` for the foreground and `48`
/// for the background.
pub open spec fn rgb_code(sel: Seq<char>, r: u8, g: u8, b: u8) -> Seq<char> {
    "\x1b["@ + sel + ";2;"@ + decimal(r as int) + ";"@ + decimal(g as int) + ";"@ + decimal(
        b as int,
    ) + "m"@
}

/// Foreground sequence of a span.
pub open spec fn fg_code(t: Tint) -> Seq<char> {
    match t {
        Tint::Rgb(r, g, b) => rgb_code("38"@, r, g, b),
        Tint::White => "\x1b[97m"@,
        Tint::DarkGray => "\x1b[90m"@,
        Tint::Cyan => "\x1b[36m"@,
        Tint::Blue => "\x1b[34m"@,
        Tint::Other => Seq::empty(),
    }
}

/// Background sequence of a span.
pub open spec fn bg_code(t: Option<Tint>) -> Seq<char> {
    match t {
        Some(Tint::Rgb(r, g, b)) => rgb_code("48"@, r, g, b),
        _ => Seq::empty(),
    }
}

/// A span's text: in monochrome mode only bold survives; otherwise bold, blink,
/// background and foreground sequences precede the content, and a reset follows it
/// when a foreground or a modifier was set.
pub open spec fn span_text(content: Seq<char>, st: SpanStyle, mono: bool) -> Seq<char> {
    if mono {
        if st.bold { "\x1b[1m"@ + content + "\x1b[0m"@ } else { content }
    } else {
        let has_style = st.fg is Some || st.bold || st.blink || st.any_modifier;
        (if st.bold { "\x1b[1m"@ } else { Seq::empty() }) + (if st.blink { "\x1b[5m"@ } else {
            Seq::empty()
        }) + bg_code(st.bg) + (match st.fg {
            Some(t) => fg_code(t),
            None => Seq::empty(),
        }) + content + (if has_style { "\x1b[0m"@ } else { Seq::empty() })
    }
}

/// A single colored piece of text: plain in monochrome mode and for colors without a
/// sequence (blue and other named colors), else wrapped in the color and a reset.
pub open spec fn colored_text(ch: Seq<char>, c: Tint, mono: bool) -> Seq<char> {
    if mono {
        ch
    } else {
        match c {
            Tint::Rgb(r, g, b) => rgb_code("38"@, r, g, b) + ch + "\x1b[0m"@,
            Tint::White => "\x1b[1;37m"@ + ch + "\x1b[0m"@,
            Tint::DarkGray => "\x1b[90m"@ + ch + "\x1b[0m"@,
            Tint::Cyan => "\x1b[36m"@ + ch + "\x1b[0m"@,
            _ => ch,
        }
    }
}

fn push_rgb(out: &mut Vec<char>, sel: &str, r: u8, g: u8, b: u8)
    ensures
        final(out)@ == old(out)@ + rgb_code(sel@, r, g, b),
{
    push_str(out, "\x1b[");
    push_str(out, sel);
    push_str(out, ";2;");
    push_decimal(out, r as i64);
    push_str(out, ";");
    push_decimal(out, g as i64);
    push_str(out, ";");
    push_decimal(out, b as i64);
    push_str(out, "m");
    assert(out@ =~= old(out)@ + rgb_code(sel@, r, g, b));
}

fn push_fg_code(out: &mut Vec<char>, fg: Option<Tint>)
    ensures
        final(out)@ == old(out)@ + (match fg {
            Some(t) => fg_code(t),
            None => Seq::empty(),
        }),
{
    match fg {
        Some(Tint::Rgb(r, g, b)) => push_rgb(out, "38", r, g, b),
        Some(Tint::White) => push_str(out, "\x1b[97m"),
        Some(Tint::DarkGray) => push_str(out, "\x1b[90m"),
        Some(Tint::Cyan) => push_str(out, "\x1b[36m"),
        Some(Tint::Blue) => push_str(out, "\x1b[34m"),
        _ => {
            assert(out@ =~= old(out)@ + Seq::<char>::empty());
        },
    }
}

fn push_bg_code(out: &mut Vec<char>, bg: Option<Tint>)
    ensures
        final(out)@ == old(out)@ + bg_code(bg),
{
    match bg {
        Some(Tint::Rgb(r, g, b)) => push_rgb(out, "48", r, g, b),
        _ => {
            assert(out@ =~= old(out)@ + Seq::<char>::empty());
        },
    }
}

fn push_if(out: &mut Vec<char>, cond: bool, s: &str)
    ensures
        final(out)@ == old(out)@ + (if cond { s@ } else { Seq::empty() }),
{
    if cond {
        push_str(out, s);
    } else {
        assert(out@ =~= old(out)@ + Seq::<char>::empty());
    }
}

/// Writes a styled span into `out`.
pub fn emit_span(out: &mut Vec<char>, content: &Vec<char>, st: SpanStyle, mono: bool)
    ensures
        final(out)@ == old(out)@ + span_text(content@, st, mono),
{
    let ghost start = out@;
    if mono {
        push_if(out, st.bold, "\x1b[1m");
        push_chars(out, content);
        push_if(out, st.bold, "\x1b[0m");
        assert(out@ =~= start + span_text(content@, st, mono));
        return;
    }
    let has_style = st.fg.is_some() || st.bold || st.blink || st.any_modifier;
    push_if(out, st.bold, "\x1b[1m");
    push_if(out, st.blink, "\x1b[5m");
    push_bg_code(out, st.bg);
    push_fg_code(out, st.fg);
    push_chars(out, content);
    push_if(out, has_style, "\x1b[0m");
    assert(out@ =~= start + span_text(content@, st, mono));
}

/// Writes a colored piece of text into `out`.
pub fn write_colored(out: &mut Vec<char>, ch: &Vec<char>, c: Tint, mono: bool)
    ensures
        final(out)@ == old(out)@ + colored_text(ch@, c, mono),
{
    let ghost start = out@;
    if mono {
        push_chars(out, ch);
        return;
    }
    match c {
        Tint::Rgb(r, g, b) => {
            push_rgb(out, "38", r, g, b);
            push_chars(out, ch);
            push_str(out, "\x1b[0m");
        },
        Tint::White => {
            push_str(out, "\x1b[1;37m");
            push_chars(out, ch);
            push_str(out, "\x1b[0m");
        },
        Tint::DarkGray => {
            push_str(out, "\x1b[90m");
            push_chars(out, ch);
            push_str(out, "\x1b[0m");
        },
        Tint::Cyan => {
            push_str(out, "\x1b[36m");
            push_chars(out, ch);
            push_str(out, "\x1b[0m");
        },
        _ => {
            push_chars(out, ch);
        },
    }
    assert(out@ =~= start + colored_text(ch@, c, mono));
}

/// In monochrome mode a span keeps only its bold sequence: colors, background and
/// blinking are dropped.
pub proof fn law_mono_span(content: Seq<char>, st: SpanStyle)
    ensures
        span_text(content, st, true) == (if st.bold {
            "\x1b[1m"@ + content + "\x1b[0m"@
        } else {
            content
        }),
{
}

/// In monochrome mode a colored piece of text is written as it is.
pub proof fn law_mono_colored(ch: Seq<char>, c: Tint)
    ensures
        colored_text(ch, c, true) == ch,
{
}

/// `s` with every escape sequence removed, each running from an escape character to the
/// next `m` (as the sequences that select colors and emphasis do); `inside` tells
/// whether `s` starts within such a sequence.
pub open spec fn strip_from(s: Seq<char>, inside: bool) -> Seq<char>
    decreases s.len(),
{
    if s.len() == 0 {
        Seq::empty()
    } else if inside {
        strip_from(s.drop_first(), s[0] != 'm')
    } else if s[0] == '\x1b' {
        strip_from(s.drop_first(), true)
    } else {
        seq![s[0]] + strip_from(s.drop_first(), false)
    }
}

/// Whether `s`, read from state `inside`, ends within an escape sequence.
pub open spec fn ends_inside(s: Seq<char>, inside: bool) -> bool
    decreases s.len(),
{
    if s.len() == 0 {
        inside
    } else if inside {
        ends_inside(s.drop_first(), s[0] != 'm')
    } else {
        ends_inside(s.drop_first(), s[0] == '\x1b')
    }
}

/// The text a terminal shows of `s`, its styling sequences removed.
pub open spec fn strip_sgr(s: Seq<char>) -> Seq<char> {
    strip_from(s, false)
}

/// `s` shows as `t` and leaves no escape sequence open.
pub open spec fn strips_to(s: Seq<char>, t: Seq<char>) -> bool {
    strip_from(s, false) == t && !ends_inside(s, false)
}

proof fn lemma_strip_concat(a: Seq<char>, b: Seq<char>, inside: bool)
    ensures
        strip_from(a + b, inside) == strip_from(a, inside) + strip_from(b, ends_inside(a, inside)),
        ends_inside(a + b, inside) == ends_inside(b, ends_inside(a, inside)),
    decreases a.len(),
{
    if a.len() == 0 {
        assert(a + b =~= b);
        assert(strip_from(a, inside) =~= Seq::<char>::empty());
        assert(Seq::<char>::empty() + strip_from(b, inside) =~= strip_from(b, inside));
    } else {
        assert((a + b).drop_first() =~= a.drop_first() + b);
        assert((a + b)[0] == a[0]);
        let next = if inside { a[0] != 'm' } else { a[0] == '\x1b' };
        lemma_strip_concat(a.drop_first(), b, next);
        if !inside && a[0] != '\x1b' {
            assert(seq![a[0]] + strip_from(a.drop_first(), false) + strip_from(
                b,
                ends_inside(a.drop_first(), false),
            ) =~= seq![a[0]] + (strip_from(a.drop_first(), false) + strip_from(
                b,
                ends_inside(a.drop_first(), false),
            )));
        }
    }
}

/// Two pieces that each leave no sequence open show as their shown texts joined.
pub proof fn lemma_strips_concat(a: Seq<char>, ta: Seq<char>, b: Seq<char>, tb: Seq<char>)
    requires
        strips_to(a, ta),
        strips_to(b, tb),
    ensures
        strips_to(a + b, ta + tb),
{
    lemma_strip_concat(a, b, false);
}

/// Text without escape characters shows as it is.
pub proof fn lemma_strips_plain(s: Seq<char>)
    requires
        no_escape(s),
    ensures
        strips_to(s, s),
    decreases s.len(),
{
    if s.len() == 0 {
        assert(strip_from(s, false) =~= s);
    } else {
        let rest = s.drop_first();
        assert(no_escape(rest));
        lemma_strips_plain(rest);
        assert(s[0] != '\x1b');
        assert(strip_from(s, false) == seq![s[0]] + strip_from(rest, false));
        assert(ends_inside(s, false) == ends_inside(rest, false));
        assert(seq![s[0]] + rest =~= s);
    }
}

proof fn lemma_strip_inside(s: Seq<char>)
    requires
        forall|i: int| 0 <= i < s.len() ==> s[i] != 'm',
    ensures
        strip_from(s, true) == Seq::<char>::empty(),
        ends_inside(s, true),
    decreases s.len(),
{
    if s.len() > 0 {
        lemma_strip_inside(s.drop_first());
    }
}

/// An escape character, characters other than `m`, and a closing `m` show as nothing.
pub proof fn lemma_strips_sequence(mid: Seq<char>)
    requires
        forall|i: int| 0 <= i < mid.len() ==> mid[i] != 'm',
    ensures
        strips_to(seq!['\x1b'] + mid + seq!['m'], Seq::empty()),
{
    let e = Seq::<char>::empty();
    let x = seq!['\x1b'];
    let m = seq!['m'];
    assert(x.drop_first() =~= e);
    assert(m.drop_first() =~= e);
    assert(strip_from(e, true) == e);
    assert(strip_from(e, false) == e);
    assert(ends_inside(e, true));
    assert(!ends_inside(e, false));
    assert(strip_from(x, false) == strip_from(x.drop_first(), true));
    assert(ends_inside(x, false) == ends_inside(x.drop_first(), true));
    assert(strip_from(m, true) == strip_from(m.drop_first(), false));
    assert(ends_inside(m, true) == ends_inside(m.drop_first(), false));
    lemma_strip_inside(mid);
    lemma_strip_concat(x, mid + m, false);
    lemma_strip_concat(mid, m, true);
    assert(x + mid + m =~= x + (mid + m));
    assert(e + (e + e) =~= e);
}

/// A decimal digit is neither `m` nor an escape character.
proof fn lemma_digit_char(d: int)
    requires
        0 <= d < 10,
    ensures
        digit_char(d) != 'm',
        digit_char(d) != '\x1b',
{
    assert(('0' as u32) == 48);
    assert(digit_char(d) as u32 == 48 + d);
    assert(('m' as u32) == 109);
    assert(('\x1b' as u32) == 27);
}

proof fn lemma_digits_no_m(n: nat)
    ensures
        forall|i: int| 0 <= i < digits_of(n).len() ==> digits_of(n)[i] != 'm' && digits_of(n)[i]
            != '\x1b',
    decreases n,
{
    if n < 10 {
        lemma_digit_char(n as int);
        assert(digits_of(n) == seq![digit_char(n as int)]);
    } else {
        lemma_digits_no_m(n / 10);
        lemma_digit_char((n % 10) as int);
        let p = digits_of(n / 10);
        assert(digits_of(n) == p.push(digit_char((n % 10) as int)));
        assert forall|i: int| 0 <= i < digits_of(n).len() implies digits_of(n)[i] != 'm'
            && digits_of(n)[i] != '\x1b' by {
            if i < p.len() {
                assert(digits_of(n)[i] == p[i]);
            }
        }
    }
}

/// A 24-bit color sequence shows as nothing.
pub proof fn lemma_rgb_code_strips(sel: Seq<char>, r: u8, g: u8, b: u8)
    requires
        forall|i: int| 0 <= i < sel.len() ==> sel[i] != 'm',
    ensures
        strips_to(rgb_code(sel, r, g, b), Seq::empty()),
{
    reveal_strlit("\x1b[");
    reveal_strlit(";2;");
    reveal_strlit(";");
    reveal_strlit("m");
    lemma_digits_no_m(r as nat);
    lemma_digits_no_m(g as nat);
    lemma_digits_no_m(b as nat);
    let mid = seq!['['] + sel + ";2;"@ + decimal(r as int) + ";"@ + decimal(g as int) + ";"@
        + decimal(b as int);
    assert forall|i: int| 0 <= i < mid.len() implies mid[i] != 'm' by {
        let l0 = 1 + sel.len();
        let l1 = l0 + 3;
        let l2 = l1 + decimal(r as int).len();
        let l3 = l2 + 1;
        let l4 = l3 + decimal(g as int).len();
        let l5 = l4 + 1;
        if i == 0 {
        } else if i < l0 {
            assert(mid[i] == sel[i - 1]);
        } else if i < l1 {
        } else if i < l2 {
            assert(mid[i] == decimal(r as int)[i - l1]);
        } else if i < l3 {
        } else if i < l4 {
            assert(mid[i] == decimal(g as int)[i - l3]);
        } else if i < l5 {
        } else {
            assert(mid[i] == decimal(b as int)[i - l5]);
        }
    }
    lemma_strips_sequence(mid);
    assert(rgb_code(sel, r, g, b) =~= seq!['\x1b'] + mid + seq!['m']);
}

/// A fixed escape sequence `\x1b[` ... `m` shows as nothing.
pub proof fn lemma_code_strips(code: Seq<char>)
    requires
        code.len() >= 2,
        code[0] == '\x1b',
        code[code.len() - 1] == 'm',
        forall|i: int| 1 <= i < code.len() - 1 ==> code[i] != 'm',
    ensures
        strips_to(code, Seq::empty()),
{
    let mid = code.subrange(1, code.len() - 1);
    lemma_strips_sequence(mid);
    assert(code =~= seq!['\x1b'] + mid + seq!['m']);
}

proof fn lemma_fixed_codes_strip()
    ensures
        strips_to("\x1b[0m"@, Seq::empty()),
        strips_to("\x1b[1m"@, Seq::empty()),
        strips_to("\x1b[5m"@, Seq::empty()),
        strips_to("\x1b[97m"@, Seq::empty()),
        strips_to("\x1b[90m"@, Seq::empty()),
        strips_to("\x1b[36m"@, Seq::empty()),
        strips_to("\x1b[34m"@, Seq::empty()),
        strips_to("\x1b[1;37m"@, Seq::empty()),
        strips_to(Seq::<char>::empty(), Seq::empty()),
{
    reveal_strlit("\x1b[0m");
    reveal_strlit("\x1b[1m");
    reveal_strlit("\x1b[5m");
    reveal_strlit("\x1b[97m");
    reveal_strlit("\x1b[90m");
    reveal_strlit("\x1b[36m");
    reveal_strlit("\x1b[34m");
    reveal_strlit("\x1b[1;37m");
    lemma_code_strips("\x1b[0m"@);
    lemma_code_strips("\x1b[1m"@);
    lemma_code_strips("\x1b[5m"@);
    lemma_code_strips("\x1b[97m"@);
    lemma_code_strips("\x1b[90m"@);
    lemma_code_strips("\x1b[36m"@);
    lemma_code_strips("\x1b[34m"@);
    lemma_code_strips("\x1b[1;37m"@);
}

/// Styling changes only how a span looks: with its sequences removed, a colored span
/// shows exactly its content.
pub proof fn law_styled_span_shows_content(content: Seq<char>, st: SpanStyle)
    requires
        no_escape(content),
    ensures
        strip_sgr(span_text(content, st, false)) == content,
{
    lemma_fixed_codes_strip();
    lemma_strips_plain(content);
    reveal_strlit("38");
    reveal_strlit("48");
    let e = Seq::<char>::empty();
    let bold: Seq<char> = if st.bold { "\x1b[1m"@ } else { e };
    let blink: Seq<char> = if st.blink { "\x1b[5m"@ } else { e };
    let bg = bg_code(st.bg);
    let fg: Seq<char> = match st.fg {
        Some(t) => fg_code(t),
        None => e,
    };
    let has_style = st.fg is Some || st.bold || st.blink || st.any_modifier;
    let reset: Seq<char> = if has_style { "\x1b[0m"@ } else { e };
    match st.bg {
        Some(Tint::Rgb(r, g, b)) => lemma_rgb_code_strips("48"@, r, g, b),
        _ => {},
    }
    match st.fg {
        Some(Tint::Rgb(r, g, b)) => lemma_rgb_code_strips("38"@, r, g, b),
        _ => {},
    }
    assert(strips_to(bg, e));
    assert(strips_to(fg, e));
    lemma_strips_concat(bold, e, blink, e);
    lemma_strips_concat(bold + blink, e + e, bg, e);
    lemma_strips_concat(bold + blink + bg, e + e + e, fg, e);
    lemma_strips_concat(bold + blink + bg + fg, e + e + e + e, content, content);
    lemma_strips_concat(bold + blink + bg + fg + content, e + e + e + e + content, reset, e);
    assert(e + e + e + e + content + e =~= content);
}

/// With its sequences removed, a colored piece of text shows exactly its characters.
pub proof fn law_colored_text_shows_content(ch: Seq<char>, c: Tint)
    requires
        no_escape(ch),
    ensures
        strip_sgr(colored_text(ch, c, false)) == ch,
{
    lemma_fixed_codes_strip();
    lemma_strips_plain(ch);
    reveal_strlit("38");
    let e = Seq::<char>::empty();
    let open: Seq<char> = match c {
        Tint::Rgb(r, g, b) => rgb_code("38"@, r, g, b),
        Tint::White => "\x1b[1;37m"@,
        Tint::DarkGray => "\x1b[90m"@,
        Tint::Cyan => "\x1b[36m"@,
        _ => e,
    };
    let close: Seq<char> = match c {
        Tint::Rgb(..) | Tint::White | Tint::DarkGray | Tint::Cyan => "\x1b[0m"@,
        _ => e,
    };
    match c {
        Tint::Rgb(r, g, b) => lemma_rgb_code_strips("38"@, r, g, b),
        _ => {},
    }
    lemma_strips_concat(open, e, ch, ch);
    lemma_strips_concat(open + ch, e + ch, close, e);
    assert(colored_text(ch, c, false) =~= open + ch + close);
    assert(e + ch + e =~= ch);
}

} // verus!
