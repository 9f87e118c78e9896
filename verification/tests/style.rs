use pogoda::style::{emit_span, write_colored, SpanStyle, Tint};

fn chars(s: &str) -> Vec<char> {
    s.chars().collect()
}

fn span(content: &str, st: SpanStyle, mono: bool) -> String {
    let mut out: Vec<char> = Vec::new();
    emit_span(&mut out, &chars(content), st, mono);
    out.iter().collect()
}

fn colored(ch: &str, c: Tint, mono: bool) -> String {
    let mut out: Vec<char> = Vec::new();
    write_colored(&mut out, &chars(ch), c, mono);
    out.iter().collect()
}

fn strip(s: &str) -> String {
    let mut r = String::new();
    let mut inside = false;
    for c in s.chars() {
        if inside {
            inside = c != 'm';
        } else if c == '\x1b' {
            inside = true;
        } else {
            r.push(c);
        }
    }
    r
}

fn style(fg: Option<Tint>, bg: Option<Tint>, bold: bool, blink: bool) -> SpanStyle {
    SpanStyle { fg, bg, bold, blink, any_modifier: bold || blink }
}

#[test]
fn span_full_style() {
    let st = style(Some(Tint::Rgb(1, 22, 255)), Some(Tint::Rgb(0, 0, 9)), true, true);
    assert_eq!(span("hi", st, false), "\x1b[1m\x1b[5m\x1b[48;2;0;0;9m\x1b[38;2;1;22;255mhi\x1b[0m");
}

#[test]
fn span_named_colors() {
    assert_eq!(span("a", style(Some(Tint::White), None, false, false), false), "\x1b[97ma\x1b[0m");
    assert_eq!(span("a", style(Some(Tint::DarkGray), None, false, false), false), "\x1b[90ma\x1b[0m");
    assert_eq!(span("a", style(Some(Tint::Cyan), None, false, false), false), "\x1b[36ma\x1b[0m");
    assert_eq!(span("a", style(Some(Tint::Blue), None, false, false), false), "\x1b[34ma\x1b[0m");
    // a color without a sequence still closes the style
    assert_eq!(span("a", style(Some(Tint::Other), None, false, false), false), "a\x1b[0m");
    // a named background is not written, and alone sets no style
    assert_eq!(span("a", style(None, Some(Tint::Cyan), false, false), false), "a");
    assert_eq!(span("a", style(None, None, false, false), false), "a");
}

#[test]
fn span_mono_keeps_only_bold() {
    let st = style(Some(Tint::Rgb(9, 9, 9)), Some(Tint::Rgb(1, 1, 1)), true, true);
    assert_eq!(span("x", st, true), "\x1b[1mx\x1b[0m");
    let st = style(Some(Tint::Cyan), None, false, true);
    assert_eq!(span("x", st, true), "x");
}

#[test]
fn colored_variants() {
    assert_eq!(colored("█", Tint::Rgb(10, 0, 200), false), "\x1b[38;2;10;0;200m█\x1b[0m");
    assert_eq!(colored("█", Tint::White, false), "\x1b[1;37m█\x1b[0m");
    assert_eq!(colored("█", Tint::DarkGray, false), "\x1b[90m█\x1b[0m");
    assert_eq!(colored("█", Tint::Cyan, false), "\x1b[36m█\x1b[0m");
    assert_eq!(colored("█", Tint::Blue, false), "█");
    assert_eq!(colored("█", Tint::Other, false), "█");
    assert_eq!(colored("█", Tint::Rgb(10, 0, 200), true), "█");
}

#[test]
fn styling_strips_to_content() {
    let st = style(Some(Tint::Rgb(255, 128, 0)), Some(Tint::Rgb(3, 4, 5)), true, true);
    assert_eq!(strip(&span("Wrocław 12°C", st, false)), "Wrocław 12°C");
    assert_eq!(strip(&colored("▆", Tint::White, false)), "▆");
}
