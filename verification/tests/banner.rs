use pogoda::banner::print_banner;
use pogoda::footer::write_footer;

#[test]
fn mono_banner_lines() {
    let mut out: Vec<char> = Vec::new();
    print_banner(&mut out, (1, 2, 3), (4, 5, 6), true);
    let text: String = out.iter().collect();
    let lines: Vec<&str> = text.split('\n').collect();
    assert_eq!(lines.len(), 7);
    let first = format!(
        "  {}  {}  {}  {}  {}  {}  ",
        "███████   ", "  █████   ", "  ███████ ", "  █████   ", "███████   ", "  █████   "
    );
    assert_eq!(lines[0], first);
    assert_eq!(lines[5], "");
    assert_eq!(lines[6], "");
    assert!(!text.contains('\x1b'));
}

#[test]
fn colored_banner_uses_rgb_escapes() {
    let mut out: Vec<char> = "x".chars().collect();
    print_banner(&mut out, (0, 188, 212), (90, 0, 170), false);
    let text: String = out.iter().collect();
    assert!(text.starts_with("x  \x1b[38;2;0;188;212m██\x1b[0m"));
    assert!(text.contains("\x1b[38;2;90;0;170m█\x1b[0m "));
}

#[test]
fn footer_layout() {
    let mut out: Vec<char> = Vec::new();
    write_footer(&mut out, "Data", "API:", "https://x", "Mods:", "GH", "0.2", true);
    let text: String = out.iter().collect();
    let expected = "\nData\nAPI: https://x\n\nMods: --i-drone-you  --delorean  --units  --lang\n      --i-am-blue  --color-me  --classic-colors  --rainforest  --i-cant-afford-cga\n      --no-eyecandy  --high-charts  --no-charts  --no-table  --tabular-bells\n\nGH  v0.2\n";
    assert_eq!(text, expected);
    let mut dim: Vec<char> = Vec::new();
    write_footer(&mut dim, "Data", "API:", "u", "M", "GH", "0.2", false);
    let text: String = dim.iter().collect();
    assert!(text.starts_with("\n\x1b[90mData"));
    assert!(text.ends_with("GH  v0.2\n\x1b[0m"));
}

#[test]
fn mono_footer_has_no_escape() {
    let mut out: Vec<char> = Vec::new();
    write_footer(&mut out, "Źródło", "API:", "https://api.open-meteo.com", "Modyfikatory:", "GH", "0.2", true);
    let text: String = out.iter().collect();
    assert!(!text.contains('\x1b'));
    assert!(text.contains("\n              --i-am-blue"));
}

fn banner(main: (u8, u8, u8), shadow: (u8, u8, u8), mono: bool) -> String {
    let mut out: Vec<char> = Vec::new();
    print_banner(&mut out, main, shadow, mono);
    out.iter().collect()
}

fn strip_sgr(s: &str) -> String {
    let mut r = String::new();
    let mut inside = false;
    for c in s.chars() {
        if inside {
            inside = c != 'm';
        } else if c == '\x1b' {
            inside = true;
        } else {
            r.push(c);
        }
    }
    r
}

#[test]
fn mono_banner_ignores_colors_and_is_stripped_colored() {
    let a = banner((1, 2, 3), (4, 5, 6), true);
    let b = banner((200, 100, 0), (0, 0, 255), true);
    assert_eq!(a, b);
    assert_eq!(strip_sgr(&banner((200, 100, 0), (0, 0, 255), false)), a);
}

#[test]
fn mono_banner_shape() {
    let t = banner((0, 0, 0), (0, 0, 0), true);
    let lines: Vec<&str> = t.split('\n').collect();
    assert_eq!(t.chars().count(), 376);
    for line in &lines[..5] {
        assert_eq!(line.chars().count(), 74);
        assert!(line.chars().all(|c| c == ' ' || c == '█'));
    }
    assert_eq!(lines[5], "");
}
