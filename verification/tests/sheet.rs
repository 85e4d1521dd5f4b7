use herdr_freeze::overlay::{center, clear, draw, term_size};

#[test]
fn texts_are_centred_or_cut() {
    assert_eq!(center("ab", 8), "  ab  ");
    assert_eq!(center("abc", 8), " abc  ");
    assert_eq!(center("abcdef", 6), "abcd");
    assert_eq!(center("abc", 1), "");
}

#[test]
fn the_terminal_has_a_size() {
    assert_eq!(term_size(None, None), (80, 24));
    assert_eq!(term_size(Some("100"), Some("30")), (100, 30));
    assert_eq!(term_size(Some("19"), Some("5")), (80, 24));
    assert_eq!(term_size(Some("20"), Some("6")), (20, 6));
    assert_eq!(term_size(Some("70000"), Some("x")), (80, 24));
}

#[test]
fn a_sheet_stands_in_the_middle() {
    let sheet = draw(80, 24);
    let lines: Vec<&str> = sheet.split('\n').collect();
    // A front line, eight empty ones, five of the sheet, and what follows the last.
    assert_eq!(lines.len(), 15);
    assert!(lines[0].starts_with("\u{1b}[2J\u{1b}[H\u{1b}[?25l"));
    assert_eq!(lines[1], "        \u{1b}[0m");
    assert_eq!(lines[9], format!("        ╭{}╮\u{1b}[0m", "─".repeat(62)));
    assert!(lines[10].contains("❄  已冻结"));
    assert!(lines[12].contains("按任意键 恢复整个 tab"));
    assert_eq!(lines[13], format!("        ╰{}╯\u{1b}[0m", "─".repeat(62)));
    for line in &lines[10..13] {
        assert_eq!(line.chars().filter(|c| *c != '\u{1b}').count(), 8 + 64 + 3);
    }
}

#[test]
fn a_small_terminal_has_a_sheet_too() {
    let sheet = draw(20, 6);
    assert!(sheet.contains(&format!("\n╭{}╮", "─".repeat(38))));
    assert_eq!(sheet.matches('\n').count(), 6);
}

#[test]
fn a_sheet_is_taken_away() {
    assert_eq!(clear(), "\u{1b}[?25h\u{1b}[0m\u{1b}[2J\u{1b}[H");
}
