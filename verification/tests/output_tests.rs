use habit_cli::output::{display_width, pad_right, render_simple_table, Styler};

#[test]
fn test_display_width_ascii() {
    assert_eq!(display_width("hello"), 5);
    assert_eq!(display_width(""), 0);
    assert_eq!(display_width("a"), 1);
}

#[test]
fn test_display_width_cjk() {
    // CJK characters are width 2
    assert_eq!(display_width("한"), 2); // Hangul
    assert_eq!(display_width("中"), 2); // Chinese
    assert_eq!(display_width("日本"), 4); // Japanese (2 chars)
    assert_eq!(display_width("Hello中文"), 9); // 5 ASCII + 2 CJK chars
}

#[test]
fn test_display_width_emoji() {
    // Emoji are width 2
    assert_eq!(display_width("😀"), 2);
    assert_eq!(display_width("🚀"), 2);
    assert_eq!(display_width("Test🎉"), 6); // 4 ASCII + 1 emoji
}

#[test]
fn test_display_width_block_elements() {
    // Block elements (used in progress bars) are width 2
    assert_eq!(display_width("█"), 2);
    assert_eq!(display_width("░"), 2);
    assert_eq!(display_width("█████"), 10); // 5 blocks = 10 width
}

#[test]
fn test_pad_right_ascii() {
    assert_eq!(pad_right("hi", 5), "hi   ");
    assert_eq!(pad_right("hello", 5), "hello");
    assert_eq!(pad_right("toolong", 5), "toolong");
}

#[test]
fn test_pad_right_unicode() {
    // CJK char is width 2, so "한" needs 3 spaces to reach width 5
    assert_eq!(pad_right("한", 5), "한   ");
    // "中文" is width 4, needs 1 space to reach width 5
    assert_eq!(pad_right("中文", 5), "中文 ");
}

#[test]
fn test_render_simple_table_unicode_alignment() {
    let headers = &["name", "value"];
    let rows = vec![
        vec!["한글".to_string(), "100".to_string()],
        vec!["ASCII".to_string(), "200".to_string()],
    ];
    let table = render_simple_table(headers, &rows);
    let lines: Vec<&str> = table.lines().collect();

    // Both data rows should have same length for alignment
    assert_eq!(lines.len(), 3);
    // The display width of each line should match
    assert_eq!(display_width(lines[1]), display_width(lines[2]));
}

#[test]
fn table_without_rows_is_the_header_line() {
    let rows: Vec<Vec<String>> = Vec::new();
    assert_eq!(render_simple_table(&["id", "name"], &rows), "id  name");
}

#[test]
fn table_pads_each_column_to_its_widest_cell() {
    let rows = vec![
        vec!["h0001".to_string(), "Read".to_string()],
        vec!["h0002".to_string(), "Stretch".to_string(), "x".to_string()],
    ];
    assert_eq!(
        render_simple_table(&["id", "name"], &rows),
        "id     name   \nh0001  Read   \nh0002  Stretch  x"
    );
}

#[test]
fn styler_wraps_only_when_colour_is_on() {
    assert_eq!(Styler::new(false).green("ok"), "ok");
    assert_eq!(Styler::new(true).green("ok"), "\u{1b}[32mok\u{1b}[0m");
    assert_eq!(Styler::new(true).gray("ok"), "\u{1b}[90mok\u{1b}[0m");
}
