use netzer::display::{
    bot_border, mid_full, mid_split_bot, mid_split_mid, escape_json, format_inspector_hex, get_sparkline_char, h_line, mid_split_top, pad_visible,
    printable_stream, render_bar_parts, row_full, row_split, scale_of, sparkline, to_hex_string, top_border, truncate, truncate_is_safe,
    visible_width,
};
use netzer::hexdump::hexdump;

#[test]
fn hexdump_two_lines() {
    let data: Vec<u8> = (0x3c..0x3c + 20).collect();
    assert_eq!(
        hexdump(&data),
        "  0000  3c 3d 3e 3f 40 41 42 43  44 45 46 47 48 49 4a 4b  <=>?@ABCDEFGHIJK\n  0010  4c 4d 4e 4f                                       LMNO\n"
    );
    assert_eq!(
        hexdump(b"GET / HTTP/1.1\r\n"),
        "  0000  47 45 54 20 2f 20 48 54  54 50 2f 31 2e 31 0d 0a  GET / HTTP/1.1..\n"
    );
    assert_eq!(hexdump(&[]), "");
}

#[test]
fn json_escaping() {
    assert_eq!(escape_json(r#"a"b\c"#), r#"a\"b\\c"#);
    assert_eq!(escape_json("plain"), "plain");
}

#[test]
fn hex_string_is_capped() {
    assert_eq!(to_hex_string(&[0x00, 0xab, 0x10]), "00ab10");
    let big = vec![0xffu8; 300];
    assert_eq!(to_hex_string(&big).len(), 512);
}

#[test]
fn truncation() {
    assert_eq!(truncate("short", 10), "short");
    assert_eq!(truncate("exactly10!", 10), "exactly10!");
    assert_eq!(truncate("abcdefghijk", 5), "abcd…");
    assert_eq!(truncate("abc", 0), "…");
    assert!(truncate_is_safe("abcdefghijk", 5));
    assert!(!truncate_is_safe("abcé5678", 4));
}

#[test]
fn widths_ignore_colour() {
    assert_eq!(visible_width("plain"), 5);
    assert_eq!(visible_width("\x1B[1;36mTCP\x1B[0m"), 3);
    assert_eq!(pad_visible("ab", 4), "ab  ");
    assert_eq!(pad_visible("abcdef", 3), "abc");
    assert_eq!(pad_visible("\x1B[31mabcdef\x1B[0m", 3), "\x1B[31mabc");
}

#[test]
fn box_drawing() {
    assert_eq!(h_line(3), "───");
    assert_eq!(top_border().chars().count(), 122);
    assert!(top_border().starts_with('╭') && top_border().ends_with('╮'));
    assert!(bot_border().starts_with('╰'));
    assert_eq!(mid_split_top().chars().nth(66), Some('┬'));
    let row = row_full("hi");
    assert_eq!(row.chars().count(), 122);
    assert!(row.starts_with("│ hi "));
    let split = row_split("left", "right");
    assert_eq!(split.chars().count(), 63 + 52 + 7);
}

#[test]
fn sparkline_and_bars() {
    assert_eq!(get_sparkline_char(0, 10), '·');
    assert_eq!(get_sparkline_char(5, 0), '·');
    assert_eq!(get_sparkline_char(10, 10), '█');
    assert_eq!(get_sparkline_char(1, 10), '▁');
    assert_eq!(get_sparkline_char(5, 10), '▄');
    assert_eq!(sparkline(&vec![0, 2, 4]), "·▄█");
    let (full, empty) = render_bar_parts(3, 6, 4);
    assert_eq!(full, "██");
    assert_eq!(empty, "░░");
    let (full, empty) = render_bar_parts(3, 0, 4);
    assert_eq!(full, "");
    assert_eq!(empty, "░░░░");
}

#[test]
fn inspector_rows() {
    let data: Vec<u8> = (0..100).collect();
    let rows = format_inspector_hex(&data);
    assert_eq!(rows.len(), 6);
    assert_eq!(rows[5].offset, 80);
    assert_eq!(rows[0].hex, "00 01 02 03 04 05 06 07  08 09 0a 0b 0c 0d 0e 0f ");
    assert_eq!(rows[2].ascii, " !\"#$%&'()*+,-./");
    assert_eq!(rows[0].ascii, "················");
    let short = format_inspector_hex(&[0x41, 0x42]);
    assert_eq!(short.len(), 1);
    assert_eq!(short[0].ascii, "AB");
    assert_eq!(short[0].hex.len(), 49);
}

#[test]
fn stream_text_masks_unprintable_bytes() {
    assert_eq!(printable_stream(b"GET / HTTP/1.1\r\nHost: a\r\n"), "GET / HTTP/1.1\r\nHost: a\r\n");
    assert_eq!(printable_stream(&[0x00, 0x09, 0x41, 0x7f, 0x80, 0xff, 0x20, 0x7e]), "..A... ~");
    assert_eq!(printable_stream(&[]), "");
}

#[test]
fn dashboard_lines_share_width() {
    let coloured = "\x1b[1;36mTCP\x1b[0m  \x1b[90m10.0.0.1:443\x1b[0m";
    let long = "x".repeat(300);
    let lines = vec![
        top_border(),
        bot_border(),
        mid_full(),
        mid_split_top(),
        mid_split_mid(),
        mid_split_bot(),
        row_full(""),
        row_full(coloured),
        row_full(&long),
        row_split(coloured, ""),
        row_split(&long, coloured),
    ];
    for line in &lines {
        assert_eq!(visible_width(line), 122, "{:?}", line);
    }
}

fn unescape(s: &str) -> String {
    let mut out = String::new();
    let mut chars = s.chars();
    while let Some(c) = chars.next() {
        if c == '\\' {
            if let Some(n) = chars.next() {
                out.push(n);
                continue;
            }
        }
        out.push(c);
    }
    out
}

#[test]
fn json_escaping_loses_nothing() {
    for text in ["plain", "say \"hi\"", "C:\\temp\\", "\\\"", "", "é \" ü"] {
        let escaped = escape_json(text);
        assert_eq!(unescape(&escaped), text);
    }
    assert_eq!(escape_json("a\"b\\c"), "a\\\"b\\\\c");
}

#[test]
fn sparkline_scale() {
    assert_eq!(scale_of(&vec![]), 1);
    assert_eq!(scale_of(&vec![0, 0, 0]), 1);
    assert_eq!(scale_of(&vec![3, 9, 4]), 9);
}
