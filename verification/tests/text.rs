use auth_client::text::{
    failure_text, from_chars, join_last, keep_suffix, safe_text, split_lines, to_chars,
    trim_end_chars, OUTPUT_BYTES, REASON_CHARS,
};

fn safe(text: &str) -> String {
    safe_text(text.to_string())
}

fn failed(message: &str, output: &str, rows: u16) -> String {
    failure_text(message.to_string(), output, rows)
}

fn split(text: &str) -> Vec<String> {
    split_lines(&to_chars(text)).iter().map(from_chars).collect()
}

#[test]
fn control_characters_are_taken_out_but_line_feeds_stay() {
    assert_eq!(safe("a\u{1b}[31mb\tc\r\nd\u{7}"), "a[31mbc\nd");
    assert_eq!(safe("\u{0}\u{1f}\u{7f}\u{80}\u{9f}"), "");
    // Their neighbours are no control characters.
    assert_eq!(safe(" ~\u{a0}é—"), " ~\u{a0}é—");
    assert_eq!(safe("\n\n"), "\n\n");
    assert_eq!(safe(""), "");
}

#[test]
fn every_control_character_is_told_from_the_others() {
    for code in 0..0x300u32 {
        let c = char::from_u32(code).unwrap();
        let kept = !(code <= 0x1f || (0x7f..=0x9f).contains(&code)) || c == '\n';
        assert_eq!(safe(&c.to_string()) == c.to_string(), kept, "{code:x}");
    }
}

#[test]
fn filtering_twice_changes_nothing_more() {
    let once = safe("x\u{8}y\nz\u{85}");
    assert_eq!(once, "xy\nz");
    assert_eq!(safe(&once), once);
}

#[test]
fn trailing_whitespace_is_trimmed() {
    for text in ["", "  ", "a \n\t", " a", "a\u{3000}\u{2029}", "\u{200b}", "a\u{85}b\u{1680} "] {
        let mut chars = to_chars(text);
        trim_end_chars(&mut chars);
        assert_eq!(from_chars(&chars), text.trim_end(), "{text:?}");
    }
}

#[test]
fn every_whitespace_character_is_trimmed() {
    for code in 0..0x3100u32 {
        let c = char::from_u32(code).unwrap();
        let mut chars = vec![c];
        trim_end_chars(&mut chars);
        let white = matches!(
            code,
            0x9..=0xd
                | 0x20
                | 0x85
                | 0xa0
                | 0x1680
                | 0x2000..=0x200a
                | 0x2028
                | 0x2029
                | 0x202f
                | 0x205f
                | 0x3000
        );
        assert_eq!(chars.is_empty(), white, "{code:x}");
    }
}

#[test]
fn lines_end_in_line_feeds() {
    assert_eq!(split(""), Vec::<String>::new());
    assert_eq!(split("\n"), [""]);
    assert_eq!(split("a\r\nb\n\nc\r"), ["a", "b", "", "c\r"]);
    assert_eq!(split("a\rb\n"), ["a\rb"]);
    for text in ["one\ntwo", "one\ntwo\n", "\r\n\r\n", "\r\r\n"] {
        assert_eq!(split(text), text.lines().collect::<Vec<_>>(), "{text:?}");
    }
}

#[test]
fn the_last_lines_are_joined() {
    let lines = split_lines(&to_chars("a\nb\nc"));
    assert_eq!(from_chars(&join_last(&lines, 2)), "b\nc");
    assert_eq!(from_chars(&join_last(&lines, 3)), "a\nb\nc");
    assert_eq!(from_chars(&join_last(&lines, 9)), "a\nb\nc");
    assert_eq!(from_chars(&join_last(&lines, 0)), "");
}

#[test]
fn a_suffix_is_cut_between_characters() {
    // 2 + 1 + 3 + 4 bytes.
    let text = "éa€😀";
    for (limit, kept) in [
        (10, "éa€😀"),
        (9, "a€😀"),
        (8, "a€😀"),
        (7, "€😀"),
        (6, "😀"),
        (4, "😀"),
        (3, ""),
        (0, ""),
    ] {
        let mut chars = to_chars(text);
        keep_suffix(&mut chars, limit);
        assert_eq!(from_chars(&chars), kept, "{limit}");
    }
}

#[test]
fn a_failure_shows_the_reason_above_the_last_output() {
    assert_eq!(failed("no\u{7} route", "a\nb\nc\n\n", 4), "no route\n\nb\nc");
    assert_eq!(failed("no route", "a\nb", 24), "no route\n\na\nb");
    assert_eq!(failed("no route", "", 24), "no route\n\n");
    // Without a row to spare there is no output.
    for rows in [0, 1, 2] {
        assert_eq!(failed("x", "a\nb", rows), "x\n\n");
    }
    assert_eq!(failed("x", "a\nb", 3), "x\n\nb");
}

#[test]
fn a_long_reason_is_cut() {
    let long = "é".repeat(REASON_CHARS + 1);
    let text = failed(&long, "tail", 24);
    assert_eq!(text, format!("{}\n\ntail", "é".repeat(4096)));
    let fits = "x".repeat(REASON_CHARS);
    assert_eq!(failed(&fits, "", 24), format!("{fits}\n\n"));
    // What is filtered out does not count.
    let noisy = format!("{}{}", "\u{7}".repeat(10), fits);
    assert_eq!(failed(&noisy, "", 24), format!("{fits}\n\n"));
}

#[test]
fn long_output_is_cut_between_characters() {
    let output = format!("é{}", "x".repeat(OUTPUT_BYTES - 1));
    assert_eq!(
        failed("r", &output, 24),
        format!("r\n\n{}", "x".repeat(65535))
    );
    // The blanks at the end are trimmed before the cut.
    let output = format!("y{}   ", "x".repeat(OUTPUT_BYTES - 1));
    assert_eq!(
        failed("r", &output, 24),
        format!("r\n\ny{}", "x".repeat(65535))
    );
}

#[test]
fn a_failure_fits_in_its_rows_and_bytes() {
    for rows in [2, 3, 10] {
        let text = failed("one line", &"a\r\n\n".repeat(50), rows);
        assert!(text.lines().count() <= usize::from(rows), "{rows}");
    }
    let text = failed(&"😀".repeat(5000), &"😀".repeat(20_000), 24);
    assert_eq!(text.len(), 4 * REASON_CHARS + 2 + OUTPUT_BYTES);
}

#[test]
fn a_failure_is_bounded_and_safe() {
    let text = failed(&"\u{1b}m".repeat(9000), &"line\n".repeat(30_000), 10);
    assert!(text.chars().count() <= REASON_CHARS + 2 + OUTPUT_BYTES);
    assert_eq!(text, format!("{}\n\n{}", "m".repeat(4096), ["line"; 8].join("\n")));
    assert!(text.chars().all(|c| !c.is_control() || c == '\n'));
}
