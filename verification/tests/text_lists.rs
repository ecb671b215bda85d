use pingtest::text::{is_whitespace, read_text};

fn rows_of(list: &[&str]) -> Vec<Vec<String>> {
    list.iter().map(|s| vec![s.to_string()]).collect()
}

fn std_rows(content: &str) -> Vec<Vec<String>> {
    content
        .lines()
        .map(|l| l.trim())
        .filter(|l| !l.is_empty())
        .map(|l| vec![l.to_string()])
        .collect()
}

#[test]
fn text_list_keeps_non_blank_trimmed_lines() {
    let (headers, rows) = read_text("192.168.1.1\n  10.0.0.1  \r\n\n\t\nexample.com");
    assert_eq!(headers, vec!["IP".to_string()]);
    assert_eq!(rows, rows_of(&["192.168.1.1", "10.0.0.1", "example.com"]));
}

#[test]
fn empty_text_list_has_header_only() {
    let (headers, rows) = read_text("");
    assert_eq!(headers, vec!["IP".to_string()]);
    assert!(rows.is_empty());
}

#[test]
fn blank_text_list_has_header_only() {
    let (headers, rows) = read_text(" \n\r\n\t \n\u{3000}");
    assert_eq!(headers, vec!["IP".to_string()]);
    assert!(rows.is_empty());
}

#[test]
fn unicode_white_space_is_trimmed() {
    let (_, rows) = read_text("\u{3000}host-a\u{a0}\n\u{2028}8.8.8.8\u{85}");
    assert_eq!(rows, rows_of(&["host-a", "8.8.8.8"]));
}

#[test]
fn inner_white_space_is_kept() {
    let (_, rows) = read_text("  a b  \n");
    assert_eq!(rows, rows_of(&["a b"]));
}

#[test]
fn carriage_returns_end_lines() {
    let (_, rows) = read_text("1.1.1.1\r\n2.2.2.2\r\n");
    assert_eq!(rows, rows_of(&["1.1.1.1", "2.2.2.2"]));
}

#[test]
fn whitespace_agrees_with_std() {
    for v in 0u32..=0x10FFFF {
        if let Some(c) = char::from_u32(v) {
            assert_eq!(is_whitespace(c), c.is_whitespace(), "char {:#x}", v);
        }
    }
}

#[test]
fn text_list_agrees_with_std_lines_and_trim() {
    let samples = [
        "",
        "\n",
        "a",
        "a\n",
        "\na\n\nb",
        " x \r\n y\r\n\r\n",
        "\u{feff}first\nsecond",
        "tab\tinside\n\u{2003}\u{2003}",
        "a\rb\nc",
        "end with cr\r",
    ];
    for s in samples {
        assert_eq!(read_text(s).1, std_rows(s), "sample {:?}", s);
    }
}

#[test]
fn joined_lists_read_line_by_line() {
    let a = " 10.0.0.1 \n\n10.0.0.2";
    let b = "\t\nhost\n";
    let joined = format!("{}\n{}", a, b);
    let mut expected = read_text(a).1;
    expected.extend(read_text(b).1);
    assert_eq!(read_text(&joined).1, expected);
}

#[test]
fn cleaned_list_reads_back_the_same() {
    let (headers, rows) = read_text(" 10.0.0.1 \n\n\thost-b\r\n  \n8.8.8.8");
    let cleaned: Vec<&str> = rows.iter().map(|r| r[0].as_str()).collect();
    let again = read_text(&cleaned.join("\n"));
    assert_eq!(again, (headers, rows));
}
