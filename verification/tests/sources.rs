use pingtest::commands::excel_data;
use pingtest::source::{
    format_for_extension, format_for_lowercase, read_excel, read_excel_step, source_format, ReadEvent,
    ReadRequest, SourceFormat,
};

fn unsupported(ext: &str) -> Result<SourceFormat, String> {
    Err(format!("Unsupported file format: {}", ext))
}

/// Reads a text list from the given bytes as the front end does.
fn read_text_file(path: &str, bytes: &[u8]) -> Result<(Vec<String>, Vec<Vec<String>>), String> {
    match read_excel(path) {
        ReadRequest::Done(r) => r,
        ReadRequest::ReadFile => match read_excel_step(ReadEvent::FileRead(Ok(bytes.to_vec()))) {
            ReadRequest::Done(r) => r,
            _ => panic!("a text list is read in one step"),
        },
        _ => panic!("not a text list"),
    }
}

#[test]
fn lowercase_extensions_choose_a_reader() {
    assert_eq!(format_for_lowercase("xlsx"), Ok(SourceFormat::Xlsx));
    assert_eq!(format_for_lowercase("xls"), Ok(SourceFormat::Xls));
    assert_eq!(format_for_lowercase("txt"), Ok(SourceFormat::Text));
    assert_eq!(format_for_lowercase("csv"), Ok(SourceFormat::Text));
}

#[test]
fn other_extensions_are_unsupported() {
    assert_eq!(format_for_lowercase("pdf"), unsupported("pdf"));
    assert_eq!(format_for_lowercase("XLSX"), unsupported("XLSX"));
    assert_eq!(format_for_lowercase(""), unsupported(""));
    assert_eq!(format_for_lowercase("xlsxx"), unsupported("xlsxx"));
}

#[test]
fn extensions_are_lowercased_first() {
    assert_eq!(format_for_extension(Some("XLSX")), Ok(SourceFormat::Xlsx));
    assert_eq!(format_for_extension(Some("Csv")), Ok(SourceFormat::Text));
    assert_eq!(format_for_extension(Some("PDF")), unsupported("pdf"));
    assert_eq!(format_for_extension(Some("ÄÖ")), unsupported("äö"));
    assert_eq!(format_for_extension(None), unsupported(""));
}

#[test]
fn format_follows_the_file_name() {
    assert_eq!(source_format("lists/Targets.XLSX"), Ok(SourceFormat::Xlsx));
    assert_eq!(source_format("old.xls"), Ok(SourceFormat::Xls));
    assert_eq!(source_format("ips.backup.txt"), Ok(SourceFormat::Text));
    assert_eq!(source_format("hosts.CSV"), Ok(SourceFormat::Text));
    assert_eq!(source_format("noext"), unsupported(""));
    assert_eq!(source_format(".xlsx"), unsupported(""));
    assert_eq!(source_format("report.PDF"), unsupported("pdf"));
    assert_eq!(source_format("dir.xlsx/list"), unsupported(""));
}

#[test]
fn file_name_is_the_last_component() {
    assert_eq!(source_format("lists/a.txt/"), Ok(SourceFormat::Text));
    assert_eq!(source_format("lists/a.txt/."), Ok(SourceFormat::Text));
    assert_eq!(source_format("lists/a.txt//"), Ok(SourceFormat::Text));
    assert_eq!(source_format("a.txt/.."), unsupported(""));
    assert_eq!(source_format("/"), unsupported(""));
    assert_eq!(source_format(""), unsupported(""));
    assert_eq!(source_format("a."), unsupported(""));
    assert_eq!(source_format("..csv"), Ok(SourceFormat::Text));
}

#[test]
fn extension_case_does_not_matter() {
    assert_eq!(source_format("a.CSV"), source_format("a.csv"));
    assert_eq!(source_format("b.XlSx"), source_format("b.xlsx"));
    assert_eq!(source_format("c.Pdf"), source_format("c.pDF"));
}

#[test]
fn reading_starts_by_format() {
    assert!(matches!(read_excel("t.txt"), ReadRequest::ReadFile));
    assert!(matches!(read_excel("t.CSV"), ReadRequest::ReadFile));
    assert!(matches!(read_excel("b.xlsx"), ReadRequest::ListSheets(SourceFormat::Xlsx)));
    assert!(matches!(read_excel("b.XLS"), ReadRequest::ListSheets(SourceFormat::Xls)));
    match read_excel("report.PDF") {
        ReadRequest::Done(r) => assert_eq!(r, Err("Unsupported file format: pdf".to_string())),
        _ => panic!("an unsupported file is not read"),
    }
}

#[test]
fn workbook_steps() {
    match read_excel_step(ReadEvent::SheetsListed(Ok(vec!["S1".to_string(), "S2".to_string()]))) {
        ReadRequest::ReadSheet(s) => assert_eq!(s, "S1"),
        _ => panic!("the first sheet is read"),
    }
    match read_excel_step(ReadEvent::SheetsListed(Ok(Vec::new()))) {
        ReadRequest::Done(r) => assert_eq!(r, Err("No sheets found".to_string())),
        _ => panic!("no sheet, no reading"),
    }
    match read_excel_step(ReadEvent::SheetRead(Ok(vec![vec!["H".to_string()], vec!["v".to_string()]]))) {
        ReadRequest::Done(r) => assert_eq!(r, Ok((vec!["H".to_string()], vec![vec!["v".to_string()]]))),
        _ => panic!("reading ends with the sheet"),
    }
}

#[test]
fn text_file_is_read_line_by_line() {
    let r = read_text_file("targets.csv", b"1.1.1.1\n\n 8.8.8.8 \n").unwrap();
    assert_eq!(r.0, vec!["IP".to_string()]);
    assert_eq!(r.1, vec![vec!["1.1.1.1".to_string()], vec!["8.8.8.8".to_string()]]);
}

#[test]
fn text_file_must_be_utf8() {
    assert_eq!(read_text_file("targets.txt", &[0x31, 0xff, 0x0a]), Err("stream did not contain valid UTF-8".to_string()));
}

#[test]
fn file_errors_are_passed_on() {
    match read_excel_step(ReadEvent::FileRead(Err("No such file".to_string()))) {
        ReadRequest::Done(r) => assert_eq!(r, Err("No such file".to_string())),
        _ => panic!("a failed read ends reading"),
    }
}

#[test]
fn reading_twice_gives_the_same() {
    let a = read_text_file("x.txt", b"a\n b\n");
    let b = read_text_file("x.txt", b"a\n b\n");
    assert_eq!(a, b);
}

#[test]
fn excel_data_keeps_the_result() {
    let data = excel_data(Ok((vec!["IP".to_string()], vec![vec!["a".to_string()]]))).unwrap();
    assert_eq!(data.headers, vec!["IP".to_string()]);
    assert_eq!(data.rows, vec![vec!["a".to_string()]]);
    assert_eq!(excel_data(Err("e".to_string())).err(), Some("e".to_string()));
}

#[test]
fn drive_paths_keep_their_extension() {
    // On every platform the file name ends in the extension here.
    assert_eq!(source_format("C:\\data\\ips.txt"), Ok(SourceFormat::Text));
    assert_eq!(source_format("D:\\lists\\Targets.XLSX"), Ok(SourceFormat::Xlsx));
    assert_eq!(source_format("C:\\data\\report.pdf"), unsupported("pdf"));
}
