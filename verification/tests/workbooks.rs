use std::io::Cursor;

use calamine::{Reader, Xlsx};
use pingtest::workbook::{extract_from_range, first_sheet, sheet_to_read, workbook_rows};
use rust_xlsxwriter::Workbook;

fn strings(list: &[&str]) -> Vec<String> {
    list.iter().map(|s| s.to_string()).collect()
}

/// Reads an `.xlsx` file as the front end does: the library picks the sheet
/// and splits the rows, calamine opens and reads.
fn read_xlsx_bytes(data: Vec<u8>) -> Result<(Vec<String>, Vec<Vec<String>>), String> {
    let mut book: Xlsx<_> = match calamine::open_workbook_from_rs(Cursor::new(data)) {
        Ok(book) => book,
        Err(e) => return Err(e.to_string()),
    };
    let sheet = sheet_to_read(Ok(book.sheet_names()))?;
    let cells = book
        .worksheet_range(&sheet)
        .map(|range| range.rows().map(|row| row.iter().map(|c| c.to_string()).collect()).collect())
        .map_err(|e| e.to_string());
    workbook_rows(cells)
}

fn sample_xlsx() -> Vec<u8> {
    let mut book = Workbook::new();
    let first = book.add_worksheet();
    first.set_name("Targets").unwrap();
    first.write_string(0, 0, "IP").unwrap();
    first.write_string(0, 1, "Host").unwrap();
    first.write_string(1, 0, "10.0.0.1").unwrap();
    first.write_string(1, 1, "gateway").unwrap();
    first.write_string(2, 0, "10.0.0.2").unwrap();
    first.write_string(2, 1, "printer").unwrap();
    let second = book.add_worksheet();
    second.set_name("Other").unwrap();
    second.write_string(0, 0, "ignored").unwrap();
    book.save_to_buffer().unwrap()
}

#[test]
fn first_sheet_of_none_is_an_error() {
    assert_eq!(first_sheet(&Vec::new()), Err("No sheets found".to_string()));
}

#[test]
fn first_sheet_is_the_first_name() {
    assert_eq!(first_sheet(&strings(&["One", "Two"])), Ok("One".to_string()));
}

#[test]
fn sheet_listing_errors_are_passed_on() {
    assert_eq!(sheet_to_read(Err("broken zip".to_string())), Err("broken zip".to_string()));
    assert_eq!(sheet_to_read(Ok(Vec::new())), Err("No sheets found".to_string()));
    assert_eq!(sheet_to_read(Ok(strings(&["A", "B"]))), Ok("A".to_string()));
}

#[test]
fn sheet_reading_errors_are_passed_on() {
    assert_eq!(workbook_rows(Err("bad sheet".to_string())), Err("bad sheet".to_string()));
}

#[test]
fn empty_range_gives_empty_header_and_rows() {
    let (headers, rows) = extract_from_range(Vec::new());
    assert!(headers.is_empty());
    assert!(rows.is_empty());
}

#[test]
fn range_splits_into_header_and_rows() {
    let cells = vec![strings(&["IP", "Name"]), strings(&["1.1.1.1", "a"]), strings(&["2.2.2.2", "b"])];
    let (headers, rows) = extract_from_range(cells.clone());
    assert_eq!(headers, cells[0]);
    assert_eq!(rows, cells[1..].to_vec());
    let mut joined = vec![headers];
    joined.extend(rows);
    assert_eq!(joined, cells);
}

#[test]
fn single_row_range_has_no_data_rows() {
    let (headers, rows) = extract_from_range(vec![strings(&["IP"])]);
    assert_eq!(headers, strings(&["IP"]));
    assert!(rows.is_empty());
}

#[test]
fn xlsx_first_sheet_is_read() {
    let (headers, rows) = read_xlsx_bytes(sample_xlsx()).unwrap();
    assert_eq!(headers, strings(&["IP", "Host"]));
    assert_eq!(rows, vec![strings(&["10.0.0.1", "gateway"]), strings(&["10.0.0.2", "printer"])]);
}

#[test]
fn xlsx_numbers_are_read_as_text() {
    let mut book = Workbook::new();
    let sheet = book.add_worksheet();
    sheet.write_string(0, 0, "count").unwrap();
    sheet.write_number(1, 0, 42).unwrap();
    let (headers, rows) = read_xlsx_bytes(book.save_to_buffer().unwrap()).unwrap();
    assert_eq!(headers, strings(&["count"]));
    assert_eq!(rows, vec![strings(&["42"])]);
}

#[test]
fn xlsx_empty_sheet_gives_nothing() {
    let mut book = Workbook::new();
    book.add_worksheet();
    let (headers, rows) = read_xlsx_bytes(book.save_to_buffer().unwrap()).unwrap();
    assert!(headers.is_empty());
    assert!(rows.is_empty());
}

#[test]
fn garbage_is_not_an_xlsx_file() {
    assert!(read_xlsx_bytes(b"not a workbook".to_vec()).is_err());
}
