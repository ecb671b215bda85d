//! Spreadsheet target lists (`.xlsx` and `.xls`): the first sheet's first
//! row is the header, the other rows are the targets. The workbook itself is
//! opened and read by the caller; this module decides which sheet to read
//! and what the result is.
//!
//! The workbook parser (calamine 0.38) panics on some malformed files, and
//! which files those are cannot be stated short of restating its parser: its
//! `.xls` reader takes the first two bytes of a `FilePass` record
//! (`xls.rs`, `read_u16` in `utils.rs`) and bytes 4 and 5 of a `BoundSheet8`
//! record (`parse_sheet_metadata`) without checking the record's length, and
//! its `.xlsx` reader computes a sheet's dimension with unchecked `u32`
//! arithmetic (`get_row_column`, `get_dimension`), which panics in builds
//! with overflow checks. A library call could not promise to return on every
//! input, so the parser is called by the caller.

use vstd::prelude::*;

verus! {

/// A list of strings, or an error message, by their views.
pub type NamesView = Result<Seq<Seq<char>>, Seq<char>>;

/// A table of cells, or an error message, by their views.
pub type TableView = Result<Seq<Seq<Seq<char>>>, Seq<char>>;

/// What reading a target list gives: a header row and the data rows, or an
/// error message.
pub type ReadResult = Result<(Vec<String>, Vec<Vec<String>>), String>;

/// The view of a [`ReadResult`].
pub type ReadView = Result<(Seq<Seq<char>>, Seq<Seq<Seq<char>>>), Seq<char>>;

pub open spec fn names_view(r: Result<Vec<String>, String>) -> NamesView {
    match r {
        Ok(v) => Ok(v.deep_view()),
        Err(e) => Err(e@),
    }
}

pub open spec fn table_view(r: Result<Vec<Vec<String>>, String>) -> TableView {
    match r {
        Ok(v) => Ok(v.deep_view()),
        Err(e) => Err(e@),
    }
}

pub open spec fn read_view(r: ReadResult) -> ReadView {
    match r {
        Ok((h, rows)) => Ok((h.deep_view(), rows.deep_view())),
        Err(e) => Err(e@),
    }
}

/// A table split into its first row, the header, and the rows after it; an
/// empty table has an empty header and no rows.
pub open spec fn split_header(table: Seq<Seq<Seq<char>>>) -> (Seq<Seq<char>>, Seq<Seq<Seq<char>>>) {
    if table.len() == 0 {
        (Seq::empty(), Seq::empty())
    } else {
        (table[0], table.skip(1))
    }
}

/// Splitting off the header loses nothing: the header row followed by the
/// data rows is the whole sheet, and a sheet without rows gives neither.
pub proof fn lemma_split_header_roundtrip(table: Seq<Seq<Seq<char>>>)
    ensures
        table.len() > 0 ==> seq![split_header(table).0] + split_header(table).1 == table,
        table.len() == 0 ==> split_header(table).0.len() == 0 && split_header(table).1.len() == 0,
{
    if table.len() > 0 {
        assert(seq![split_header(table).0] + split_header(table).1 =~= table);
    }
}

/// The message given for a workbook without sheets.
pub open spec fn no_sheets_message() -> Seq<char> {
    "No sheets found"@
}

/// The sheet to read: the first of `names`, or an error when there is none.
pub fn first_sheet(names: &Vec<String>) -> (r: Result<String, String>)
    ensures
        names@.len() > 0 ==> r == Ok::<String, String>(names@[0]),
        names@.len() == 0 ==> (r matches Err(e) && e@ == no_sheets_message()),
{
    if names.len() == 0 {
        Err(String::from_str("No sheets found"))
    } else {
        Ok(names[0].clone())
    }
}

/// Splits a sheet's rows into the header, its first row, and the data rows
/// after it; a sheet without rows gives an empty header and no rows.
pub fn extract_from_range(cells: Vec<Vec<String>>) -> (r: (Vec<String>, Vec<Vec<String>>))
    ensures
        (r.0.deep_view(), r.1.deep_view()) == split_header(cells.deep_view()),
{
    let ghost table = cells.deep_view();
    let mut rows = cells;
    if rows.len() == 0 {
        assert(rows.deep_view() =~= Seq::<Seq<Seq<char>>>::empty());
        (Vec::new(), rows)
    } else {
        let headers = rows.remove(0);
        assert(rows.deep_view() =~= table.skip(1));
        (headers, rows)
    }
}

/// The sheet to read, given the outcome of listing a workbook's sheets: the
/// first one, or the error met.
pub open spec fn spec_sheet_to_read(names: NamesView) -> Result<Seq<char>, Seq<char>> {
    match names {
        Err(e) => Err(e),
        Ok(ns) => if ns.len() == 0 {
            Err(no_sheets_message())
        } else {
            Ok(ns[0])
        },
    }
}

/// What reading a workbook gives, once its chosen sheet was read: the header
/// and data rows of that sheet, or the error met.
pub open spec fn spec_workbook_rows(cells: TableView) -> ReadView {
    match cells {
        Err(e) => Err(e),
        Ok(t) => Ok(split_header(t)),
    }
}

/// The sheet to read, given the outcome of listing a workbook's sheets: an
/// error in listing them is passed on, and a workbook without sheets is an
/// error.
pub fn sheet_to_read(names: Result<Vec<String>, String>) -> (r: Result<String, String>)
    ensures
        match r {
            Ok(s) => spec_sheet_to_read(names_view(names)) == Ok::<Seq<char>, Seq<char>>(s@),
            Err(e) => spec_sheet_to_read(names_view(names)) == Err::<Seq<char>, Seq<char>>(e@),
        },
{
    match names {
        Ok(names) => first_sheet(&names),
        Err(e) => Err(e),
    }
}

/// The target list of a workbook, given the outcome of reading its chosen
/// sheet: an error in reading it is passed on, else the header and data rows.
pub fn workbook_rows(cells: Result<Vec<Vec<String>>, String>) -> (r: ReadResult)
    ensures
        read_view(r) == spec_workbook_rows(table_view(cells)),
{
    match cells {
        Ok(cells) => Ok(extract_from_range(cells)),
        Err(e) => Err(e),
    }
}

} // verus!
