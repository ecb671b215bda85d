//! Reading a target list: the file name decides how, and the caller does the
//! file and workbook access that each step asks for.

use vstd::prelude::*;
use vstd::utf8::*;

use crate::text::{read_text, text_table};
use crate::workbook::{
    names_view, read_view, sheet_to_read, spec_sheet_to_read, spec_workbook_rows, table_view,
    workbook_rows, ReadResult, ReadView,
};

verus! {

/// The kinds of target list that can be read.
#[derive(Clone, Copy, Debug, PartialEq, Eq, Structural)]
pub enum SourceFormat {
    /// An Excel 2007+ workbook (`.xlsx`).
    Xlsx,
    /// A legacy Excel workbook (`.xls`).
    Xls,
    /// A plain-text list, one target per line (`.txt`, `.csv`).
    Text,
}

/// The lowercase form of `s` that `str::to_lowercase` gives.
pub uninterp spec fn lowercase(s: Seq<char>) -> Seq<char>;

/// Whether every character of `s` is ASCII.
pub open spec fn all_ascii(s: Seq<char>) -> bool {
    forall|i: int| 0 <= i < s.len() ==> (s[i] as u32) < 0x80
}

/// `c` with `A`-`Z` mapped to `a`-`z`.
pub open spec fn ascii_lower_char(c: char) -> char {
    if 'A' <= c <= 'Z' {
        ((c as u32) + 32) as char
    } else {
        c
    }
}

/// `s` with `A`-`Z` mapped to `a`-`z`.
pub open spec fn ascii_lower(s: Seq<char>) -> Seq<char> {
    s.map_values(|c: char| ascii_lower_char(c))
}

/// The format that a lowercase extension stands for, if any.
pub open spec fn format_of(ext: Seq<char>) -> Option<SourceFormat> {
    if ext == "xlsx"@ {
        Some(SourceFormat::Xlsx)
    } else if ext == "xls"@ {
        Some(SourceFormat::Xls)
    } else if ext == "txt"@ || ext == "csv"@ {
        Some(SourceFormat::Text)
    } else {
        None
    }
}

/// The message for an extension that no reader handles.
pub open spec fn unsupported_message(ext: Seq<char>) -> Seq<char> {
    "Unsupported file format: "@ + ext
}

/// The view of a format decision.
pub open spec fn format_view(r: Result<SourceFormat, String>) -> Result<SourceFormat, Seq<char>> {
    match r {
        Ok(f) => Ok(f),
        Err(e) => Err(e@),
    }
}

/// The decision for a lowercase extension.
pub open spec fn spec_format_for_lowercase(ext: Seq<char>) -> Result<SourceFormat, Seq<char>> {
    match format_of(ext) {
        Some(f) => Ok(f),
        None => Err(unsupported_message(ext)),
    }
}

/// The lowercase form of an extension: ASCII letter by letter for ASCII
/// text, else as `str::to_lowercase` gives it.
pub open spec fn lowercase_extension(e: Seq<char>) -> Seq<char> {
    if all_ascii(e) {
        ascii_lower(e)
    } else {
        lowercase(e)
    }
}

/// The decision for a file whose extension is `ext` (`None` when it has none).
pub open spec fn spec_format_for_extension(ext: Option<Seq<char>>) -> Result<SourceFormat, Seq<char>> {
    let e = match ext {
        Some(e) => e,
        None => Seq::<char>::empty(),
    };
    spec_format_for_lowercase(lowercase_extension(e))
}

/// Whether `c` separates path components: `'/'` everywhere, and `'\\'` too
/// on Windows.
pub open spec fn is_separator(c: char, windows: bool) -> bool {
    c == '/' || (windows && c == '\\')
}

/// The position of the last separator in `s`, or -1 when there is none.
pub open spec fn last_separator(s: Seq<char>, windows: bool) -> int
    decreases s.len(),
{
    if s.len() == 0 {
        -1
    } else if is_separator(s.last(), windows) {
        s.len() - 1
    } else {
        last_separator(s.drop_last(), windows)
    }
}

/// The position of the last `c` in `s`, or -1 when there is none.
pub open spec fn last_index_of(s: Seq<char>, c: char) -> int
    decreases s.len(),
{
    if s.len() == 0 {
        -1
    } else if s.last() == c {
        s.len() - 1
    } else {
        last_index_of(s.drop_last(), c)
    }
}

/// The last component of `path`: empty components and `.` components are
/// skipped.
pub open spec fn final_component(path: Seq<char>, windows: bool) -> Option<Seq<char>>
    decreases path.len(),
{
    let k = last_separator(path, windows);
    let piece = path.subrange(k + 1, path.len() as int);
    if piece.len() > 0 && piece != "."@ {
        Some(piece)
    } else if 0 <= k < path.len() {
        final_component(path.subrange(0, k), windows)
    } else {
        None
    }
}

/// The extension in a file name: the text after its last `'.'`, when that
/// `'.'` is not the name's first character; none otherwise, and none for
/// `..`.
pub open spec fn name_extension(name: Seq<char>) -> Option<Seq<char>> {
    let k = last_index_of(name, '.');
    if name == ".."@ || k <= 0 {
        None
    } else {
        Some(name.subrange(k + 1, name.len() as int))
    }
}

/// The extension of the file whose path, past any prefix, is `path`: the
/// extension in the name of its last component, none when it has no
/// component.
pub open spec fn extension_after_prefix(path: Seq<char>, windows: bool) -> Option<Seq<char>> {
    match final_component(path, windows) {
        Some(name) => name_extension(name),
        None => None,
    }
}

/// The extension of `path` as Unix and the other non-Windows platforms read
/// it: `'/'` is the only separator and there are no prefixes.
pub open spec fn spec_path_extension(path: Seq<char>) -> Option<Seq<char>> {
    extension_after_prefix(path, false)
}

/// `path` without a leading drive such as `C:`.
pub open spec fn drive_stripped(path: Seq<char>) -> Seq<char> {
    if path.len() >= 2 && path[1] == ':' && (('a' <= path[0] <= 'z') || ('A' <= path[0] <= 'Z')) {
        path.skip(2)
    } else {
        path
    }
}

/// The extension of `path` as Windows reads it, for a path without a share,
/// device or verbatim prefix: a leading drive is no part of any component,
/// and both `'/'` and `'\\'` separate components.
pub open spec fn spec_windows_path_extension(path: Seq<char>) -> Option<Seq<char>> {
    extension_after_prefix(drive_stripped(path), true)
}

/// A path that starts with no share, device or verbatim prefix: it does not
/// begin with two separators.
pub open spec fn prefix_free(path: Seq<char>) -> bool {
    !(path.len() >= 2 && is_separator(path[0], true) && is_separator(path[1], true))
}

/// The position of the first `c` in `s`, or -1 when there is none.
pub open spec fn first_index_of(s: Seq<char>, c: char) -> int
    decreases s.len(),
{
    if s.len() == 0 {
        -1
    } else if s[0] == c {
        0
    } else {
        let k = first_index_of(s.drop_first(), c);
        if k < 0 {
            -1
        } else {
            k + 1
        }
    }
}

/// For a network-share path `\\server\share...` that holds no `'/'`, whose
/// server and share names are not empty and whose server name starts with
/// neither `'?'` nor `'.'`: where its share prefix ends (at the separator
/// after the share name, or at the end of the path). -1 for other paths.
pub open spec fn share_prefix_end(path: Seq<char>) -> int {
    if path.len() >= 2 && path[0] == '\\' && path[1] == '\\' && !path.contains('/') {
        let t = path.skip(2);
        let i = first_index_of(t, '\\');
        if i > 0 && t[0] != '?' && t[0] != '.' {
            let u = t.skip(i + 1);
            let j = first_index_of(u, '\\');
            if j > 0 {
                2 + i + 1 + j
            } else if j < 0 && u.len() > 0 {
                path.len() as int
            } else {
                -1
            }
        } else {
            -1
        }
    } else {
        -1
    }
}

/// The extension of a network-share path as Windows reads it: the
/// components after the share prefix, separated by `'\\'`.
pub open spec fn spec_share_path_extension(path: Seq<char>) -> Option<Seq<char>> {
    extension_after_prefix(path.skip(share_prefix_end(path)), true)
}

/// For a device or verbatim path `\\.\name...` or `\\?\name...` (a
/// drive such as `\\?\C:` included) that holds no `'/'` and is not of the
/// verbatim network form `\\?\UNC\...`: where its prefix ends, at the first
/// `'\\'` after those four characters or at the end of the path. -1 for
/// other paths.
pub open spec fn device_prefix_end(path: Seq<char>) -> int {
    if path.len() >= 4 && path[0] == '\\' && path[1] == '\\' && (path[2] == '?' || path[2] == '.')
        && path[3] == '\\' && !path.contains('/') && !(path.len() >= 5 && (path[4] == 'U'
        || path[4] == 'u')) {
        let k = first_index_of(path.skip(4), '\\');
        if k >= 0 {
            4 + k
        } else {
            path.len() as int
        }
    } else {
        -1
    }
}

/// The number of times `c` occurs in `s`.
pub open spec fn count_of(s: Seq<char>, c: char) -> nat
    decreases s.len(),
{
    if s.len() == 0 {
        0
    } else {
        count_of(s.drop_last(), c) + if s.last() == c {
            1nat
        } else {
            0nat
        }
    }
}

/// A path that starts with two separators and whose last separator lies
/// past any prefix that it can have: every such prefix (`\\server\share`,
/// `\\.\device`, also written with `'/'`) holds at most three separators,
/// and a verbatim one (`\\?\...`, `\\?\UNC\server\share`), in which `'/'`
/// separates nothing, at most five `'\\'`. So the last separator is the
/// fourth or later, or, for a path that starts `\\?`, its last `'\\'` is the
/// sixth or later.
pub open spec fn past_any_prefix(path: Seq<char>) -> bool {
    &&& !prefix_free(path)
    &&& if path.len() > 2 && path[2] == '?' {
        let k = last_index_of(path, '\\');
        k >= 0 && count_of(path.take(k), '\\') >= 5
    } else {
        let k = last_separator(path, true);
        k >= 0 && count_of(path.take(k), '/') + count_of(path.take(k), '\\') >= 3
    }
}

/// A path that every platform splits the same way: `'/'` is its only
/// separator, and it names no drive, share or verbatim prefix.
pub open spec fn plain_path(path: Seq<char>) -> bool {
    &&& !path.contains('\\')
    &&& !path.contains(':')
    &&& !(path.len() >= 2 && path[0] == '/' && path[1] == '/')
}

/// What holds of the extension that `Path::extension` finds in `path`, on
/// every platform: it is the Unix reading of `path`, or, for a path without
/// a share, device or verbatim prefix, the Windows reading, or, for a
/// network-share path of the form `share_prefix_end` describes, the Windows
/// reading past the share; for a device or verbatim path whose prefix
/// (`device_prefix_end`) ends before a last component with an extension, the
/// extension of that component, and likewise for any path whose last
/// component lies past every prefix it can have (`past_any_prefix`); and it
/// is the text after a `'.'` in `path` and
/// holds no `'.'`, so there is none when `path` holds no `'.'`.
pub open spec fn extension_fits(path: Seq<char>, ext: Option<Seq<char>>) -> bool {
    &&& ext == spec_path_extension(path) || (prefix_free(path) ==> ext
        == spec_windows_path_extension(path))
    &&& share_prefix_end(path) >= 0 ==> (ext == spec_path_extension(path) || ext
        == spec_share_path_extension(path))
    &&& 0 <= device_prefix_end(path) <= last_separator(path, true) && name_extension(
        trailing_name(path),
    ) is Some ==> ext == name_extension(trailing_name(path))
    &&& past_any_prefix(path) && name_extension(trailing_name(path)) is Some ==> ext
        == name_extension(trailing_name(path))
    &&& match ext {
        None => true,
        Some(e) => {
            &&& !e.contains('.')
            &&& exists|k: int|
                0 <= k && k + 1 + e.len() <= path.len() && #[trigger] path[k] == '.'
                    && path.subrange(k + 1, k + 1 + e.len()) == e
        },
    }
}

proof fn lemma_last_separator_same(s: Seq<char>)
    requires
        !s.contains('\\'),
    ensures
        last_separator(s, true) == last_separator(s, false),
    decreases s.len(),
{
    if s.len() > 0 {
        assert(s.last() == s[s.len() - 1]);
        assert(!s.drop_last().contains('\\')) by {
            assert forall|j: int| 0 <= j < s.drop_last().len() implies s.drop_last()[j] != '\\' by {
                assert(s.drop_last()[j] == s[j]);
            }
        }
        lemma_last_separator_same(s.drop_last());
    }
}

proof fn lemma_final_component_same(s: Seq<char>)
    requires
        !s.contains('\\'),
    ensures
        final_component(s, true) == final_component(s, false),
    decreases s.len(),
{
    lemma_last_separator_same(s);
    let k = last_separator(s, false);
    if 0 <= k < s.len() {
        assert(!s.subrange(0, k).contains('\\')) by {
            assert forall|j: int| 0 <= j < k implies s.subrange(0, k)[j] != '\\' by {
                assert(s.subrange(0, k)[j] == s[j]);
            }
        }
        lemma_final_component_same(s.subrange(0, k));
    }
}

/// On a plain path, Unix and Windows find the same extension.
pub proof fn lemma_plain_path_readings_agree(path: Seq<char>)
    requires
        plain_path(path),
    ensures
        prefix_free(path),
        spec_windows_path_extension(path) == spec_path_extension(path),
{
    if path.len() >= 2 {
        assert(path[1] != ':');
        assert(path[0] != '\\');
        assert(path[1] != '\\');
    }
    lemma_final_component_same(path);
}

/// The view of an optional text.
pub open spec fn text_option_view(o: Option<String>) -> Option<Seq<char>> {
    match o {
        Some(e) => Some(e@),
        None => None,
    }
}

/// The message that reading a text list gives when the file is not UTF-8.
pub open spec fn invalid_utf8_message() -> Seq<char> {
    "stream did not contain valid UTF-8"@
}

/// What reading a text list gives from the outcome of reading the file.
pub open spec fn spec_text_read(bytes: Result<Seq<u8>, Seq<char>>) -> ReadView {
    match bytes {
        Err(e) => Err(e),
        Ok(data) => if valid_utf8(data) {
            Ok((seq!["IP"@], text_table(decode_utf8(data))))
        } else {
            Err(invalid_utf8_message())
        },
    }
}

/// What the caller is asked to do next while a target list is read.
pub enum ReadRequest {
    /// Read the file's bytes and answer with [`ReadEvent::FileRead`].
    ReadFile,
    /// Open the file as a workbook of this format, list its sheets and
    /// answer with [`ReadEvent::SheetsListed`].
    ListSheets(SourceFormat),
    /// Read the named sheet of the open workbook, each cell as text, and
    /// answer with [`ReadEvent::SheetRead`].
    ReadSheet(String),
    /// Reading is over, with this result.
    Done(ReadResult),
}

/// What the caller reports back after doing what a [`ReadRequest`] asked.
pub enum ReadEvent {
    /// The file's bytes, or the message of the error that reading it gave.
    FileRead(Result<Vec<u8>, String>),
    /// The workbook's sheet names in workbook order, or the message of the
    /// error that opening it gave.
    SheetsListed(Result<Vec<String>, String>),
    /// The sheet's rows of cells, or the message of the error that reading
    /// it gave.
    SheetRead(Result<Vec<Vec<String>>, String>),
}

/// A [`ReadRequest`] by its views.
pub enum RequestView {
    ReadFile,
    ListSheets(SourceFormat),
    ReadSheet(Seq<char>),
    Done(ReadView),
}

pub open spec fn request_view(r: ReadRequest) -> RequestView {
    match r {
        ReadRequest::ReadFile => RequestView::ReadFile,
        ReadRequest::ListSheets(f) => RequestView::ListSheets(f),
        ReadRequest::ReadSheet(s) => RequestView::ReadSheet(s@),
        ReadRequest::Done(d) => RequestView::Done(read_view(d)),
    }
}

/// The first step of reading, from the format decided for the file name:
/// an undecided format ends reading with its error, a text list is read
/// from the file's bytes, and a workbook's sheets are listed.
pub open spec fn spec_start(format: Result<SourceFormat, Seq<char>>) -> RequestView {
    match format {
        Err(e) => RequestView::Done(Err(e)),
        Ok(SourceFormat::Text) => RequestView::ReadFile,
        Ok(f) => RequestView::ListSheets(f),
    }
}

/// The first step of reading the file `path`, when `Path::extension` finds
/// the extension `ext` in it.
pub open spec fn spec_read_start(ext: Option<Seq<char>>) -> RequestView {
    spec_start(spec_format_for_extension(ext))
}

pub open spec fn bytes_view(r: Result<Vec<u8>, String>) -> Result<Seq<u8>, Seq<char>> {
    match r {
        Ok(b) => Ok(b@),
        Err(e) => Err(e@),
    }
}

/// The step that follows an event.
pub open spec fn spec_read_step(event: ReadEvent) -> RequestView {
    match event {
        ReadEvent::FileRead(bytes) => RequestView::Done(spec_text_read(bytes_view(bytes))),
        ReadEvent::SheetsListed(names) => match spec_sheet_to_read(names_view(names)) {
            Err(e) => RequestView::Done(Err(e)),
            Ok(s) => RequestView::ReadSheet(s),
        },
        ReadEvent::SheetRead(cells) => RequestView::Done(spec_workbook_rows(table_view(cells))),
    }
}

/// The extension of `path` by `std::path::Path::extension`, as text. Which
/// characters separate components, and which prefixes a path may have, depend
/// on the platform: on Unix and the other non-Windows platforms `'/'` alone
/// separates and there are no prefixes (`spec_path_extension`); on Windows
/// `'\\'` separates too and a drive is no component
/// (`spec_windows_path_extension`); on a network-share path `\\server\share`
/// the components after the share are read (`spec_share_path_extension`).
/// After a device or verbatim prefix `\\.\name` or `\\?\name`, and on any
/// path whose last component lies past every prefix it can have
/// (`past_any_prefix`), the contract states the extension only where the last
/// component has one. Elsewhere after a verbatim network prefix
/// `\\?\UNC\...`, or a share or device prefix written with `'/'`, Windows
/// follows rules that the contract does not state; there it states only that
/// the extension follows a `'.'` of `path` and holds no `'.'`.
#[verifier::external_body]
fn path_extension(path: &str) -> (r: Option<String>)
    ensures
        extension_fits(path@, text_option_view(r)),
{
    std::path::Path::new(path).extension().and_then(|e| e.to_str()).map(|e| e.to_string())
}

/// `str::to_lowercase`. Its result is named; of it the contract states only
/// that ASCII text is lowercased letter by letter, `A`-`Z` to `a`-`z`.
#[verifier::external_body]
fn to_lowercase(s: &str) -> (r: String)
    ensures
        r@ == lowercase(s@),
        all_ascii(s@) ==> r@ == ascii_lower(s@),
{
    s.to_lowercase()
}

/// `std::str::from_utf8`: the text whose UTF-8 encoding is `data`, if `data`
/// is valid UTF-8.
#[verifier::external_body]
fn utf8_text(data: &[u8]) -> (r: Option<&str>)
    ensures
        r is Some <==> valid_utf8(data@),
        r matches Some(s) ==> encode_utf8(s@) == data@,
{
    std::str::from_utf8(data).ok()
}

/// The format for a lowercase extension: `xlsx`, `xls`, or `txt` and `csv`
/// for text; any other extension is an error naming it.
pub fn format_for_lowercase(ext: &str) -> (r: Result<SourceFormat, String>)
    ensures
        format_view(r) == spec_format_for_lowercase(ext@),
{
    let e = String::from_str(ext);
    let xlsx = String::from_str("xlsx");
    let xls = String::from_str("xls");
    let txt = String::from_str("txt");
    let csv = String::from_str("csv");
    if e == xlsx {
        Ok(SourceFormat::Xlsx)
    } else if e == xls {
        Ok(SourceFormat::Xls)
    } else if e == txt || e == csv {
        Ok(SourceFormat::Text)
    } else {
        let mut msg = String::from_str("Unsupported file format: ");
        msg.append(ext);
        Err(msg)
    }
}

/// The format for a file with extension `ext`: the extension, or the empty
/// text when there is none, is lowercased and then decided on.
pub fn format_for_extension(ext: Option<&str>) -> (r: Result<SourceFormat, String>)
    ensures
        format_view(r) == spec_format_for_extension(
            match ext {
                Some(e) => Some(e@),
                None => None,
            },
        ),
{
    let e = match ext {
        Some(e) => e,
        None => {
            proof {
                reveal_strlit("");
            }
            assert(""@ =~= Seq::<char>::empty());
            ""
        },
    };
    let lower = to_lowercase(e);
    format_for_lowercase(lower.as_str())
}

/// The format for the file `path`, decided on its extension.
pub fn source_format(path: &str) -> (r: Result<SourceFormat, String>)
    ensures
        plain_path(path@) ==> format_view(r) == spec_format_for_extension(spec_path_extension(path@)),
        prefix_free(path@) ==> format_view(r) == spec_format_for_extension(
            spec_path_extension(path@),
        ) || format_view(r) == spec_format_for_extension(spec_windows_path_extension(path@)),
        exists|ext: Option<Seq<char>>|
            extension_fits(path@, ext) && format_view(r) == spec_format_for_extension(ext),
        name_decides(path@) && name_extension(trailing_name(path@)) is Some ==> format_view(r)
            == spec_format_for_extension(name_extension(trailing_name(path@))),
{
    let ext = path_extension(path);
    let ghost ext_view = text_option_view(ext);
    let r = match &ext {
        Some(e) => format_for_extension(Some(e.as_str())),
        None => format_for_extension(None),
    };
    proof {
        if plain_path(path@) {
            lemma_plain_path_readings_agree(path@);
        }
        if name_decides(path@) && name_extension(trailing_name(path@)) is Some {
            lemma_trailing_name_decides(path@, ext_view);
        }
    }
    assert(extension_fits(path@, ext_view) && format_view(r) == spec_format_for_extension(ext_view));
    r
}

/// Begins reading the target list in the file `path`. The format follows
/// from the file name: an unsupported one ends reading with its error, a
/// text list asks for the file's bytes, and a workbook asks for its sheets.
pub fn read_excel(path: &str) -> (r: ReadRequest)
    ensures
        plain_path(path@) ==> request_view(r) == spec_read_start(spec_path_extension(path@)),
        prefix_free(path@) ==> request_view(r) == spec_read_start(spec_path_extension(path@))
            || request_view(r) == spec_read_start(spec_windows_path_extension(path@)),
        exists|ext: Option<Seq<char>>|
            extension_fits(path@, ext) && request_view(r) == spec_read_start(ext),
        name_decides(path@) && name_extension(trailing_name(path@)) is Some ==> request_view(r)
            == spec_read_start(name_extension(trailing_name(path@))),
{
    let format = source_format(path);
    let ghost ext = choose|ext: Option<Seq<char>>|
        extension_fits(path@, ext) && format_view(format) == spec_format_for_extension(ext);
    let r = match format {
        Err(e) => ReadRequest::Done(Err(e)),
        Ok(SourceFormat::Text) => ReadRequest::ReadFile,
        Ok(f) => ReadRequest::ListSheets(f),
    };
    assert(extension_fits(path@, ext) && request_view(r) == spec_read_start(ext));
    r
}

/// Goes on reading a target list once the caller has done what the last
/// request asked: the file's bytes are read as a text list, a workbook's
/// first sheet is chosen, and that sheet's rows are split into the header
/// and the data rows; the first error met ends reading.
pub fn read_excel_step(event: ReadEvent) -> (r: ReadRequest)
    ensures
        request_view(r) == spec_read_step(event),
        event matches ReadEvent::FileRead(Err(e)) ==> (r matches ReadRequest::Done(Err(m)) && m@
            == e@),
        event matches ReadEvent::FileRead(Ok(b)) ==> (valid_utf8(b@) ==> (r matches ReadRequest::Done(
            Ok((h, rows)),
        ) && h.deep_view() == seq!["IP"@] && rows.deep_view() == text_table(decode_utf8(b@)))),
        event matches ReadEvent::FileRead(Ok(b)) ==> (!valid_utf8(b@) ==> (r matches ReadRequest::Done(
            Err(m),
        ) && m@ == invalid_utf8_message())),
        event matches ReadEvent::SheetsListed(Err(e)) ==> (r matches ReadRequest::Done(Err(m)) && m@
            == e@),
        event matches ReadEvent::SheetsListed(Ok(ns)) ==> (ns@.len() == 0 ==> (r matches ReadRequest::Done(
            Err(m),
        ) && m@ == "No sheets found"@)),
        event matches ReadEvent::SheetsListed(Ok(ns)) ==> (ns@.len() > 0 ==> (r matches ReadRequest::ReadSheet(
            name,
        ) && name@ == ns@[0]@)),
        event matches ReadEvent::SheetRead(Err(e)) ==> (r matches ReadRequest::Done(Err(m)) && m@
            == e@),
        event matches ReadEvent::SheetRead(Ok(cells)) ==> (r matches ReadRequest::Done(
            Ok((h, rows)),
        ) && (cells@.len() == 0 ==> h@.len() == 0 && rows@.len() == 0) && (cells@.len() > 0
            ==> seq![h.deep_view()] + rows.deep_view() == cells.deep_view())),
{
    match event {
        ReadEvent::FileRead(Err(e)) => ReadRequest::Done(Err(e)),
        ReadEvent::FileRead(Ok(bytes)) => match utf8_text(bytes.as_slice()) {
            Some(content) => {
                proof {
                    encode_utf8_decode_utf8(content@);
                }
                ReadRequest::Done(Ok(read_text(content)))
            },
            None => {
                proof {
                    reveal_strlit("stream did not contain valid UTF-8");
                }
                ReadRequest::Done(Err(String::from_str("stream did not contain valid UTF-8")))
            },
        },
        ReadEvent::SheetsListed(names) => match sheet_to_read(names) {
            Ok(sheet) => ReadRequest::ReadSheet(sheet),
            Err(e) => ReadRequest::Done(Err(e)),
        },
        ReadEvent::SheetRead(cells) => {
            let ghost given = cells;
            let result = workbook_rows(cells);
            let ghost produced = result;
            proof {
                if let Ok(c) = given {
                    if let Ok((h, rows)) = produced {
                        assert(c.deep_view().len() == c@.len());
                        assert(h.deep_view().len() == h@.len());
                        assert(rows.deep_view().len() == rows@.len());
                        if c@.len() > 0 {
                            assert(seq![h.deep_view()] + rows.deep_view() =~= c.deep_view());
                        }
                    }
                }
            }
            ReadRequest::Done(result)
        },
    }
}

/// The text after the last separator of `path`, either `'/'` or `'\\'`.
pub open spec fn trailing_name(path: Seq<char>) -> Seq<char> {
    path.subrange(last_separator(path, true) + 1, path.len() as int)
}

/// Paths on which every reading that `extension_fits` admits looks at the
/// text after the last separator: paths without a share, device or verbatim
/// prefix (where a drive is followed by a separator before that text),
/// network-share paths with a component after the share, device or
/// verbatim paths with a component after the prefix, and paths whose last
/// component lies past every prefix they can have.
pub open spec fn name_decides(path: Seq<char>) -> bool {
    ||| prefix_free(path) && (drive_stripped(path) == path || last_separator(path, true) >= 2)
    ||| 0 <= share_prefix_end(path) < path.len()
    ||| 0 <= device_prefix_end(path) <= last_separator(path, true)
    ||| past_any_prefix(path)
}

proof fn lemma_last_separator_facts(s: Seq<char>, w: bool)
    ensures
        -1 <= last_separator(s, w) < s.len(),
        last_separator(s, w) >= 0 ==> is_separator(s[last_separator(s, w)], w),
        forall|i: int| last_separator(s, w) < i < s.len() ==> !is_separator(#[trigger] s[i], w),
    decreases s.len(),
{
    if s.len() > 0 && !is_separator(s.last(), w) {
        lemma_last_separator_facts(s.drop_last(), w);
        assert forall|i: int| last_separator(s, w) < i < s.len() implies !is_separator(
            #[trigger] s[i],
            w,
        ) by {
            if i < s.len() - 1 {
                assert(s[i] == s.drop_last()[i]);
            }
        }
    }
}

proof fn lemma_last_separator_concat(p: Seq<char>, r: Seq<char>, w: bool)
    ensures
        last_separator(p + r, w) == (if last_separator(r, w) >= 0 {
            p.len() + last_separator(r, w)
        } else {
            last_separator(p, w)
        }),
    decreases r.len(),
{
    if r.len() == 0 {
        assert(p + r =~= p);
    } else {
        assert((p + r).drop_last() =~= p + r.drop_last());
        assert((p + r).last() == r.last());
        lemma_last_separator_concat(p, r.drop_last(), w);
    }
}

proof fn lemma_last_index_concat(p: Seq<char>, r: Seq<char>, c: char)
    ensures
        last_index_of(p + r, c) == (if last_index_of(r, c) >= 0 {
            p.len() + last_index_of(r, c)
        } else {
            last_index_of(p, c)
        }),
    decreases r.len(),
{
    if r.len() == 0 {
        assert(p + r =~= p);
    } else {
        assert((p + r).drop_last() =~= p + r.drop_last());
        assert((p + r).last() == r.last());
        lemma_last_index_concat(p, r.drop_last(), c);
    }
}

proof fn lemma_last_index_bounds(s: Seq<char>, c: char)
    ensures
        -1 <= last_index_of(s, c) < s.len(),
    decreases s.len(),
{
    if s.len() > 0 {
        lemma_last_index_bounds(s.drop_last(), c);
    }
}

proof fn lemma_first_index_facts(s: Seq<char>, c: char)
    ensures
        -1 <= first_index_of(s, c) < s.len(),
        first_index_of(s, c) >= 0 ==> s[first_index_of(s, c)] == c,
    decreases s.len(),
{
    if s.len() > 0 && s[0] != c {
        lemma_first_index_facts(s.drop_first(), c);
    }
}

/// A name with an extension, put at the end of a text, gives the whole text
/// that same extension.
proof fn lemma_name_at_end(p: Seq<char>, n: Seq<char>)
    requires
        name_extension(n) is Some,
    ensures
        name_extension(p + n) == name_extension(n),
        p + n != "."@,
        (p + n).len() >= 2,
{
    let k = last_index_of(n, '.');
    lemma_last_index_bounds(n, '.');
    lemma_last_index_concat(p, n, '.');
    let q = p + n;
    reveal_strlit(".");
    reveal_strlit("..");
    assert(q.subrange(p.len() + k + 1, q.len() as int) =~= n.subrange(k + 1, n.len() as int));
    if q == ".."@ {
        assert(q.len() == 2);
        assert(p.len() == 0);
        assert(n =~= q);
    }
}

/// The trailing name decides: when the text after a path's last separator
/// is a file name with an extension, every reading admitted for the path
/// gives that extension. So `\\fileserver\it\targets.xlsx`,
/// `\\?\C:\lists\ips.txt`, `C:\data\ips.txt` and `lists/Targets.XLSX` are
/// read by their extensions on every platform.
pub proof fn lemma_trailing_name_decides(path: Seq<char>, ext: Option<Seq<char>>)
    requires
        name_decides(path),
        name_extension(trailing_name(path)) is Some,
        extension_fits(path, ext),
    ensures
        ext == name_extension(trailing_name(path)),
{
    let n = trailing_name(path);
    let kw = last_separator(path, true);
    let ku = last_separator(path, false);
    lemma_last_separator_facts(path, true);
    lemma_last_separator_facts(path, false);
    if ku >= 0 {
        assert(is_separator(path[ku], true));
    }
    // The Unix reading: the last '/'-separated piece ends with the name.
    let piece = path.subrange(ku + 1, path.len() as int);
    let front = path.subrange(ku + 1, kw + 1);
    assert(piece =~= front + n);
    lemma_name_at_end(front, n);
    assert(spec_path_extension(path) == name_extension(n));
    lemma_name_at_end(Seq::<char>::empty(), n);
    assert(Seq::<char>::empty() + n =~= n);
    if prefix_free(path) && (drive_stripped(path) == path || kw >= 2) {
        if drive_stripped(path) == path {
            assert(path.subrange(kw + 1, path.len() as int) == n);
            assert(final_component(path, true) == Some(n));
            assert(spec_windows_path_extension(path) == name_extension(n));
        } else {
            let r = path.skip(2);
            assert(path =~= path.take(2) + r);
            lemma_last_separator_concat(path.take(2), r, true);
            lemma_last_separator_facts(path.take(2), true);
            lemma_last_separator_facts(r, true);
            let kr = last_separator(r, true);
            assert(r.subrange(kr + 1, r.len() as int) =~= n);
            assert(final_component(r, true) == Some(n));
            assert(spec_windows_path_extension(path) == name_extension(n));
        }
    }
    if 0 <= share_prefix_end(path) < path.len() {
        let m = share_prefix_end(path);
        let t = path.skip(2);
        let i = first_index_of(t, '\\');
        let u = t.skip(i + 1);
        let j = first_index_of(u, '\\');
        lemma_first_index_facts(t, '\\');
        lemma_first_index_facts(u, '\\');
        assert(m == 2 + i + 1 + j);
        assert(path[m] == u[j]);
        let r = path.skip(m);
        assert(path =~= path.take(m) + r);
        assert(r[0] == '\\');
        lemma_last_separator_concat(path.take(m), r, true);
        lemma_last_separator_facts(r, true);
        let kr = last_separator(r, true);
        assert(kr >= 0);
        assert(r.subrange(kr + 1, r.len() as int) =~= n);
        assert(final_component(r, true) == Some(n));
        assert(spec_share_path_extension(path) == name_extension(n));
    }
}

/// What each reading step does with what the caller reports: a failed file
/// read or workbook access ends reading with that error, unchanged; valid
/// UTF-8 text is read as a text list under the header `IP`, other bytes end
/// reading with the UTF-8 error; a workbook's first listed sheet is read, and
/// one without sheets is an error; a read sheet ends reading with its first
/// row as the header and every later row, each cell kept, as data.
pub proof fn lemma_read_steps(event: ReadEvent)
    ensures
        event matches ReadEvent::FileRead(Err(e)) ==> spec_read_step(event) == RequestView::Done(
            Err(e@),
        ),
        event matches ReadEvent::FileRead(Ok(b)) ==> (valid_utf8(b@) ==> spec_read_step(event)
            == RequestView::Done(Ok((seq!["IP"@], text_table(decode_utf8(b@)))))),
        event matches ReadEvent::FileRead(Ok(b)) ==> (!valid_utf8(b@) ==> spec_read_step(event)
            == RequestView::Done(Err("stream did not contain valid UTF-8"@))),
        event matches ReadEvent::SheetsListed(Err(e)) ==> spec_read_step(event) == RequestView::Done(
            Err(e@),
        ),
        event matches ReadEvent::SheetsListed(Ok(ns)) ==> (ns@.len() == 0 ==> spec_read_step(event)
            == RequestView::Done(Err("No sheets found"@))),
        event matches ReadEvent::SheetsListed(Ok(ns)) ==> (ns@.len() > 0 ==> spec_read_step(event)
            == RequestView::ReadSheet(ns@[0]@)),
        event matches ReadEvent::SheetRead(Err(e)) ==> spec_read_step(event) == RequestView::Done(
            Err(e@),
        ),
        event matches ReadEvent::SheetRead(Ok(cells)) ==> (spec_read_step(event) matches RequestView::Done(
            Ok((h, rows)),
        ) && (cells@.len() == 0 ==> h.len() == 0 && rows.len() == 0) && (cells@.len() > 0
            ==> seq![h] + rows == cells.deep_view())),
{
    if let ReadEvent::SheetsListed(Ok(ns)) = event {
        if ns@.len() > 0 {
            assert(ns.deep_view()[0] == ns@[0]@);
        }
    }
    if let ReadEvent::SheetRead(Ok(cells)) = event {
        if cells@.len() > 0 {
            assert(seq![cells.deep_view()[0]] + cells.deep_view().skip(1) =~= cells.deep_view());
        }
    }
}

/// Reading is repeatable wherever the platforms agree on the extension: on
/// a path without a share, device or verbatim prefix whose Unix and Windows
/// readings give the same extension (every plain path, and paths such as
/// `C:\data\ips.txt`), whatever `Path::extension` gives is that extension,
/// so reading always starts the same way; each later step is fixed by what
/// the caller reports.
pub proof fn lemma_read_repeatable(path: Seq<char>, e1: Option<Seq<char>>, e2: Option<Seq<char>>)
    requires
        prefix_free(path),
        spec_path_extension(path) == spec_windows_path_extension(path),
        extension_fits(path, e1),
        extension_fits(path, e2),
    ensures
        e1 == e2,
        spec_read_start(e1) == spec_read_start(e2),
        spec_read_start(e1) == spec_read_start(spec_path_extension(path)),
{
}

/// Every plain path is one on which the platforms agree, so reading it is
/// repeatable.
pub proof fn lemma_plain_path_read_repeatable(
    path: Seq<char>,
    e1: Option<Seq<char>>,
    e2: Option<Seq<char>>,
)
    requires
        plain_path(path),
        extension_fits(path, e1),
        extension_fits(path, e2),
    ensures
        e1 == e2,
        spec_read_start(e1) == spec_read_start(spec_path_extension(path)),
{
    lemma_plain_path_readings_agree(path);
    lemma_read_repeatable(path, e1, e2);
}

/// Whether two extensions are equal but for the case of ASCII letters.
pub open spec fn same_but_ascii_case(a: Option<Seq<char>>, b: Option<Seq<char>>) -> bool {
    match (a, b) {
        (None, None) => true,
        (Some(x), Some(y)) => all_ascii(x) && all_ascii(y) && ascii_lower(x) == ascii_lower(y),
        _ => false,
    }
}

/// The case of an extension's ASCII letters does not matter: extensions
/// that differ only in it start reading alike.
pub proof fn lemma_extension_case_ignored(e1: Option<Seq<char>>, e2: Option<Seq<char>>)
    requires
        same_but_ascii_case(e1, e2),
    ensures
        spec_read_start(e1) == spec_read_start(e2),
{
}

/// Two files whose paths the platforms read alike, and whose extensions
/// differ only in the case of ASCII letters, such as `a.CSV` and `a.csv`,
/// start reading alike.
pub proof fn lemma_path_case_ignored(
    p: Seq<char>,
    q: Seq<char>,
    ep: Option<Seq<char>>,
    eq: Option<Seq<char>>,
)
    requires
        prefix_free(p),
        prefix_free(q),
        spec_path_extension(p) == spec_windows_path_extension(p),
        spec_path_extension(q) == spec_windows_path_extension(q),
        extension_fits(p, ep),
        extension_fits(q, eq),
        same_but_ascii_case(spec_path_extension(p), spec_path_extension(q)),
    ensures
        spec_read_start(ep) == spec_read_start(eq),
{
    lemma_read_repeatable(p, ep, ep);
    lemma_read_repeatable(q, eq, eq);
    lemma_extension_case_ignored(spec_path_extension(p), spec_path_extension(q));
}

} // verus!
