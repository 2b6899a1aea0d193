//! The template of the sheet that suppliers are imported from: a
//! worksheet that holds the header row and nothing else.
use vstd::prelude::*;
use vstd::string::*;
use rust_xlsxwriter::{Worksheet, XlsxError};
use crate::sheet::template_headers;

verus! {

/// A worksheet of `rust_xlsxwriter`. What it holds is known to the
/// ledger only through `sheet_texts`.
#[verifier::external_type_specification]
#[verifier::external_body]
pub struct ExWorksheet(rust_xlsxwriter::Worksheet);

/// The texts that the cells of a worksheet hold, by row and column, as
/// `Worksheet::write_string` has stored them.
pub uninterp spec fn sheet_texts(sheet: Worksheet) -> Map<(int, int), Seq<char>>;

/// Whether a worksheet keeps all its cells in memory until it is saved,
/// as one made by `Worksheet::new` does.
pub uninterp spec fn keeps_cells(sheet: Worksheet) -> bool;

/// The texts of a worksheet that holds none.
pub open spec fn no_texts() -> Map<(int, int), Seq<char>> {
    Map::empty()
}

/// The first row that a worksheet does not have.
pub const ROW_LIMIT: u32 = 1_048_576;

/// The first column that a worksheet does not have.
pub const COLUMN_LIMIT: u16 = 16_384;

/// The greatest number of characters of a text in a cell.
pub const TEXT_LIMIT: usize = 32_767;

/// Why a text was not written to a cell.
#[derive(Clone, Copy, Debug, PartialEq, Eq, Structural)]
pub enum WriteFailure {
    /// The worksheet has no such row or column.
    OutOfRange,
    /// The text has more characters than a cell takes.
    TooLong,
    /// Another failure of the worksheet.
    Other,
}

/// What writing a text to a cell comes to. An empty text is written
/// nowhere, which is no failure; else the cell must lie in the worksheet
/// and the text must not be too long.
pub open spec fn write_outcome(row: u32, col: u16, text: Seq<char>) -> Result<(), WriteFailure> {
    if text.len() == 0 {
        Ok(())
    } else if row >= ROW_LIMIT || col >= COLUMN_LIMIT {
        Err(WriteFailure::OutOfRange)
    } else if text.len() > TEXT_LIMIT {
        Err(WriteFailure::TooLong)
    } else {
        Ok(())
    }
}

/// Calls `Worksheet::new`. It is taken on trust that a new worksheet
/// holds no text and keeps its cells in memory.
#[verifier::external_body]
pub(crate) fn new_sheet() -> (made: Worksheet)
    ensures
        sheet_texts(made) == no_texts(),
        keeps_cells(made),
{
    Worksheet::new()
}

/// Calls `Worksheet::write_string` on a worksheet that keeps its cells in
/// memory. It is taken on trust that the call ends as `write_outcome`
/// says; that a text which is not empty and is written takes the place of
/// whatever the cell held, and no other cell's; and that the texts stay
/// as they were where nothing is written.
#[verifier::external_body]
pub(crate) fn put_text(sheet: &mut Worksheet, row: u32, col: u16, text: &str) -> (r: Result<
    (),
    WriteFailure,
>)
    requires
        keeps_cells(*old(sheet)),
    ensures
        r == write_outcome(row, col, text@),
        keeps_cells(*final(sheet)),
        r is Ok && text@.len() > 0 ==> sheet_texts(*final(sheet)) == sheet_texts(*old(sheet)).insert(
            (row as int, col as int),
            text@,
        ),
        r is Err || text@.len() == 0 ==> sheet_texts(*final(sheet)) == sheet_texts(*old(sheet)),
{
    match sheet.write_string(row, col, text) {
        Ok(_) => Ok(()),
        Err(XlsxError::RowColumnLimitError) => Err(WriteFailure::OutOfRange),
        Err(XlsxError::MaxStringLengthExceeded) => Err(WriteFailure::TooLong),
        Err(_) => Err(WriteFailure::Other),
    }
}

/// The texts of a worksheet that holds `names` side by side in its first
/// row, from the first column on, and nothing else.
pub open spec fn header_row(names: Seq<Seq<char>>) -> Map<(int, int), Seq<char>> {
    Map::new(|at: (int, int)| at.0 == 0 && 0 <= at.1 < names.len(), |at: (int, int)| names[at.1])
}

/// Writes texts side by side into the first row of a worksheet. Every
/// text must be writable to its cell.
pub(crate) fn write_header(sheet: &mut Worksheet, names: &Vec<String>)
    requires
        sheet_texts(*old(sheet)) == no_texts(),
        keeps_cells(*old(sheet)),
        names.len() <= COLUMN_LIMIT,
        forall|c: int| 0 <= c < names.len() ==> 0 < (#[trigger] names[c])@.len() <= TEXT_LIMIT,
    ensures
        sheet_texts(*final(sheet)) == header_row(names@.map_values(|n: String| n@)),
{
    let ghost texts = names@.map_values(|n: String| n@);
    let mut c: usize = 0;
    assert(sheet_texts(*sheet) =~= header_row(texts.subrange(0, 0)));
    while c < names.len()
        invariant
            c <= names.len() <= COLUMN_LIMIT,
            texts == names@.map_values(|n: String| n@),
            keeps_cells(*sheet),
            forall|k: int| 0 <= k < names.len() ==> 0 < (#[trigger] names[k])@.len() <= TEXT_LIMIT,
            sheet_texts(*sheet) == header_row(texts.subrange(0, c as int)),
        decreases names.len() - c,
    {
        let ghost before = sheet_texts(*sheet);
        assert(texts[c as int] == names[c as int]@);
        let done = put_text(sheet, 0, c as u16, names[c].as_str());
        assert(done is Ok);
        c = c + 1;
        assert(sheet_texts(*sheet) =~= header_row(texts.subrange(0, c as int)));
    }
    assert(texts.subrange(0, names.len() as int) =~= texts);
}

/// The names of the columns of a supplier sheet, in their order.
pub fn header_names() -> (names: Vec<String>)
    ensures
        names@.map_values(|n: String| n@) == template_headers(),
        names.len() == 7,
        forall|c: int| 0 <= c < names.len() ==> 0 < (#[trigger] names[c])@.len() <= 10,
{
    let mut names: Vec<String> = Vec::new();
    names.push(String::from_str("Name"));
    names.push(String::from_str("GST No"));
    names.push(String::from_str("State Code"));
    names.push(String::from_str("TDS Flag"));
    names.push(String::from_str("TDS Rate"));
    names.push(String::from_str("Contact"));
    names.push(String::from_str("Email"));
    proof {
        reveal_strlit("Name");
        reveal_strlit("GST No");
        reveal_strlit("State Code");
        reveal_strlit("TDS Flag");
        reveal_strlit("TDS Rate");
        reveal_strlit("Contact");
        reveal_strlit("Email");
        assert(names@.map_values(|n: String| n@) =~= template_headers());
    }
    names
}

/// The template of a supplier sheet: a worksheet that holds the seven
/// column names in its first row and no row of data.
pub fn generate_supplier_template() -> (sheet: Worksheet)
    ensures
        sheet_texts(sheet) == header_row(template_headers()),
{
    let names = header_names();
    let mut sheet = new_sheet();
    write_header(&mut sheet, &names);
    sheet
}

} // verus!
