//! The bridge to spreadsheets: rows of cells become suppliers, and the
//! template of such a sheet is its header row.
use vstd::prelude::*;
use vstd::string::*;
use crate::error::LedgerError;
use crate::models::{Supplier, SupplierCreate};
use crate::store::{consistent, Db, Tables};
use crate::suppliers::{add_supplier, after_add_supplier, supplier_of};
use crate::text::copy_text;

verus! {

/// One cell of a sheet, as far as the ledger reads it.
#[derive(Debug, Clone, PartialEq, Eq)]
pub enum Cell {
    /// A cell without a value, or with a value of another kind.
    Empty,
    /// A text.
    Text(String),
    /// A truth value.
    Bool(bool),
    /// A number in the caller's units.
    Number(i64),
}

/// The rows of a sheet as sequences of cells.
pub open spec fn sheet_of(rows: Seq<Vec<Cell>>) -> Seq<Seq<Cell>> {
    rows.map_values(|r: Vec<Cell>| r@)
}

/// The rows below the header row.
pub open spec fn data_rows(sheet: Seq<Seq<Cell>>) -> Seq<Seq<Cell>> {
    if sheet.len() == 0 {
        sheet
    } else {
        sheet.subrange(1, sheet.len() as int)
    }
}

/// The text in a column of a row, where the row has that column and the
/// cell holds a text.
pub open spec fn text_in(row: Seq<Cell>, col: int) -> Option<String> {
    if 0 <= col < row.len() {
        match row[col] {
            Cell::Text(s) => Some(s),
            _ => None,
        }
    } else {
        None
    }
}

/// The truth value in a column of a row, where there is one.
pub open spec fn bool_in(row: Seq<Cell>, col: int) -> Option<bool> {
    if 0 <= col < row.len() {
        match row[col] {
            Cell::Bool(b) => Some(b),
            _ => None,
        }
    } else {
        None
    }
}

/// The number in a column of a row, where there is one.
pub open spec fn number_in(row: Seq<Cell>, col: int) -> Option<i64> {
    if 0 <= col < row.len() {
        match row[col] {
            Cell::Number(n) => Some(n),
            _ => None,
        }
    } else {
        None
    }
}

/// Whether the first cell of a row holds a text that is not empty. Only
/// such rows are imported.
pub open spec fn named(row: Seq<Cell>) -> bool {
    text_in(row, 0) matches Some(s) && s@.len() > 0
}

/// The rows that are imported, as a test on one row.
pub open spec fn is_named() -> spec_fn(Seq<Cell>) -> bool {
    |row: Seq<Cell>| named(row)
}

/// The supplier that a named row stands for. The columns are read by
/// their place, not by the header: name, GST number, state code, TDS
/// flag, TDS rate, contact, email. A flag that is missing is `false`.
pub open spec fn record_of(row: Seq<Cell>) -> SupplierCreate {
    SupplierCreate {
        name: text_in(row, 0).unwrap(),
        gst_no: text_in(row, 1),
        state_code: text_in(row, 2),
        tds_flag: match bool_in(row, 3) {
            Some(b) => b,
            None => false,
        },
        tds_rate: number_in(row, 4),
        contact: text_in(row, 5),
        email: text_in(row, 6),
    }
}

/// The suppliers that a sheet stands for: one for each named row below
/// the header row, in the order of the rows.
pub open spec fn records_of(sheet: Seq<Seq<Cell>>) -> Seq<SupplierCreate> {
    data_rows(sheet).filter(is_named()).map_values(|row: Seq<Cell>| record_of(row))
}

/// The suppliers that the first `n` records become, with consecutive
/// identities from `first_id` on.
pub open spec fn imported(records: Seq<SupplierCreate>, first_id: int, n: int) -> Seq<Supplier> {
    Seq::new(n as nat, |i: int| supplier_of(records[i], first_id + i))
}

/// How many of `count` records a table that gives out `next` as its next
/// identity can still take.
pub open spec fn taken(count: int, next: int) -> int {
    if count <= i64::MAX - next {
        count
    } else {
        i64::MAX - next
    }
}

fn cell_text(row: &Vec<Cell>, col: usize) -> (r: Option<String>)
    ensures
        r == text_in(row@, col as int),
{
    if col < row.len() {
        match &row[col] {
            Cell::Text(s) => Some(s.clone()),
            _ => None,
        }
    } else {
        None
    }
}

fn cell_bool(row: &Vec<Cell>, col: usize) -> (r: Option<bool>)
    ensures
        r == bool_in(row@, col as int),
{
    if col < row.len() {
        match &row[col] {
            Cell::Bool(b) => Some(*b),
            _ => None,
        }
    } else {
        None
    }
}

fn cell_number(row: &Vec<Cell>, col: usize) -> (r: Option<i64>)
    ensures
        r == number_in(row@, col as int),
{
    if col < row.len() {
        match &row[col] {
            Cell::Number(n) => Some(*n),
            _ => None,
        }
    } else {
        None
    }
}

/// Reads one row: the supplier that it stands for, or nothing where the
/// row is not named.
pub fn read_row(row: &Vec<Cell>) -> (r: Option<SupplierCreate>)
    ensures
        match r {
            Some(rec) => named(row@) && rec == record_of(row@),
            None => !named(row@),
        },
{
    let name = match cell_text(row, 0) {
        Some(s) => s,
        None => {
            return None;
        },
    };
    if name.as_str().is_empty() {
        return None;
    }
    Some(
        SupplierCreate {
            name,
            gst_no: cell_text(row, 1),
            state_code: cell_text(row, 2),
            tds_flag: match cell_bool(row, 3) {
                Some(b) => b,
                None => false,
            },
            tds_rate: cell_number(row, 4),
            contact: cell_text(row, 5),
            email: cell_text(row, 6),
        },
    )
}

/// The store after the first `n` of the records were imported.
pub open spec fn after_import(t: Tables, records: Seq<SupplierCreate>, n: int) -> Tables {
    Tables {
        suppliers: t.suppliers + imported(records, t.next_supplier, n),
        next_supplier: t.next_supplier + n,
        ..t
    }
}

/// Imports the suppliers of a sheet: the first row is the header and is
/// not read; a row whose first cell holds no text, or an empty one, is
/// passed over and not counted; every other row is created as a supplier
/// is created by hand. Returns the number of suppliers created. Where
/// the table has no identity left for a row, the import stops there and
/// fails; the suppliers created before stay.
pub fn import_suppliers_from_excel(db: &mut Db, rows: &Vec<Vec<Cell>>) -> (r: Result<
    usize,
    LedgerError,
>)
    requires
        old(db).wf(),
    ensures
        final(db).wf(),
        ({
            let records = records_of(sheet_of(rows@));
            let n = taken(records.len() as int, old(db)@.next_supplier);
            &&& final(db)@ == after_import(old(db)@, records, n)
            &&& n == records.len() ==> r == Ok::<usize, LedgerError>(records.len() as usize)
            &&& n < records.len() ==> r == Err::<usize, LedgerError>(LedgerError::StoreFull)
        }),
{
    let ghost sheet = sheet_of(rows@);
    let ghost data = data_rows(sheet);
    let ghost all = records_of(sheet);
    let ghost start = db@;
    let mut count: usize = 0;
    let mut i: usize = 1;
    proof {
        reveal(Seq::filter);
        assert(data.subrange(0, 0) =~= Seq::<Seq<Cell>>::empty());
        assert(after_import(start, all, 0).suppliers =~= start.suppliers);
    }
    if rows.len() == 0 {
        assert(all.len() == 0);
        return Ok(0);
    }
    while i < rows.len()
        invariant
            1 <= i <= rows.len(),
            db.wf(),
            sheet == sheet_of(rows@),
            data == data_rows(sheet),
            all == records_of(sheet),
            start == old(db)@,
            start.next_supplier >= 1,
            count <= i - 1,
            count == data.subrange(0, i - 1).filter(is_named()).len(),
            forall|k: int|
                0 <= k < count ==> all.len() > k && #[trigger] all[k] == record_of(
                    data.subrange(0, i - 1).filter(is_named())[k],
                ),
            db@ == after_import(start, all, count as int),
            start.next_supplier + count <= i64::MAX,
        decreases rows.len() - i,
    {
        let ghost head = data.subrange(0, i - 1);
        let ghost row = rows@[i as int]@;
        proof {
            assert(data[i - 1] == row);
            assert(data.subrange(0, i as int) =~= head.push(row));
            head.lemma_filter_push(row, is_named());
            let rest = data.subrange(i as int, data.len() as int);
            assert(data =~= head.push(row) + rest);
            Seq::filter_distributes_over_add(head.push(row), rest, is_named());
        }
        match read_row(&rows[i]) {
            None => {},
            Some(rec) => {
                proof {
                    let kept = head.push(row).filter(is_named());
                    assert(kept[count as int] == row);
                    assert(kept.len() == count + 1);
                    assert(data.filter(is_named()).len() > count);
                    assert(data.filter(is_named())[count as int] == row);
                    assert(all.len() > count);
                    assert(all[count as int] == rec);
                }
                let ghost before = db@;
                match add_supplier(db, rec) {
                    Ok(_) => {
                        proof {
                            assert(db@.suppliers =~= after_import(start, all, count + 1).suppliers);
                        }
                        count = count + 1;
                    },
                    Err(_) => {
                        assert(taken(all.len() as int, start.next_supplier) == count);
                        return Err(LedgerError::StoreFull);
                    },
                }
            },
        }
        i = i + 1;
    }
    proof {
        assert(data.subrange(0, rows.len() - 1) =~= data);
        assert(all.len() == count);
    }
    Ok(count)
}

/// The header row of the sheet that suppliers are imported from.
pub open spec fn template_headers() -> Seq<Seq<char>> {
    seq![
        "Name"@,
        "GST No"@,
        "State Code"@,
        "TDS Flag"@,
        "TDS Rate"@,
        "Contact"@,
        "Email"@,
    ]
}

} // verus!
