use purchase_ledger::error::LedgerError;
use purchase_ledger::models::{
    PurchaseCreate, PurchaseEntry, PurchaseItem, PurchaseItemPayload, PurchasesBySupplier, ReportSummary,
    Supplier, SupplierCreate, User,
};
use purchase_ledger::reports::{export_purchases, get_purchases_by_supplier, get_report_summary};
use purchase_ledger::sheet::{import_suppliers_from_excel, read_row, Cell};
use purchase_ledger::startup::{
    begin, init, run, Action, JournalMode, Place, Startup, StartupFailure, Step, StoreSettings, Synchronous,
};
use purchase_ledger::restore::NextIds;
use purchase_ledger::store::Db;
use purchase_ledger::suppliers::add_supplier;
use purchase_ledger::template::{generate_supplier_template, header_names};
use purchase_ledger::writes::add_purchase;
use calamine::{DataType, Reader, Xlsx};
use rust_xlsxwriter::{Workbook, Worksheet};
use std::io::Cursor;

fn named(name: &str) -> SupplierCreate {
    SupplierCreate {
        name: name.to_string(),
        gst_no: None,
        state_code: None,
        tds_flag: false,
        tds_rate: None,
        contact: None,
        email: None,
    }
}

fn line(qty: i64, price: i64) -> PurchaseItemPayload {
    PurchaseItemPayload {
        id: None,
        part_no: None,
        description: "x".to_string(),
        qty,
        unit: None,
        price,
        amount: None,
    }
}

fn entry(supplier_id: i64, date: &str, value: i64, taxes: (i64, i64, i64), items: usize) -> PurchaseCreate {
    PurchaseCreate {
        supplier_id,
        invoice_no: "I".to_string(),
        date: date.to_string(),
        entry_date: None,
        gst_rate: 0,
        basic_value: 0,
        sgst: taxes.0,
        cgst: taxes.1,
        igst: taxes.2,
        invoice_value: value,
        tds_value: 0,
        narration: None,
        status: "open".to_string(),
        items: (0..items).map(|_| line(1, 1)).collect(),
    }
}

fn report_store() -> Db {
    let mut db = Db::new();
    for n in ["Acme", "Bolt", "Acme", "Cog"] {
        add_supplier(&mut db, named(n)).unwrap();
    }
    let rows = [
        (1, "2024-01-05", 1000, (10, 20, 0), 2),
        (2, "2024-01-20", 500, (0, 0, 90), 1),
        (3, "2024-02-01", 250, (5, 5, 0), 0),
        (1, "2024-02-10", 4000, (100, 100, 0), 3),
        (4, "2024-03-01", 1250, (1, 2, 3), 1),
    ];
    for (s, date, value, taxes, items) in rows {
        add_purchase(&mut db, entry(s, date, value, taxes, items), "t".to_string()).unwrap();
    }
    db
}

fn from(d: &str) -> Option<String> {
    Some(d.to_string())
}

#[test]
fn summary_adds_up_the_range() {
    let db = report_store();
    let s = get_report_summary(&db, from("2024-01-05"), from("2024-02-01")).unwrap();
    assert_eq!(
        s,
        ReportSummary { total_purchases: 1750, total_gst: 130, total_suppliers: 3, total_items: 3 }
    );
    let s = get_report_summary(&db, from("2024-01-01"), from("2024-12-31")).unwrap();
    assert_eq!(
        s,
        ReportSummary { total_purchases: 7000, total_gst: 336, total_suppliers: 4, total_items: 7 }
    );
}

#[test]
fn summary_counts_each_supplier_once() {
    let db = report_store();
    let s = get_report_summary(&db, from("2024-01-01"), from("2024-02-28")).unwrap();
    assert_eq!(s.total_suppliers, 3);
    assert_eq!(s.total_items, 6);
}

#[test]
fn summary_of_an_empty_range_is_zero() {
    let db = report_store();
    let zero = ReportSummary { total_purchases: 0, total_gst: 0, total_suppliers: 0, total_items: 0 };
    assert_eq!(get_report_summary(&db, from("2025-01-01"), from("2025-12-31")), Ok(zero));
    assert_eq!(get_report_summary(&db, from("2024-02-01"), from("2024-01-01")), Ok(zero));
    assert_eq!(get_report_summary(&Db::new(), None, None), Ok(zero));
    assert_eq!(get_purchases_by_supplier(&db, from("2025-01-01"), from("2025-12-31")), Ok(vec![]));
    assert_eq!(export_purchases(&db, from("2025-01-01"), from("2025-12-31")), Ok(vec![]));
}

#[test]
fn an_end_that_is_not_given_is_open() {
    let db = report_store();
    assert_eq!(get_report_summary(&db, None, None).unwrap().total_purchases, 7000);
    assert_eq!(get_report_summary(&db, from("2024-02-10"), None).unwrap().total_purchases, 5250);
    assert_eq!(get_report_summary(&db, None, from("2024-01-20")).unwrap().total_purchases, 1500);
}

#[test]
fn summary_fails_where_a_sum_is_out_of_range() {
    let mut db = Db::new();
    add_supplier(&mut db, named("Acme")).unwrap();
    add_purchase(&mut db, entry(1, "2024-01-01", i64::MAX, (0, 0, 0), 0), "t".to_string()).unwrap();
    assert_eq!(get_report_summary(&db, None, None).unwrap().total_purchases, i64::MAX);
    add_purchase(&mut db, entry(1, "2024-01-02", 1, (0, 0, 0), 0), "t".to_string()).unwrap();
    assert_eq!(get_report_summary(&db, None, None), Err(LedgerError::TotalOutOfRange));
    assert_eq!(get_purchases_by_supplier(&db, None, None), Err(LedgerError::TotalOutOfRange));
    add_purchase(&mut db, entry(1, "2024-01-03", -1, (0, 0, 0), 0), "t".to_string()).unwrap();
    assert_eq!(get_report_summary(&db, None, None).unwrap().total_purchases, i64::MAX);
    let mut taxed = Db::new();
    add_supplier(&mut taxed, named("Acme")).unwrap();
    add_purchase(&mut taxed, entry(1, "2024-01-01", 0, (i64::MAX, i64::MAX, i64::MIN), 0), "t".to_string())
        .unwrap();
    assert_eq!(get_report_summary(&taxed, None, None).unwrap().total_gst, i64::MAX - 1);
    add_purchase(&mut taxed, entry(1, "2024-01-01", 0, (1, 1, 0), 0), "t".to_string()).unwrap();
    assert_eq!(get_report_summary(&taxed, None, None), Err(LedgerError::TotalOutOfRange));
}

fn group(name: &str, total: i64) -> PurchasesBySupplier {
    PurchasesBySupplier { supplier_name: name.to_string(), total_purchases: total }
}

#[test]
fn purchases_by_supplier_groups_by_name() {
    let db = report_store();
    let rows = get_purchases_by_supplier(&db, from("2024-01-01"), from("2024-12-31")).unwrap();
    assert_eq!(rows, vec![group("Acme", 5250), group("Cog", 1250), group("Bolt", 500)]);
    let rows = get_purchases_by_supplier(&db, from("2024-01-01"), from("2024-01-31")).unwrap();
    assert_eq!(rows, vec![group("Acme", 1000), group("Bolt", 500)]);
}

#[test]
fn equal_totals_go_by_name() {
    let mut db = Db::new();
    for n in ["zeta", "Alpha", "mid"] {
        add_supplier(&mut db, named(n)).unwrap();
    }
    for s in [1, 2, 3] {
        add_purchase(&mut db, entry(s, "2024-01-01", 100, (0, 0, 0), 0), "t".to_string()).unwrap();
    }
    let rows = get_purchases_by_supplier(&db, None, None).unwrap();
    assert_eq!(rows, vec![group("Alpha", 100), group("mid", 100), group("zeta", 100)]);
}

#[test]
fn negative_totals_come_last() {
    let mut db = Db::new();
    add_supplier(&mut db, named("a")).unwrap();
    add_supplier(&mut db, named("b")).unwrap();
    add_purchase(&mut db, entry(1, "2024-01-01", i64::MIN, (0, 0, 0), 0), "t".to_string()).unwrap();
    add_purchase(&mut db, entry(2, "2024-01-01", i64::MAX, (0, 0, 0), 0), "t".to_string()).unwrap();
    let rows = get_purchases_by_supplier(&db, None, None).unwrap();
    assert_eq!(rows, vec![group("b", i64::MAX), group("a", i64::MIN)]);
}

#[test]
fn export_is_latest_date_first() {
    let db = report_store();
    let rows = export_purchases(&db, from("2024-01-20"), from("2024-03-01")).unwrap();
    assert_eq!(rows.iter().map(|e| e.id).collect::<Vec<_>>(), vec![5, 4, 3, 2]);
    assert_eq!(rows[0], db.entries()[4]);
    let mut same = Db::new();
    add_supplier(&mut same, named("Acme")).unwrap();
    for _ in 0..3 {
        add_purchase(&mut same, entry(1, "2024-01-01", 1, (0, 0, 0), 0), "t".to_string()).unwrap();
    }
    let rows = export_purchases(&same, None, None).unwrap();
    assert_eq!(rows.iter().map(|e| e.id).collect::<Vec<_>>(), vec![3, 2, 1]);
}

fn text(t: &str) -> Cell {
    Cell::Text(t.to_string())
}

fn header() -> Vec<Cell> {
    ["Name", "GST No", "State Code", "TDS Flag", "TDS Rate", "Contact", "Email"].iter().map(|t| text(t)).collect()
}

#[test]
fn import_reads_columns_by_place() {
    let mut db = Db::new();
    let rows = vec![
        header(),
        vec![text("Acme"), text("G1"), text("27"), Cell::Bool(true), Cell::Number(150), text("Asha"), text("a@x")],
    ];
    assert_eq!(import_suppliers_from_excel(&mut db, &rows), Ok(1));
    assert_eq!(
        db.suppliers(),
        &vec![Supplier {
            id: 1,
            name: "Acme".to_string(),
            gst_no: Some("G1".to_string()),
            state_code: Some("27".to_string()),
            tds_flag: 1,
            tds_rate: Some(150),
            contact: Some("Asha".to_string()),
            email: Some("a@x".to_string()),
        }]
    );
}

#[test]
fn import_passes_over_rows_without_a_name() {
    let mut db = Db::new();
    let rows = vec![
        header(),
        vec![text("Acme")],
        vec![Cell::Empty, text("G2")],
        vec![text(""), text("G3")],
        vec![],
        vec![Cell::Number(5), text("G4")],
        vec![text("Bolt")],
    ];
    assert_eq!(import_suppliers_from_excel(&mut db, &rows), Ok(2));
    assert_eq!(db.suppliers().iter().map(|s| s.name.as_str()).collect::<Vec<_>>(), vec!["Acme", "Bolt"]);
    assert_eq!(db.suppliers().iter().map(|s| s.id).collect::<Vec<_>>(), vec![1, 2]);
}

#[test]
fn import_of_two_valid_rows_creates_two_suppliers() {
    let mut db = Db::new();
    let rows = vec![header(), vec![text("Acme")], vec![text("Bolt")]];
    assert_eq!(import_suppliers_from_excel(&mut db, &rows), Ok(2));
    assert_eq!(db.suppliers().len(), 2);
}

#[test]
fn import_does_not_read_the_header_row() {
    let mut db = Db::new();
    assert_eq!(import_suppliers_from_excel(&mut db, &vec![vec![text("Acme")]]), Ok(0));
    assert_eq!(import_suppliers_from_excel(&mut db, &vec![]), Ok(0));
    assert_eq!(import_suppliers_from_excel(&mut db, &vec![header()]), Ok(0));
    assert!(db.suppliers().is_empty());
}

#[test]
fn cells_of_another_kind_count_as_missing() {
    let row = vec![text("Acme"), Cell::Number(1), Cell::Bool(true), text("yes"), text("1.5"), Cell::Empty];
    let rec = read_row(&row).unwrap();
    assert_eq!(
        rec,
        SupplierCreate {
            name: "Acme".to_string(),
            gst_no: None,
            state_code: None,
            tds_flag: false,
            tds_rate: None,
            contact: None,
            email: None,
        }
    );
    assert_eq!(read_row(&vec![Cell::Bool(true)]), None);
    let off = read_row(&vec![text("A"), Cell::Empty, Cell::Empty, Cell::Bool(false)]).unwrap();
    assert!(!off.tds_flag);
}

#[test]
fn import_stops_where_the_table_is_full() {
    let last = Supplier {
        id: i64::MAX - 2,
        name: "Last".to_string(),
        gst_no: None,
        state_code: None,
        tds_flag: 0,
        tds_rate: None,
        contact: None,
        email: None,
    };
    let next = NextIds { supplier: i64::MAX - 1, entry: 1, item: 1, user: 1 };
    let mut db = Db::restore(vec![last], vec![], vec![], vec![], next).unwrap();
    let rows = vec![header(), vec![text("a")], vec![text("b")], vec![text("c")]];
    assert_eq!(import_suppliers_from_excel(&mut db, &rows), Err(LedgerError::StoreFull));
    assert_eq!(db.suppliers().iter().map(|s| s.name.as_str()).collect::<Vec<_>>(), vec!["Last", "a"]);
}

fn rows_of(sheet: Worksheet) -> Vec<Vec<Cell>> {
    let mut book = Workbook::new();
    book.push_worksheet(sheet);
    let bytes = book.save_to_buffer().unwrap();
    let mut read: Xlsx<_> = Xlsx::new(Cursor::new(bytes)).unwrap();
    let range = read.worksheet_range("Sheet1").unwrap().unwrap();
    range
        .rows()
        .map(|row| {
            row.iter()
                .map(|cell| match cell {
                    DataType::String(s) => Cell::Text(s.clone()),
                    DataType::Bool(b) => Cell::Bool(*b),
                    DataType::Int(n) => Cell::Number(*n),
                    DataType::Float(f) => Cell::Number((f * 100.0).round() as i64),
                    _ => Cell::Empty,
                })
                .collect()
        })
        .collect()
}

#[test]
fn template_is_the_header_row() {
    assert_eq!(rows_of(generate_supplier_template()), vec![header()]);
}

#[test]
fn template_names_the_seven_columns() {
    assert_eq!(
        header_names(),
        vec!["Name", "GST No", "State Code", "TDS Flag", "TDS Rate", "Contact", "Email"]
    );
}

#[test]
fn template_imports_no_supplier() {
    let mut db = Db::new();
    assert_eq!(import_suppliers_from_excel(&mut db, &rows_of(generate_supplier_template())), Ok(0));
    assert!(db.suppliers().is_empty());
}

#[test]
fn a_filled_template_is_imported() {
    let mut sheet = generate_supplier_template();
    sheet.write_string(1, 0, "Acme").unwrap();
    sheet.write_string(1, 1, "G1").unwrap();
    sheet.write_boolean(1, 3, true).unwrap();
    sheet.write_number(1, 4, 1.5).unwrap();
    sheet.write_string(2, 1, "no name in this row").unwrap();
    sheet.write_string(3, 0, "Bolt").unwrap();
    sheet.write_string(3, 6, "b@bolt.example").unwrap();
    let mut db = Db::new();
    assert_eq!(import_suppliers_from_excel(&mut db, &rows_of(sheet)), Ok(2));
    assert_eq!(
        db.suppliers(),
        &vec![
            Supplier {
                id: 1,
                name: "Acme".to_string(),
                gst_no: Some("G1".to_string()),
                state_code: None,
                tds_flag: 1,
                tds_rate: Some(150),
                contact: None,
                email: None,
            },
            Supplier {
                id: 2,
                name: "Bolt".to_string(),
                gst_no: None,
                state_code: None,
                tds_flag: 0,
                tds_rate: None,
                contact: None,
                email: Some("b@bolt.example".to_string()),
            },
        ]
    );
}

#[test]
fn store_is_opened_with_its_settings() {
    assert_eq!(
        init(),
        StoreSettings {
            create_if_missing: true,
            foreign_keys: true,
            journal_mode: JournalMode::WriteAhead,
            synchronous: Synchronous::Normal,
            max_connections: 5,
        }
    );
}

#[test]
fn start_serves_the_first_place_where_it_opens() {
    let s = begin();
    assert_eq!(s, Step { state: Startup::PreparingPrimary, action: Action::CreateDirectory(Place::Primary) });
    for made in [true, false] {
        let s = run(s.state, made);
        assert_eq!(s, Step { state: Startup::OpeningPrimary, action: Action::OpenStore(Place::Primary) });
        let s = run(s.state, true);
        assert_eq!(s, Step { state: Startup::Ready(Place::Primary), action: Action::Serve(Place::Primary) });
        assert_eq!(run(s.state, false), s);
    }
}

#[test]
fn start_falls_back_to_the_second_place() {
    let s = run(Startup::OpeningPrimary, false);
    assert_eq!(s, Step { state: Startup::PreparingFallback, action: Action::CreateDirectory(Place::Fallback) });
    let s = run(s.state, true);
    assert_eq!(s, Step { state: Startup::OpeningFallback, action: Action::OpenStore(Place::Fallback) });
    let s = run(s.state, true);
    assert_eq!(s, Step { state: Startup::Ready(Place::Fallback), action: Action::Serve(Place::Fallback) });
}

#[test]
fn start_fails_where_neither_place_works() {
    let s = run(Startup::PreparingFallback, false);
    let failed = Startup::Failed(StartupFailure::FallbackDirectory);
    assert_eq!(s, Step { state: failed, action: Action::Abort(StartupFailure::FallbackDirectory) });
    assert_eq!(run(failed, true), s);
    let s = run(Startup::OpeningFallback, false);
    assert_eq!(
        s,
        Step { state: Startup::Failed(StartupFailure::BothStores), action: Action::Abort(StartupFailure::BothStores) }
    );
}

fn held_entry(id: i64, supplier_id: i64) -> PurchaseEntry {
    PurchaseEntry {
        id,
        supplier_id,
        invoice_no: "I".to_string(),
        date: "2024-01-01".to_string(),
        entry_date: "t".to_string(),
        gst_rate: 0,
        basic_value: 0,
        sgst: 0,
        cgst: 0,
        igst: 0,
        invoice_value: 0,
        tds_value: 0,
        narration: None,
        status: "open".to_string(),
    }
}

fn held_supplier(id: i64, flag: i64) -> Supplier {
    Supplier {
        id,
        name: "S".to_string(),
        gst_no: None,
        state_code: None,
        tds_flag: flag,
        tds_rate: None,
        contact: None,
        email: None,
    }
}

fn held_item(id: i64, purchase_id: i64) -> PurchaseItem {
    PurchaseItem {
        id,
        purchase_id,
        part_no: None,
        description: "d".to_string(),
        qty: 1,
        unit: None,
        price: 1,
        amount: 1,
    }
}

fn held_user(id: i64, name: &str) -> User {
    User {
        id,
        username: name.to_string(),
        password_hash: "p".to_string(),
        role: "user".to_string(),
        created_at: "t".to_string(),
    }
}

#[test]
fn restore_takes_tables_that_obey_the_rules() {
    let db = Db::restore(
        vec![held_supplier(2, 1), held_supplier(5, 0)],
        vec![held_entry(1, 5), held_entry(7, 2)],
        vec![held_item(3, 7), held_item(4, 1)],
        vec![held_user(1, "a"), held_user(2, "b")],
        NextIds { supplier: 6, entry: 9, item: 5, user: 3 },
    )
    .unwrap();
    assert_eq!(db.suppliers().len(), 2);
    assert_eq!(db.entries().len(), 2);
    assert_eq!(db.items().len(), 2);
    assert_eq!(db.users().len(), 2);
    assert_eq!(db.next_ids(), NextIds { supplier: 6, entry: 9, item: 5, user: 3 });
    let mut db = db;
    assert_eq!(add_supplier(&mut db, named("n")).unwrap().id, 6);
    assert_eq!(add_purchase(&mut db, entry(2, "2024-01-01", 1, (0, 0, 0), 1), "t".to_string()).unwrap().id, 9);
    assert_eq!(db.items().last().unwrap().id, 5);
    assert_eq!(db.next_ids(), NextIds { supplier: 7, entry: 10, item: 6, user: 3 });
}

#[test]
fn what_a_store_hands_out_is_taken_back() {
    let db = report_store();
    let again = Db::restore(
        db.suppliers().clone(),
        db.entries().clone(),
        db.items().clone(),
        db.users().clone(),
        db.next_ids(),
    )
    .unwrap();
    assert_eq!(again.suppliers(), db.suppliers());
    assert_eq!(again.entries(), db.entries());
    assert_eq!(again.items(), db.items());
    assert_eq!(again.users(), db.users());
    assert_eq!(again.next_ids(), db.next_ids());
    let empty = Db::new();
    assert_eq!(empty.next_ids(), NextIds { supplier: 1, entry: 1, item: 1, user: 1 });
}

#[test]
fn restore_refuses_tables_that_break_the_rules() {
    let bad = |r: Result<Db, LedgerError>| assert!(matches!(r, Err(LedgerError::Inconsistent)));
    let next = NextIds { supplier: 10, entry: 10, item: 10, user: 10 };
    bad(Db::restore(vec![held_supplier(2, 0), held_supplier(2, 0)], vec![], vec![], vec![], next));
    bad(Db::restore(vec![held_supplier(3, 0), held_supplier(2, 0)], vec![], vec![], vec![], next));
    bad(Db::restore(vec![held_supplier(0, 0)], vec![], vec![], vec![], next));
    bad(Db::restore(vec![held_supplier(10, 0)], vec![], vec![], vec![], next));
    bad(Db::restore(vec![held_supplier(1, 2)], vec![], vec![], vec![], next));
    bad(Db::restore(vec![held_supplier(1, 0)], vec![held_entry(1, 2)], vec![], vec![], next));
    bad(Db::restore(vec![held_supplier(1, 0)], vec![held_entry(1, 1)], vec![held_item(1, 2)], vec![], next));
    bad(Db::restore(vec![], vec![], vec![], vec![held_user(1, "a"), held_user(2, "a")], next));
    bad(Db::restore(vec![], vec![], vec![], vec![held_user(2, "a"), held_user(1, "b")], next));
    bad(Db::restore(vec![], vec![], vec![], vec![], NextIds { supplier: 0, entry: 1, item: 1, user: 1 }));
    bad(Db::restore(vec![], vec![], vec![], vec![], NextIds { supplier: 1, entry: 1, item: -5, user: 1 }));
    assert!(Db::restore(vec![], vec![], vec![], vec![], next).is_ok());
    assert!(Db::restore(vec![held_supplier(9, 0)], vec![], vec![], vec![], next).is_ok());
}
