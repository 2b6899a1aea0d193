use purchase_ledger::error::LedgerError;
use purchase_ledger::filters::Predicate;
use purchase_ledger::items::{add_item, get_items_by_purchase, update_item};
use purchase_ledger::models::{
    PurchaseCreate, PurchaseEntry, PurchaseFilters, PurchaseItem, PurchaseItemPayload, PurchaseUpdate,
    SupplierCreate,
};
use purchase_ledger::purchases::get_purchases;
use purchase_ledger::restore::NextIds;
use purchase_ledger::store::Db;
use purchase_ledger::suppliers::add_supplier;
use purchase_ledger::writes::{add_purchase, delete_purchase, update_purchase};

fn supplier(name: &str) -> SupplierCreate {
    SupplierCreate {
        name: name.to_string(),
        gst_no: None,
        state_code: None,
        tds_flag: false,
        tds_rate: None,
        contact: None,
        email: None,
    }
}

fn line(description: &str, qty: i64, price: i64) -> PurchaseItemPayload {
    PurchaseItemPayload {
        id: None,
        part_no: None,
        description: description.to_string(),
        qty,
        unit: None,
        price,
        amount: None,
    }
}

fn purchase(supplier_id: i64, invoice_no: &str, date: &str, items: Vec<PurchaseItemPayload>) -> PurchaseCreate {
    PurchaseCreate {
        supplier_id,
        invoice_no: invoice_no.to_string(),
        date: date.to_string(),
        entry_date: None,
        gst_rate: 1800,
        basic_value: 10000,
        sgst: 900,
        cgst: 900,
        igst: 0,
        invoice_value: 11800,
        tds_value: 0,
        narration: None,
        status: "open".to_string(),
        items,
    }
}

fn no_change(id: i64) -> PurchaseUpdate {
    PurchaseUpdate {
        id,
        supplier_id: None,
        invoice_no: None,
        date: None,
        entry_date: None,
        gst_rate: None,
        basic_value: None,
        sgst: None,
        cgst: None,
        igst: None,
        invoice_value: None,
        tds_value: None,
        narration: None,
        status: None,
        items: None,
    }
}

fn no_filters() -> PurchaseFilters {
    PurchaseFilters {
        supplier_id: None,
        date_from: None,
        date_to: None,
        gst_rate: None,
        invoice_no: None,
        status: None,
    }
}

fn store_with_supplier() -> Db {
    let mut db = Db::new();
    add_supplier(&mut db, supplier("Acme")).unwrap();
    db
}

fn ids(rows: &[PurchaseEntry]) -> Vec<i64> {
    rows.iter().map(|e| e.id).collect()
}

#[test]
fn acme_bolt_scenario() {
    let mut db = Db::new();
    let acme = add_supplier(&mut db, supplier("Acme")).unwrap();
    assert_eq!(acme.id, 1);
    assert_eq!(acme.tds_flag, 0);
    let price = (2.5_f64 * 100.0) as i64;
    let entry = add_purchase(
        &mut db,
        purchase(1, "INV-1", "2024-03-01", vec![line("Bolt", 10, price)]),
        "2024-03-02 10:00:00".to_string(),
    )
    .unwrap();
    assert_eq!(entry.id, 1);
    let items = get_items_by_purchase(&db, entry.id).unwrap();
    assert_eq!(items.len(), 1);
    assert_eq!(items[0].amount, (25.0_f64 * 100.0) as i64);
    assert_eq!(items[0].description, "Bolt");
    let mut change = no_change(entry.id);
    change.items = Some(vec![]);
    let after = update_purchase(&mut db, change).unwrap();
    assert_eq!(after, entry);
    assert_eq!(get_items_by_purchase(&db, entry.id).unwrap(), Vec::<PurchaseItem>::new());
}

#[test]
fn created_entry_is_returned_as_held() {
    let mut db = store_with_supplier();
    let mut p = purchase(1, "INV-7", "2024-03-01", vec![]);
    p.narration = Some("steel".to_string());
    let entry = add_purchase(&mut db, p, "2024-03-02 10:00:00".to_string()).unwrap();
    assert_eq!(
        entry,
        PurchaseEntry {
            id: 1,
            supplier_id: 1,
            invoice_no: "INV-7".to_string(),
            date: "2024-03-01".to_string(),
            entry_date: "2024-03-02 10:00:00".to_string(),
            gst_rate: 1800,
            basic_value: 10000,
            sgst: 900,
            cgst: 900,
            igst: 0,
            invoice_value: 11800,
            tds_value: 0,
            narration: Some("steel".to_string()),
            status: "open".to_string(),
        }
    );
    assert_eq!(db.entries(), &vec![entry]);
}

#[test]
fn entry_date_of_the_payload_wins_over_now() {
    let mut db = store_with_supplier();
    let mut p = purchase(1, "INV-7", "2024-03-01", vec![]);
    p.entry_date = Some("2020-01-01 00:00:00".to_string());
    let entry = add_purchase(&mut db, p, "2024-03-02 10:00:00".to_string()).unwrap();
    assert_eq!(entry.entry_date, "2020-01-01 00:00:00");
}

#[test]
fn items_without_amount_get_quantity_times_price() {
    let mut db = store_with_supplier();
    let lines = vec![line("a", 3, 7), line("b", 0, 99), line("c", -2, 50), line("d", 1_000_000, 1_000_000)];
    let entry = add_purchase(&mut db, purchase(1, "I", "2024-01-01", lines), "t".to_string()).unwrap();
    let items = get_items_by_purchase(&db, entry.id).unwrap();
    assert_eq!(items.len(), 4);
    assert_eq!(items.iter().map(|i| i.amount).collect::<Vec<_>>(), vec![21, 0, -100, 1_000_000_000_000]);
    assert_eq!(items.iter().map(|i| i.id).collect::<Vec<_>>(), vec![1, 2, 3, 4]);
    assert!(items.iter().all(|i| i.purchase_id == entry.id));
}

#[test]
fn an_amount_that_is_given_is_taken_as_it_is() {
    let mut db = store_with_supplier();
    let mut l = line("a", 3, 7);
    l.amount = Some(5);
    assert_eq!(l.resolve_amount(), Ok(5));
    let entry = add_purchase(&mut db, purchase(1, "I", "2024-01-01", vec![l]), "t".to_string()).unwrap();
    assert_eq!(get_items_by_purchase(&db, entry.id).unwrap()[0].amount, 5);
}

#[test]
fn amount_out_of_range_refuses_the_whole_entry() {
    let mut db = store_with_supplier();
    let lines = vec![line("ok", 1, 1), line("big", i64::MAX, 2)];
    assert_eq!(line("big", i64::MAX, 2).resolve_amount(), Err(LedgerError::AmountOutOfRange));
    assert_eq!(line("edge", i64::MAX, 1).resolve_amount(), Ok(i64::MAX));
    assert_eq!(line("edge", i64::MIN, 1).resolve_amount(), Ok(i64::MIN));
    assert_eq!(line("edge", i64::MIN, -1).resolve_amount(), Err(LedgerError::AmountOutOfRange));
    let r = add_purchase(&mut db, purchase(1, "I", "2024-01-01", lines), "t".to_string());
    assert_eq!(r, Err(LedgerError::AmountOutOfRange));
    assert!(db.entries().is_empty());
    assert!(db.items().is_empty());
}

#[test]
fn entry_of_an_unknown_supplier_is_refused() {
    let mut db = store_with_supplier();
    let r = add_purchase(&mut db, purchase(2, "I", "2024-01-01", vec![line("a", 1, 1)]), "t".to_string());
    assert_eq!(r, Err(LedgerError::UnknownSupplier));
    assert!(db.entries().is_empty());
    assert!(db.items().is_empty());
}

#[test]
fn update_with_items_replaces_all_items() {
    let mut db = store_with_supplier();
    let first = add_purchase(
        &mut db,
        purchase(1, "A", "2024-01-01", vec![line("a", 1, 1), line("b", 2, 2), line("c", 3, 3)]),
        "t".to_string(),
    )
    .unwrap();
    let second =
        add_purchase(&mut db, purchase(1, "B", "2024-01-02", vec![line("x", 5, 5)]), "t".to_string()).unwrap();
    let mut change = no_change(first.id);
    change.items = Some(vec![line("n1", 4, 10), line("n2", 6, 10)]);
    update_purchase(&mut db, change).unwrap();
    let items = get_items_by_purchase(&db, first.id).unwrap();
    assert_eq!(items.len(), 2);
    assert_eq!(items.iter().map(|i| i.description.as_str()).collect::<Vec<_>>(), vec!["n1", "n2"]);
    assert_eq!(items.iter().map(|i| i.amount).collect::<Vec<_>>(), vec![40, 60]);
    assert_eq!(items.iter().map(|i| i.id).collect::<Vec<_>>(), vec![5, 6]);
    let others = get_items_by_purchase(&db, second.id).unwrap();
    assert_eq!(others.len(), 1);
    assert_eq!(others[0].description, "x");
}

#[test]
fn update_without_items_leaves_the_items() {
    let mut db = store_with_supplier();
    let entry = add_purchase(
        &mut db,
        purchase(1, "A", "2024-01-01", vec![line("a", 1, 1), line("b", 2, 2)]),
        "t".to_string(),
    )
    .unwrap();
    let before = get_items_by_purchase(&db, entry.id).unwrap();
    let mut change = no_change(entry.id);
    change.status = Some("paid".to_string());
    update_purchase(&mut db, change).unwrap();
    assert_eq!(get_items_by_purchase(&db, entry.id).unwrap(), before);
}

#[test]
fn update_of_one_field_leaves_the_others() {
    let mut db = store_with_supplier();
    let mut p = purchase(1, "A", "2024-01-01", vec![]);
    p.narration = Some("n".to_string());
    let entry = add_purchase(&mut db, p, "t".to_string()).unwrap();
    let mut change = no_change(entry.id);
    change.status = Some("paid".to_string());
    let after = update_purchase(&mut db, change).unwrap();
    let mut expected = entry.clone();
    expected.status = "paid".to_string();
    assert_eq!(after, expected);
    assert_eq!(db.entries(), &vec![expected]);
}

#[test]
fn update_of_every_field_takes_every_field() {
    let mut db = store_with_supplier();
    add_supplier(&mut db, supplier("Bolt Co")).unwrap();
    let entry = add_purchase(&mut db, purchase(1, "A", "2024-01-01", vec![]), "t".to_string()).unwrap();
    let change = PurchaseUpdate {
        id: entry.id,
        supplier_id: Some(2),
        invoice_no: Some("B".to_string()),
        date: Some("2025-05-05".to_string()),
        entry_date: Some("u".to_string()),
        gst_rate: Some(1),
        basic_value: Some(2),
        sgst: Some(3),
        cgst: Some(4),
        igst: Some(5),
        invoice_value: Some(6),
        tds_value: Some(7),
        narration: Some("new".to_string()),
        status: Some("paid".to_string()),
        items: None,
    };
    let after = update_purchase(&mut db, change).unwrap();
    assert_eq!(
        after,
        PurchaseEntry {
            id: 1,
            supplier_id: 2,
            invoice_no: "B".to_string(),
            date: "2025-05-05".to_string(),
            entry_date: "u".to_string(),
            gst_rate: 1,
            basic_value: 2,
            sgst: 3,
            cgst: 4,
            igst: 5,
            invoice_value: 6,
            tds_value: 7,
            narration: Some("new".to_string()),
            status: "paid".to_string(),
        }
    );
}

#[test]
fn update_of_an_entry_that_is_not_held_is_not_found() {
    let mut db = store_with_supplier();
    add_purchase(&mut db, purchase(1, "A", "2024-01-01", vec![line("a", 1, 1)]), "t".to_string()).unwrap();
    let mut change = no_change(99);
    change.items = Some(vec![line("z", 1, 1)]);
    assert_eq!(update_purchase(&mut db, change), Err(LedgerError::NotFound));
    assert_eq!(db.items().len(), 1);
    assert_eq!(db.entries().len(), 1);
}

#[test]
fn update_to_an_unknown_supplier_is_refused() {
    let mut db = store_with_supplier();
    let entry = add_purchase(&mut db, purchase(1, "A", "2024-01-01", vec![]), "t".to_string()).unwrap();
    let mut change = no_change(entry.id);
    change.supplier_id = Some(5);
    change.status = Some("paid".to_string());
    assert_eq!(update_purchase(&mut db, change), Err(LedgerError::UnknownSupplier));
    assert_eq!(db.entries(), &vec![entry]);
}

#[test]
fn update_with_an_amount_out_of_range_changes_nothing() {
    let mut db = store_with_supplier();
    let entry =
        add_purchase(&mut db, purchase(1, "A", "2024-01-01", vec![line("a", 1, 1)]), "t".to_string()).unwrap();
    let mut change = no_change(entry.id);
    change.status = Some("paid".to_string());
    change.items = Some(vec![line("big", i64::MIN, 2)]);
    assert_eq!(update_purchase(&mut db, change), Err(LedgerError::AmountOutOfRange));
    assert_eq!(db.entries(), &vec![entry]);
    assert_eq!(db.items().len(), 1);
    assert_eq!(db.items()[0].description, "a");
}

#[test]
fn delete_removes_the_entry_and_its_items() {
    let mut db = store_with_supplier();
    let first =
        add_purchase(&mut db, purchase(1, "A", "2024-01-01", vec![line("a", 1, 1)]), "t".to_string()).unwrap();
    let second =
        add_purchase(&mut db, purchase(1, "B", "2024-01-02", vec![line("b", 1, 1)]), "t".to_string()).unwrap();
    assert_eq!(delete_purchase(&mut db, first.id), Ok(true));
    assert_eq!(db.entries(), &vec![second.clone()]);
    assert_eq!(db.items().len(), 1);
    assert_eq!(db.items()[0].purchase_id, second.id);
    assert_eq!(delete_purchase(&mut db, first.id), Ok(false));
    assert_eq!(db.entries().len(), 1);
}

#[test]
fn identities_are_not_given_twice() {
    let mut db = store_with_supplier();
    let first = add_purchase(&mut db, purchase(1, "A", "2024-01-01", vec![]), "t".to_string()).unwrap();
    delete_purchase(&mut db, first.id).unwrap();
    let second = add_purchase(&mut db, purchase(1, "B", "2024-01-01", vec![]), "t".to_string()).unwrap();
    assert_eq!(second.id, 2);
    delete_purchase(&mut db, second.id).unwrap();
    let again = Db::restore(db.suppliers().clone(), vec![], vec![], vec![], db.next_ids()).unwrap();
    let mut again = again;
    let third = add_purchase(&mut again, purchase(1, "C", "2024-01-01", vec![]), "t".to_string()).unwrap();
    assert_eq!(third.id, 3);
}

#[test]
fn add_item_resolves_the_amount() {
    let mut db = store_with_supplier();
    let entry = add_purchase(&mut db, purchase(1, "A", "2024-01-01", vec![]), "t".to_string()).unwrap();
    assert_eq!(add_item(&mut db, entry.id, line("nut", 4, 25)), Ok(true));
    let mut given = line("washer", 4, 25);
    given.amount = Some(1);
    given.part_no = Some("W-1".to_string());
    given.unit = Some("pc".to_string());
    assert_eq!(add_item(&mut db, entry.id, given), Ok(true));
    let items = get_items_by_purchase(&db, entry.id).unwrap();
    assert_eq!(
        items,
        vec![
            PurchaseItem {
                id: 1,
                purchase_id: 1,
                part_no: None,
                description: "nut".to_string(),
                qty: 4,
                unit: None,
                price: 25,
                amount: 100,
            },
            PurchaseItem {
                id: 2,
                purchase_id: 1,
                part_no: Some("W-1".to_string()),
                description: "washer".to_string(),
                qty: 4,
                unit: Some("pc".to_string()),
                price: 25,
                amount: 1,
            },
        ]
    );
}

#[test]
fn add_item_to_an_unknown_entry_is_refused() {
    let mut db = store_with_supplier();
    assert_eq!(add_item(&mut db, 1, line("nut", 4, 25)), Err(LedgerError::UnknownPurchase));
    assert!(db.items().is_empty());
}

#[test]
fn add_item_with_an_amount_out_of_range_is_refused() {
    let mut db = store_with_supplier();
    let entry = add_purchase(&mut db, purchase(1, "A", "2024-01-01", vec![]), "t".to_string()).unwrap();
    assert_eq!(add_item(&mut db, entry.id, line("nut", i64::MAX, i64::MAX)), Err(LedgerError::AmountOutOfRange));
    assert!(db.items().is_empty());
}

#[test]
fn update_item_keeps_what_the_line_omits() {
    let mut db = store_with_supplier();
    let entry = add_purchase(&mut db, purchase(1, "A", "2024-01-01", vec![]), "t".to_string()).unwrap();
    let mut first = line("nut", 4, 25);
    first.part_no = Some("N-1".to_string());
    first.unit = Some("pc".to_string());
    add_item(&mut db, entry.id, first).unwrap();
    assert_eq!(update_item(&mut db, 1, line("bolt", 5, 30)), Ok(true));
    assert_eq!(
        db.items(),
        &vec![PurchaseItem {
            id: 1,
            purchase_id: 1,
            part_no: Some("N-1".to_string()),
            description: "bolt".to_string(),
            qty: 5,
            unit: Some("pc".to_string()),
            price: 30,
            amount: 100,
        }]
    );
    let mut second = line("screw", 1, 1);
    second.part_no = Some("S-1".to_string());
    second.unit = Some("box".to_string());
    second.amount = Some(9);
    assert_eq!(update_item(&mut db, 1, second), Ok(true));
    assert_eq!(db.items()[0].part_no, Some("S-1".to_string()));
    assert_eq!(db.items()[0].unit, Some("box".to_string()));
    assert_eq!(db.items()[0].amount, 9);
}

#[test]
fn update_item_of_an_unknown_identity_changes_nothing() {
    let mut db = store_with_supplier();
    let entry =
        add_purchase(&mut db, purchase(1, "A", "2024-01-01", vec![line("a", 1, 1)]), "t".to_string()).unwrap();
    let before = get_items_by_purchase(&db, entry.id).unwrap();
    assert_eq!(update_item(&mut db, 77, line("b", 2, 2)), Ok(true));
    assert_eq!(get_items_by_purchase(&db, entry.id).unwrap(), before);
}

#[test]
fn items_of_an_unknown_entry_are_none() {
    let db = store_with_supplier();
    assert_eq!(get_items_by_purchase(&db, 5).unwrap(), Vec::<PurchaseItem>::new());
}

fn listing_store() -> Db {
    let mut db = Db::new();
    add_supplier(&mut db, supplier("Acme")).unwrap();
    add_supplier(&mut db, supplier("Bolt Co")).unwrap();
    let rows = [
        (1, "INV-001", "2024-01-10", "2024-01-11 09:00:00", 1800, "open"),
        (2, "INV-002", "2024-01-15", "2024-01-16 09:00:00", 1200, "paid"),
        (1, "inv-003", "2024-02-01", "2024-02-02 09:00:00", 1800, "paid"),
        (2, "BILL-9", "2024-02-20", "2024-02-02 09:00:00", 500, "open"),
        (1, "BILL-10", "2024-02-20", "2024-02-02 09:00:00", 1800, "open"),
    ];
    for (s, inv, date, logged, rate, status) in rows {
        let mut p = purchase(s, inv, date, vec![]);
        p.gst_rate = rate;
        p.status = status.to_string();
        add_purchase(&mut db, p, logged.to_string()).unwrap();
    }
    db
}

#[test]
fn list_is_most_recent_first() {
    let db = listing_store();
    let page = get_purchases(&db, None, None, None).unwrap();
    assert_eq!(page.total, 5);
    assert_eq!(page.page, 1);
    assert_eq!(page.page_size, 20);
    assert_eq!(ids(&page.data), vec![5, 4, 3, 2, 1]);
}

#[test]
fn ties_of_logging_time_go_by_date_then_identity() {
    let mut db = store_with_supplier();
    for (inv, date) in [("a", "2024-01-01"), ("b", "2024-03-01"), ("c", "2024-02-01"), ("d", "2024-03-01")] {
        add_purchase(&mut db, purchase(1, inv, date, vec![]), "same".to_string()).unwrap();
    }
    let page = get_purchases(&db, None, None, None).unwrap();
    assert_eq!(ids(&page.data), vec![4, 2, 3, 1]);
}

#[test]
fn total_does_not_depend_on_the_page() {
    let db = listing_store();
    for (p, s) in [(1, 2), (2, 2), (3, 2), (4, 2), (1, 200), (9, 1)] {
        let page = get_purchases(&db, Some(no_filters()), Some(p), Some(s)).unwrap();
        assert_eq!(page.total, 5);
        let from = ((p - 1) * s).min(5) as usize;
        let to = (p * s).min(5) as usize;
        assert_eq!(ids(&page.data), [5, 4, 3, 2, 1][from..to].to_vec());
    }
}

#[test]
fn page_request_out_of_range_is_coerced() {
    let db = listing_store();
    let page = get_purchases(&db, None, Some(0), Some(1000)).unwrap();
    assert_eq!((page.page, page.page_size, page.total), (1, 200, 5));
    assert_eq!(page.data.len(), 5);
    let page = get_purchases(&db, None, Some(i64::MAX), Some(0)).unwrap();
    assert_eq!((page.page, page.page_size, page.total), (i64::MAX, 1, 5));
    assert!(page.data.is_empty());
}

#[test]
fn filter_by_supplier() {
    let db = listing_store();
    let mut f = no_filters();
    f.supplier_id = Some(2);
    let page = get_purchases(&db, Some(f), None, None).unwrap();
    assert_eq!(page.total, 2);
    assert_eq!(ids(&page.data), vec![4, 2]);
}

#[test]
fn filter_by_date_range_includes_both_ends() {
    let db = listing_store();
    let mut f = no_filters();
    f.date_from = Some("2024-01-15".to_string());
    f.date_to = Some("2024-02-01".to_string());
    let page = get_purchases(&db, Some(f), None, None).unwrap();
    assert_eq!(page.total, 2);
    assert_eq!(ids(&page.data), vec![3, 2]);
    let mut f = no_filters();
    f.date_from = Some("2024-02-01".to_string());
    assert_eq!(ids(&get_purchases(&db, Some(f), None, None).unwrap().data), vec![5, 4, 3]);
    let mut f = no_filters();
    f.date_to = Some("2024-01-10".to_string());
    assert_eq!(ids(&get_purchases(&db, Some(f), None, None).unwrap().data), vec![1]);
}

#[test]
fn filter_by_rate_status_and_invoice_text() {
    let db = listing_store();
    let mut f = no_filters();
    f.gst_rate = Some(1800);
    assert_eq!(ids(&get_purchases(&db, Some(f), None, None).unwrap().data), vec![5, 3, 1]);
    let mut f = no_filters();
    f.status = Some("paid".to_string());
    assert_eq!(ids(&get_purchases(&db, Some(f), None, None).unwrap().data), vec![3, 2]);
    let mut f = no_filters();
    f.status = Some("PAID".to_string());
    assert_eq!(get_purchases(&db, Some(f), None, None).unwrap().total, 0);
    let mut f = no_filters();
    f.invoice_no = Some("INV".to_string());
    assert_eq!(ids(&get_purchases(&db, Some(f), None, None).unwrap().data), vec![3, 2, 1]);
    let mut f = no_filters();
    f.invoice_no = Some("".to_string());
    assert_eq!(get_purchases(&db, Some(f), None, None).unwrap().total, 5);
}

#[test]
fn filters_are_combined() {
    let db = listing_store();
    let f = PurchaseFilters {
        supplier_id: Some(1),
        date_from: Some("2024-01-01".to_string()),
        date_to: Some("2024-02-20".to_string()),
        gst_rate: Some(1800),
        invoice_no: Some("inv".to_string()),
        status: Some("paid".to_string()),
    };
    let page = get_purchases(&db, Some(f.clone()), Some(1), Some(1)).unwrap();
    assert_eq!(page.total, 1);
    assert_eq!(ids(&page.data), vec![3]);
    let page = get_purchases(&db, Some(f), Some(2), Some(1)).unwrap();
    assert_eq!(page.total, 1);
    assert!(page.data.is_empty());
}

#[test]
fn conditions_follow_the_fields_that_are_present() {
    assert_eq!(no_filters().conditions(), Vec::<Predicate>::new());
    let f = PurchaseFilters {
        supplier_id: Some(1),
        date_from: Some("a".to_string()),
        date_to: Some("b".to_string()),
        gst_rate: Some(2),
        invoice_no: Some("c".to_string()),
        status: Some("d".to_string()),
    };
    assert_eq!(
        f.conditions(),
        vec![
            Predicate::SupplierIs(1),
            Predicate::DateFrom("a".to_string()),
            Predicate::DateTo("b".to_string()),
            Predicate::GstRateIs(2),
            Predicate::InvoiceContains("c".to_string()),
            Predicate::StatusIs("d".to_string()),
        ]
    );
    let mut g = no_filters();
    g.gst_rate = Some(5);
    g.status = Some("x".to_string());
    assert_eq!(g.conditions(), vec![Predicate::GstRateIs(5), Predicate::StatusIs("x".to_string())]);
}

#[test]
fn a_condition_is_tested_on_one_entry() {
    let db = listing_store();
    let e = &db.entries()[0];
    assert!(Predicate::SupplierIs(1).test(e));
    assert!(!Predicate::SupplierIs(2).test(e));
    assert!(Predicate::DateFrom("2024-01-10".to_string()).test(e));
    assert!(!Predicate::DateFrom("2024-01-11".to_string()).test(e));
    assert!(Predicate::DateTo("2024-01-10".to_string()).test(e));
    assert!(!Predicate::DateTo("2024-01-09".to_string()).test(e));
    assert!(Predicate::InvoiceContains("v-0".to_string()).test(e));
    assert!(Predicate::StatusIs("open".to_string()).test(e));
    assert!(!Predicate::StatusIs("ope".to_string()).test(e));
}

fn held_supplier() -> purchase_ledger::models::Supplier {
    purchase_ledger::models::Supplier {
        id: 1,
        name: "Acme".to_string(),
        gst_no: None,
        state_code: None,
        tds_flag: 0,
        tds_rate: None,
        contact: None,
        email: None,
    }
}

fn held_entry(id: i64) -> PurchaseEntry {
    PurchaseEntry {
        id,
        supplier_id: 1,
        invoice_no: "I".to_string(),
        date: "2024-01-01".to_string(),
        entry_date: "t".to_string(),
        gst_rate: 0,
        basic_value: 0,
        sgst: 0,
        cgst: 0,
        igst: 0,
        invoice_value: 0,
        tds_value: 0,
        narration: None,
        status: "open".to_string(),
    }
}

fn held_item(id: i64, purchase_id: i64) -> PurchaseItem {
    PurchaseItem {
        id,
        purchase_id,
        part_no: None,
        description: "d".to_string(),
        qty: 1,
        unit: None,
        price: 1,
        amount: 1,
    }
}

#[test]
fn the_table_of_entries_can_run_full() {
    let next = NextIds { supplier: 2, entry: i64::MAX, item: 1, user: 1 };
    let mut db =
        Db::restore(vec![held_supplier()], vec![held_entry(i64::MAX - 1)], vec![], vec![], next).unwrap();
    let r = add_purchase(&mut db, purchase(1, "I", "2024-01-01", vec![]), "t".to_string());
    assert_eq!(r, Err(LedgerError::StoreFull));
    assert_eq!(db.entries().len(), 1);
}

#[test]
fn the_table_of_items_can_run_full() {
    let tables = || {
        let next = NextIds { supplier: 2, entry: 2, item: i64::MAX - 1, user: 1 };
        Db::restore(vec![held_supplier()], vec![held_entry(1)], vec![held_item(i64::MAX - 2, 1)], vec![], next)
            .unwrap()
    };
    let mut db = tables();
    let two = vec![line("a", 1, 1), line("b", 1, 1)];
    assert_eq!(add_purchase(&mut db, purchase(1, "I", "2024-01-01", two), "t".to_string()), Err(LedgerError::StoreFull));
    assert_eq!((db.entries().len(), db.items().len()), (1, 1));
    let mut change = no_change(1);
    change.status = Some("paid".to_string());
    change.items = Some(vec![line("a", 1, 1), line("b", 1, 1)]);
    assert_eq!(update_purchase(&mut db, change), Err(LedgerError::StoreFull));
    assert_eq!(db.entries()[0].status, "open");
    assert_eq!(db.items().len(), 1);
    assert_eq!(add_item(&mut db, 1, line("a", 1, 1)), Ok(true));
    assert_eq!(db.items()[1].id, i64::MAX - 1);
    assert_eq!(add_item(&mut db, 1, line("b", 1, 1)), Err(LedgerError::StoreFull));
    assert_eq!(db.items().len(), 2);
    let mut fits = tables();
    let one = add_purchase(&mut fits, purchase(1, "I", "2024-01-01", vec![line("a", 1, 1)]), "t".to_string());
    assert!(one.is_ok());
    assert_eq!(fits.items()[1].id, i64::MAX - 1);
}

#[test]
fn failures_come_in_a_fixed_order() {
    let mut db = store_with_supplier();
    let r = add_purchase(&mut db, purchase(9, "I", "2024-01-01", vec![line("big", i64::MAX, 2)]), "t".to_string());
    assert_eq!(r, Err(LedgerError::UnknownSupplier));
    let mut change = no_change(9);
    change.supplier_id = Some(9);
    change.items = Some(vec![line("big", i64::MAX, 2)]);
    assert_eq!(update_purchase(&mut db, change), Err(LedgerError::NotFound));
    add_purchase(&mut db, purchase(1, "I", "2024-01-01", vec![]), "t".to_string()).unwrap();
    let mut change = no_change(1);
    change.supplier_id = Some(9);
    change.items = Some(vec![line("big", i64::MAX, 2)]);
    assert_eq!(update_purchase(&mut db, change), Err(LedgerError::UnknownSupplier));
    assert_eq!(add_item(&mut db, 9, line("big", i64::MAX, 2)), Err(LedgerError::UnknownPurchase));
}
