use purchase_ledger::error::LedgerError;
use purchase_ledger::models::{
    LoginPayload, PurchaseCreate, Supplier, SupplierCreate, SupplierUpdate, User, UserCreate,
};
use purchase_ledger::restore::NextIds;
use purchase_ledger::store::Db;
use purchase_ledger::suppliers::{add_supplier, delete_supplier, get_suppliers, update_supplier};
use purchase_ledger::users::{login, register};
use purchase_ledger::writes::{add_purchase, delete_purchase};

fn named(name: &str) -> SupplierCreate {
    SupplierCreate {
        name: name.to_string(),
        gst_no: None,
        state_code: None,
        tds_flag: false,
        tds_rate: None,
        contact: None,
        email: None,
    }
}

fn untouched(id: i64) -> SupplierUpdate {
    SupplierUpdate {
        id,
        name: None,
        gst_no: None,
        state_code: None,
        tds_flag: None,
        tds_rate: None,
        contact: None,
        email: None,
    }
}

fn entry_for(supplier_id: i64) -> PurchaseCreate {
    PurchaseCreate {
        supplier_id,
        invoice_no: "I".to_string(),
        date: "2024-01-01".to_string(),
        entry_date: None,
        gst_rate: 0,
        basic_value: 0,
        sgst: 0,
        cgst: 0,
        igst: 0,
        invoice_value: 0,
        tds_value: 0,
        narration: None,
        status: "open".to_string(),
        items: vec![],
    }
}

fn names(rows: &[Supplier]) -> Vec<&str> {
    rows.iter().map(|s| s.name.as_str()).collect()
}

#[test]
fn created_supplier_is_returned_as_held() {
    let mut db = Db::new();
    let s = add_supplier(
        &mut db,
        SupplierCreate {
            name: "Acme".to_string(),
            gst_no: Some("27AAAPL1234C1ZV".to_string()),
            state_code: Some("27".to_string()),
            tds_flag: true,
            tds_rate: Some(150),
            contact: Some("Asha".to_string()),
            email: Some("a@acme.example".to_string()),
        },
    )
    .unwrap();
    assert_eq!(
        s,
        Supplier {
            id: 1,
            name: "Acme".to_string(),
            gst_no: Some("27AAAPL1234C1ZV".to_string()),
            state_code: Some("27".to_string()),
            tds_flag: 1,
            tds_rate: Some(150),
            contact: Some("Asha".to_string()),
            email: Some("a@acme.example".to_string()),
        }
    );
    assert_eq!(db.suppliers(), &vec![s]);
    let t = add_supplier(&mut db, named("Acme")).unwrap();
    assert_eq!((t.id, t.tds_flag), (2, 0));
}

#[test]
fn suppliers_are_listed_by_name() {
    let mut db = Db::new();
    for n in ["delta", "Alpha", "charlie", "Bravo", "Alpha"] {
        add_supplier(&mut db, named(n)).unwrap();
    }
    let page = get_suppliers(&db, None, None, None).unwrap();
    assert_eq!((page.total, page.page, page.page_size), (5, 1, 20));
    assert_eq!(names(&page.data), vec!["Alpha", "Alpha", "Bravo", "charlie", "delta"]);
    assert_eq!(page.data.iter().map(|s| s.id).collect::<Vec<_>>(), vec![2, 5, 4, 3, 1]);
}

#[test]
fn suppliers_are_paged() {
    let mut db = Db::new();
    for n in ["e", "d", "c", "b", "a"] {
        add_supplier(&mut db, named(n)).unwrap();
    }
    let page = get_suppliers(&db, Some(2), Some(2), None).unwrap();
    assert_eq!((page.total, page.page, page.page_size), (5, 2, 2));
    assert_eq!(names(&page.data), vec!["c", "d"]);
    let page = get_suppliers(&db, Some(3), Some(2), None).unwrap();
    assert_eq!(names(&page.data), vec!["e"]);
    let page = get_suppliers(&db, Some(4), Some(2), None).unwrap();
    assert_eq!(page.total, 5);
    assert!(page.data.is_empty());
}

#[test]
fn supplier_name_filter_searches_inside_names() {
    let mut db = Db::new();
    for n in ["Acme Steel", "Steelworks", "Bolt Co", "ACME bolts"] {
        add_supplier(&mut db, named(n)).unwrap();
    }
    let page = get_suppliers(&db, None, None, Some("steel".to_string())).unwrap();
    assert_eq!(page.total, 2);
    assert_eq!(names(&page.data), vec!["Acme Steel", "Steelworks"]);
    let page = get_suppliers(&db, None, None, Some("acme".to_string())).unwrap();
    assert_eq!(names(&page.data), vec!["ACME bolts", "Acme Steel"]);
    let page = get_suppliers(&db, None, None, Some(String::new())).unwrap();
    assert_eq!(page.total, 4);
    let page = get_suppliers(&db, None, None, Some("zinc".to_string())).unwrap();
    assert_eq!(page.total, 0);
    assert!(page.data.is_empty());
}

#[test]
fn update_supplier_keeps_what_it_omits() {
    let mut db = Db::new();
    let s = add_supplier(
        &mut db,
        SupplierCreate {
            name: "Acme".to_string(),
            gst_no: Some("G".to_string()),
            state_code: Some("27".to_string()),
            tds_flag: true,
            tds_rate: Some(150),
            contact: Some("Asha".to_string()),
            email: Some("a@acme.example".to_string()),
        },
    )
    .unwrap();
    let mut change = untouched(1);
    change.contact = Some("Ravi".to_string());
    let after = update_supplier(&mut db, change).unwrap();
    let mut expected = s.clone();
    expected.contact = Some("Ravi".to_string());
    assert_eq!(after, expected);
    assert_eq!(db.suppliers(), &vec![expected]);
}

#[test]
fn update_supplier_takes_every_field() {
    let mut db = Db::new();
    add_supplier(&mut db, named("Acme")).unwrap();
    add_supplier(&mut db, named("Other")).unwrap();
    let after = update_supplier(
        &mut db,
        SupplierUpdate {
            id: 1,
            name: Some("Acme Ltd".to_string()),
            gst_no: Some("G".to_string()),
            state_code: Some("29".to_string()),
            tds_flag: Some(true),
            tds_rate: Some(200),
            contact: Some("C".to_string()),
            email: Some("E".to_string()),
        },
    )
    .unwrap();
    assert_eq!(
        after,
        Supplier {
            id: 1,
            name: "Acme Ltd".to_string(),
            gst_no: Some("G".to_string()),
            state_code: Some("29".to_string()),
            tds_flag: 1,
            tds_rate: Some(200),
            contact: Some("C".to_string()),
            email: Some("E".to_string()),
        }
    );
    let mut off = untouched(1);
    off.tds_flag = Some(false);
    assert_eq!(update_supplier(&mut db, off).unwrap().tds_flag, 0);
    assert_eq!(db.suppliers()[1].name, "Other");
}

#[test]
fn update_of_a_supplier_that_is_not_held_is_not_found() {
    let mut db = Db::new();
    add_supplier(&mut db, named("Acme")).unwrap();
    let mut change = untouched(2);
    change.name = Some("X".to_string());
    assert_eq!(update_supplier(&mut db, change), Err(LedgerError::NotFound));
    assert_eq!(db.suppliers()[0].name, "Acme");
}

#[test]
fn delete_supplier_says_whether_one_was_deleted() {
    let mut db = Db::new();
    add_supplier(&mut db, named("Acme")).unwrap();
    add_supplier(&mut db, named("Bolt")).unwrap();
    assert_eq!(delete_supplier(&mut db, 1), Ok(true));
    assert_eq!(names(db.suppliers()), vec!["Bolt"]);
    assert_eq!(delete_supplier(&mut db, 1), Ok(false));
    assert_eq!(delete_supplier(&mut db, 9), Ok(false));
    assert_eq!(names(db.suppliers()), vec!["Bolt"]);
    assert_eq!(add_supplier(&mut db, named("Cog")).unwrap().id, 3);
}

#[test]
fn a_supplier_with_entries_is_not_deleted() {
    let mut db = Db::new();
    add_supplier(&mut db, named("Acme")).unwrap();
    let e = add_purchase(&mut db, entry_for(1), "t".to_string()).unwrap();
    assert_eq!(delete_supplier(&mut db, 1), Err(LedgerError::SupplierInUse));
    assert_eq!(db.suppliers().len(), 1);
    delete_purchase(&mut db, e.id).unwrap();
    assert_eq!(delete_supplier(&mut db, 1), Ok(true));
    assert!(db.suppliers().is_empty());
}

#[test]
fn the_table_of_suppliers_can_run_full() {
    let last = Supplier {
        id: i64::MAX - 1,
        name: "Last".to_string(),
        gst_no: None,
        state_code: None,
        tds_flag: 0,
        tds_rate: None,
        contact: None,
        email: None,
    };
    let next = NextIds { supplier: i64::MAX, entry: 1, item: 1, user: 1 };
    let mut db = Db::restore(vec![last.clone()], vec![], vec![], vec![], next).unwrap();
    assert_eq!(db.next_ids(), next);
    assert_eq!(add_supplier(&mut db, named("More")), Err(LedgerError::StoreFull));
    assert_eq!(db.next_ids(), next);
    assert_eq!(db.suppliers(), &vec![last]);
}

fn account(name: &str, password: &str, role: Option<&str>) -> UserCreate {
    UserCreate { username: name.to_string(), password: password.to_string(), role: role.map(|r| r.to_string()) }
}

#[test]
fn registered_user_is_returned_as_held() {
    let mut db = Db::new();
    let u = register(&mut db, account("asha", "pw", None), "2024-01-01 00:00:00".to_string()).unwrap();
    assert_eq!(
        u,
        User {
            id: 1,
            username: "asha".to_string(),
            password_hash: "pw".to_string(),
            role: "user".to_string(),
            created_at: "2024-01-01 00:00:00".to_string(),
        }
    );
    let v = register(&mut db, account("ravi", "pw", Some("admin")), "t".to_string()).unwrap();
    assert_eq!((v.id, v.role.as_str()), (2, "admin"));
    assert_eq!(db.users(), &vec![u, v]);
}

#[test]
fn registration_checks_name_then_password_then_use() {
    let mut db = Db::new();
    assert_eq!(register(&mut db, account("", "", None), "t".to_string()), Err(LedgerError::EmptyUsername));
    assert_eq!(register(&mut db, account("", "pw", None), "t".to_string()), Err(LedgerError::EmptyUsername));
    assert_eq!(register(&mut db, account("asha", "", None), "t".to_string()), Err(LedgerError::EmptyPassword));
    assert!(db.users().is_empty());
    register(&mut db, account("asha", "pw", None), "t".to_string()).unwrap();
    assert_eq!(register(&mut db, account("asha", "other", None), "t".to_string()), Err(LedgerError::UsernameTaken));
    assert_eq!(register(&mut db, account("asha", "", None), "t".to_string()), Err(LedgerError::EmptyPassword));
    assert_eq!(db.users().len(), 1);
    assert!(register(&mut db, account("Asha", "pw", None), "t".to_string()).is_ok());
}

#[test]
fn login_returns_the_user_and_the_token() {
    let mut db = Db::new();
    register(&mut db, account("ravi", "x", None), "t".to_string()).unwrap();
    let u = register(&mut db, account("asha", "pw", None), "t".to_string()).unwrap();
    let r = login(&db, LoginPayload { username: "asha".to_string(), password: "pw".to_string() }).unwrap();
    assert_eq!(r.user, u);
    assert_eq!(r.token, "fake-jwt-token");
}

#[test]
fn login_fails_the_same_way_for_name_and_password() {
    let mut db = Db::new();
    register(&mut db, account("asha", "pw", None), "t".to_string()).unwrap();
    let wrong_password = login(&db, LoginPayload { username: "asha".to_string(), password: "PW".to_string() });
    let wrong_name = login(&db, LoginPayload { username: "ash".to_string(), password: "pw".to_string() });
    assert_eq!(wrong_password, Err(LedgerError::InvalidCredentials));
    assert_eq!(wrong_name, Err(LedgerError::InvalidCredentials));
    let empty = login(&Db::new(), LoginPayload { username: String::new(), password: String::new() });
    assert_eq!(empty, Err(LedgerError::InvalidCredentials));
}

#[test]
fn the_table_of_users_can_run_full() {
    let last = User {
        id: i64::MAX - 1,
        username: "last".to_string(),
        password_hash: "p".to_string(),
        role: "user".to_string(),
        created_at: "t".to_string(),
    };
    let next = NextIds { supplier: 1, entry: 1, item: 1, user: i64::MAX };
    let mut db = Db::restore(vec![], vec![], vec![], vec![last], next).unwrap();
    assert_eq!(register(&mut db, account("next", "pw", None), "t".to_string()), Err(LedgerError::StoreFull));
    assert_eq!(register(&mut db, account("last", "pw", None), "t".to_string()), Err(LedgerError::UsernameTaken));
    assert_eq!(db.users().len(), 1);
}
