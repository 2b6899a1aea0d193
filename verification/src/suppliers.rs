//! Suppliers: the paged list by name, and the writes of single records.
use vstd::prelude::*;
use vstd::string::*;
use crate::error::LedgerError;
use crate::models::{Page, Supplier, SupplierCreate, SupplierUpdate};
use crate::order::{arranged, key_views, page_of, page_positions, positions, RankKey, SortKey};
use crate::pagination::{normal_page, normal_page_size, normalize, page_offset};
use crate::purchases::{chosen, page_of_mapped};
use crate::store::{
    consistent, has_supplier, kept_suppliers_in_order, other_supplier, supplier_ids_grow,
    supplier_in_use, Db, Tables,
};
use crate::text::{chars_of, contains_text, copy_text, text_contains};

verus! {

/// The text that supplier names are searched for: the filter, or the
/// empty text, which every name holds, where no filter is given.
pub open spec fn needle_of(name_filter: Option<String>) -> Seq<char> {
    match name_filter {
        Some(f) => f@,
        None => Seq::<char>::empty(),
    }
}

/// The suppliers whose name holds the text, as a test on one supplier.
pub open spec fn named_like(needle: Seq<char>) -> spec_fn(Supplier) -> bool {
    |s: Supplier| text_contains(s.name@, needle)
}

/// What a supplier is ranked by: its name, then its identity.
pub open spec fn supplier_key(s: Supplier) -> RankKey {
    RankKey { rank: 0, first: s.name@, second: Seq::<char>::empty(), id: s.id as int }
}

/// The keys of a list of suppliers.
pub open spec fn supplier_keys(rows: Seq<Supplier>) -> Seq<RankKey> {
    Seq::new(rows.len(), |i: int| supplier_key(rows[i]))
}

/// The suppliers by ascending name; of two with the same name the one
/// with the smaller identity is first.
pub open spec fn by_name(rows: Seq<Supplier>) -> Seq<Supplier> {
    arranged(supplier_keys(rows), false).map_values(|i: int| rows[i])
}

/// What the list of suppliers returns: the page brought into range, the
/// count of all suppliers whose name holds the filter, and of those, by
/// name, the ones that fall on the page.
pub open spec fn supplier_listing_is(
    p: Page<Supplier>,
    suppliers: Seq<Supplier>,
    needle: Seq<char>,
    page: Option<i64>,
    page_size: Option<i64>,
) -> bool {
    let rows = suppliers.filter(named_like(needle));
    &&& p.page == normal_page(page)
    &&& p.page_size == normal_page_size(page_size)
    &&& p.total == rows.len()
    &&& p.data@ == page_of(by_name(rows), page_offset(p.page as int, p.page_size as int), p.page_size as int)
}

fn matching_suppliers(suppliers: &Vec<Supplier>, needle: &str) -> (hits: Vec<usize>)
    ensures
        chosen(suppliers@, hits@) == suppliers@.filter(named_like(needle@)),
        forall|j: int| 0 <= j < hits.len() ==> (#[trigger] hits[j]) < suppliers.len(),
{
    let mut hits: Vec<usize> = Vec::new();
    let mut i: usize = 0;
    proof {
        reveal(Seq::filter);
        assert(suppliers@.subrange(0, 0) =~= Seq::<Supplier>::empty());
        assert(chosen(suppliers@, hits@) =~= suppliers@.subrange(0, 0).filter(named_like(needle@)));
    }
    while i < suppliers.len()
        invariant
            i <= suppliers.len(),
            chosen(suppliers@, hits@) == suppliers@.subrange(0, i as int).filter(named_like(needle@)),
            forall|j: int| 0 <= j < hits.len() ==> (#[trigger] hits[j]) < suppliers.len(),
        decreases suppliers.len() - i,
    {
        let ghost before = chosen(suppliers@, hits@);
        proof {
            let head = suppliers@.subrange(0, i as int);
            assert(suppliers@.subrange(0, i + 1) =~= head.push(suppliers@[i as int]));
            head.lemma_filter_push(suppliers@[i as int], named_like(needle@));
        }
        if contains_text(suppliers[i].name.as_str(), needle) {
            hits.push(i);
            assert(chosen(suppliers@, hits@) =~= before.push(suppliers@[i as int]));
        }
        i = i + 1;
    }
    assert(suppliers@.subrange(0, suppliers.len() as int) =~= suppliers@);
    hits
}

fn supplier_sort_keys(suppliers: &Vec<Supplier>, hits: &Vec<usize>) -> (keys: Vec<SortKey>)
    requires
        forall|j: int| 0 <= j < hits.len() ==> (#[trigger] hits[j]) < suppliers.len(),
    ensures
        key_views(keys@) == supplier_keys(chosen(suppliers@, hits@)),
        keys.len() == hits.len(),
{
    let mut keys: Vec<SortKey> = Vec::new();
    let mut j: usize = 0;
    while j < hits.len()
        invariant
            j <= hits.len(),
            keys.len() == j,
            forall|k: int| 0 <= k < hits.len() ==> (#[trigger] hits[k]) < suppliers.len(),
            forall|k: int|
                0 <= k < j ==> (#[trigger] keys[k])@ == supplier_key(suppliers[hits[k] as int]),
        decreases hits.len() - j,
    {
        let s = &suppliers[hits[j]];
        keys.push(SortKey { rank: 0, first: chars_of(s.name.as_str()), second: Vec::new(), id: s.id });
        j = j + 1;
    }
    assert(key_views(keys@) =~= supplier_keys(chosen(suppliers@, hits@)));
    keys
}

fn copy_suppliers(suppliers: &Vec<Supplier>, hits: &Vec<usize>, picks: &Vec<usize>) -> (data: Vec<
    Supplier,
>)
    requires
        forall|j: int| 0 <= j < hits.len() ==> (#[trigger] hits[j]) < suppliers.len(),
        forall|j: int| 0 <= j < picks.len() ==> (#[trigger] picks[j]) < hits.len(),
    ensures
        data@ == positions(picks@).map_values(|i: int| chosen(suppliers@, hits@)[i]),
{
    let mut data: Vec<Supplier> = Vec::new();
    let mut k: usize = 0;
    while k < picks.len()
        invariant
            k <= picks.len(),
            data.len() == k,
            forall|j: int| 0 <= j < hits.len() ==> (#[trigger] hits[j]) < suppliers.len(),
            forall|j: int| 0 <= j < picks.len() ==> (#[trigger] picks[j]) < hits.len(),
            forall|j: int|
                0 <= j < k ==> (#[trigger] data[j]) == suppliers[hits[picks[j] as int] as int],
        decreases picks.len() - k,
    {
        data.push(suppliers[hits[picks[k]]].duplicate());
        k = k + 1;
    }
    assert(data@ =~= positions(picks@).map_values(|i: int| chosen(suppliers@, hits@)[i]));
    data
}

/// Lists the suppliers whose name holds the filter, by name, one page of
/// them, together with the count of all whose name holds it. Letters of
/// either ASCII case are taken as equal. Without a filter, or with an
/// empty one, every supplier is listed.
pub fn get_suppliers(
    db: &Db,
    page: Option<i64>,
    page_size: Option<i64>,
    name_filter: Option<String>,
) -> (r: Result<Page<Supplier>, LedgerError>)
    requires
        db.wf(),
    ensures
        r matches Ok(p) && supplier_listing_is(
            p,
            db@.suppliers,
            needle_of(name_filter),
            page,
            page_size,
        ),
{
    proof {
        db.tables();
    }
    let w = normalize(page, page_size);
    let hits = match &name_filter {
        Some(f) => matching_suppliers(&db.suppliers, f.as_str()),
        None => {
            let none = String::new();
            matching_suppliers(&db.suppliers, none.as_str())
        },
    };
    let keys = supplier_sort_keys(&db.suppliers, &hits);
    let picks = page_positions(&keys, false, w.offset, w.page_size);
    let data = copy_suppliers(&db.suppliers, &hits, &picks);
    proof {
        let rows = chosen(db.suppliers@, hits@);
        page_of_mapped(
            arranged(supplier_keys(rows), false),
            |i: int| rows[i],
            w.offset as int,
            w.page_size as int,
        );
        db@.suppliers.lemma_filter_len(named_like(needle_of(name_filter)));
        assert(rows.len() == hits.len());
        if db@.suppliers.len() > 0 {
            supplier_ids_grow(db@.suppliers, db@.next_supplier, db@.suppliers.len() - 1);
        }
    }
    Ok(Page { data, total: hits.len() as i64, page: w.page, page_size: w.page_size })
}

/// The supplier that a creation payload becomes under the given
/// identity. The flag is held as 1 or 0.
pub open spec fn supplier_of(p: SupplierCreate, id: int) -> Supplier {
    Supplier {
        id: id as i64,
        name: p.name,
        gst_no: p.gst_no,
        state_code: p.state_code,
        tds_flag: if p.tds_flag { 1 } else { 0 },
        tds_rate: p.tds_rate,
        contact: p.contact,
        email: p.email,
    }
}

/// The store after a supplier was created.
pub open spec fn after_add_supplier(t: Tables, p: SupplierCreate) -> Tables {
    Tables {
        suppliers: t.suppliers.push(supplier_of(p, t.next_supplier)),
        next_supplier: t.next_supplier + 1,
        ..t
    }
}

/// A supplier added at the end of its table keeps the rules of the store.
pub proof fn add_supplier_keeps_rules(t: Tables, p: SupplierCreate)
    requires
        consistent(t),
        t.next_supplier < i64::MAX,
    ensures
        consistent(after_add_supplier(t, p)),
{
    let u = after_add_supplier(t, p);
    assert forall|i: int| 0 <= i < u.entries.len() implies has_supplier(
        u.suppliers,
        (#[trigger] u.entries[i]).supplier_id as int,
    ) by {
        let k = choose|k: int|
            0 <= k < t.suppliers.len() && (#[trigger] t.suppliers[k]).id == t.entries[i].supplier_id;
        assert(u.suppliers[k] == t.suppliers[k]);
    }
}

/// Creates a supplier under the next identity of the table and returns
/// it as it is held. It fails only where the table has no identity left.
pub fn add_supplier(db: &mut Db, payload: SupplierCreate) -> (r: Result<Supplier, LedgerError>)
    requires
        old(db).wf(),
    ensures
        final(db).wf(),
        old(db)@.next_supplier >= i64::MAX ==> r == Err::<Supplier, LedgerError>(
            LedgerError::StoreFull,
        ) && final(db)@ == old(db)@,
        old(db)@.next_supplier < i64::MAX ==> r == Ok::<Supplier, LedgerError>(
            supplier_of(payload, old(db)@.next_supplier),
        ) && final(db)@ == after_add_supplier(old(db)@, payload),
{
    proof {
        db.tables();
    }
    if db.next_supplier >= i64::MAX {
        return Err(LedgerError::StoreFull);
    }
    let supplier = Supplier {
        id: db.next_supplier,
        name: payload.name,
        gst_no: payload.gst_no,
        state_code: payload.state_code,
        tds_flag: if payload.tds_flag { 1 } else { 0 },
        tds_rate: payload.tds_rate,
        contact: payload.contact,
        email: payload.email,
    };
    proof {
        add_supplier_keeps_rules(db@, payload);
    }
    db.suppliers.push(supplier.duplicate());
    db.next_supplier = db.next_supplier + 1;
    proof {
        db.tables();
        assert(db@ == after_add_supplier(old(db)@, payload));
    }
    Ok(supplier)
}

/// A supplier with a change laid over it: each field that the change
/// gives is taken from it, every other field stays as it is.
pub open spec fn merged_supplier(s: Supplier, u: SupplierUpdate) -> Supplier {
    Supplier {
        id: s.id,
        name: match u.name { Some(v) => v, None => s.name },
        gst_no: if u.gst_no is Some { u.gst_no } else { s.gst_no },
        state_code: if u.state_code is Some { u.state_code } else { s.state_code },
        tds_flag: match u.tds_flag { Some(b) => if b { 1 } else { 0 }, None => s.tds_flag },
        tds_rate: if u.tds_rate is Some { u.tds_rate } else { s.tds_rate },
        contact: if u.contact is Some { u.contact } else { s.contact },
        email: if u.email is Some { u.email } else { s.email },
    }
}

/// The suppliers with the change laid over the one that it names.
pub open spec fn patched_suppliers(suppliers: Seq<Supplier>, u: SupplierUpdate) -> Seq<Supplier> {
    Seq::new(
        suppliers.len(),
        |i: int| if suppliers[i].id == u.id { merged_supplier(suppliers[i], u) } else { suppliers[i] },
    )
}

/// The supplier of this identity, where one is held.
pub open spec fn supplier_by_id(suppliers: Seq<Supplier>, id: i64) -> Supplier {
    suppliers[choose|i: int| 0 <= i < suppliers.len() && (#[trigger] suppliers[i]).id == id]
}

/// Changes a supplier and returns it as it is held after the change. A
/// supplier that is not held is reported as not found.
pub fn update_supplier(db: &mut Db, payload: SupplierUpdate) -> (r: Result<Supplier, LedgerError>)
    requires
        old(db).wf(),
    ensures
        final(db).wf(),
        !has_supplier(old(db)@.suppliers, payload.id as int) ==> r == Err::<Supplier, LedgerError>(
            LedgerError::NotFound,
        ) && final(db)@ == old(db)@,
        has_supplier(old(db)@.suppliers, payload.id as int) ==> r == Ok::<Supplier, LedgerError>(
            merged_supplier(supplier_by_id(old(db)@.suppliers, payload.id), payload),
        ) && final(db)@ == (Tables {
            suppliers: patched_suppliers(old(db)@.suppliers, payload),
            ..old(db)@
        }),
{
    proof {
        db.tables();
    }
    let k = match db.find_supplier(payload.id) {
        Some(k) => k,
        None => {
            return Err(LedgerError::NotFound);
        },
    };
    let cur = &db.suppliers[k];
    let merged = Supplier {
        id: cur.id,
        name: match &payload.name { Some(v) => v.clone(), None => cur.name.clone() },
        gst_no: if payload.gst_no.is_some() { copy_text(&payload.gst_no) } else { copy_text(&cur.gst_no) },
        state_code: if payload.state_code.is_some() {
            copy_text(&payload.state_code)
        } else {
            copy_text(&cur.state_code)
        },
        tds_flag: match payload.tds_flag { Some(b) => if b { 1 } else { 0 }, None => cur.tds_flag },
        tds_rate: if payload.tds_rate.is_some() { payload.tds_rate } else { cur.tds_rate },
        contact: if payload.contact.is_some() { copy_text(&payload.contact) } else { copy_text(&cur.contact) },
        email: if payload.email.is_some() { copy_text(&payload.email) } else { copy_text(&cur.email) },
    };
    proof {
        let before = old(db)@.suppliers;
        let c = choose|i: int| 0 <= i < before.len() && (#[trigger] before[i]).id == payload.id;
        if c < k {
            assert(before[c].id < before[k as int].id);
        } else if k < c {
            assert(before[k as int].id < before[c].id);
        }
        assert(supplier_by_id(before, payload.id) == before[k as int]);
    }
    db.suppliers.set(k, merged.duplicate());
    proof {
        db.tables();
        let before = old(db)@.suppliers;
        let after = patched_suppliers(before, payload);
        assert forall|i: int| 0 <= i < before.len() implies #[trigger] db@.suppliers[i] == after[i] by {
            if i != k {
                assert(before[i].id != before[k as int].id);
            }
        }
        assert(db@.suppliers =~= after);
        assert forall|i: int| 0 <= i < db@.entries.len() implies has_supplier(
            db@.suppliers,
            (#[trigger] db@.entries[i]).supplier_id as int,
        ) by {
            let m = choose|m: int|
                0 <= m < before.len() && (#[trigger] before[m]).id == db@.entries[i].supplier_id;
            assert(after[m].id == before[m].id);
        }
    }
    Ok(merged)
}

fn in_use(db: &Db, id: i64) -> (r: bool)
    ensures
        r == supplier_in_use(db@.entries, id as int),
{
    proof {
        db.tables();
    }
    let mut i: usize = 0;
    while i < db.entries.len()
        invariant
            i <= db.entries.len(),
            db@.entries == db.entries@,
            forall|j: int| 0 <= j < i ==> (#[trigger] db.entries@[j]).supplier_id != id,
        decreases db.entries.len() - i,
    {
        if db.entries[i].supplier_id == id {
            return true;
        }
        i = i + 1;
    }
    false
}

fn select_other_suppliers(suppliers: &Vec<Supplier>, id: i64) -> (out: Vec<Supplier>)
    ensures
        out@ == suppliers@.filter(other_supplier(id)),
{
    let mut out: Vec<Supplier> = Vec::new();
    let mut i: usize = 0;
    proof {
        reveal(Seq::filter);
        assert(suppliers@.subrange(0, 0) =~= Seq::<Supplier>::empty());
    }
    while i < suppliers.len()
        invariant
            i <= suppliers.len(),
            out@ == suppliers@.subrange(0, i as int).filter(other_supplier(id)),
        decreases suppliers.len() - i,
    {
        proof {
            let head = suppliers@.subrange(0, i as int);
            assert(suppliers@.subrange(0, i + 1) =~= head.push(suppliers@[i as int]));
            head.lemma_filter_push(suppliers@[i as int], other_supplier(id));
        }
        if suppliers[i].id != id {
            out.push(suppliers[i].duplicate());
        }
        i = i + 1;
    }
    assert(suppliers@.subrange(0, suppliers.len() as int) =~= suppliers@);
    out
}

/// Deletes a supplier. A supplier that entries refer to is not deleted:
/// that is a conflict. Otherwise returns whether a supplier was deleted;
/// a supplier that is not held is no failure.
pub fn delete_supplier(db: &mut Db, id: i64) -> (r: Result<bool, LedgerError>)
    requires
        old(db).wf(),
    ensures
        final(db).wf(),
        supplier_in_use(old(db)@.entries, id as int) ==> r == Err::<bool, LedgerError>(
            LedgerError::SupplierInUse,
        ) && final(db)@ == old(db)@,
        !supplier_in_use(old(db)@.entries, id as int) ==> r == Ok::<bool, LedgerError>(
            has_supplier(old(db)@.suppliers, id as int),
        ) && final(db)@ == (Tables {
            suppliers: old(db)@.suppliers.filter(other_supplier(id)),
            ..old(db)@
        }),
{
    proof {
        db.tables();
    }
    if in_use(db, id) {
        return Err(LedgerError::SupplierInUse);
    }
    let found = db.find_supplier(id).is_some();
    let kept = select_other_suppliers(&db.suppliers, id);
    proof {
        let before = old(db)@.suppliers;
        kept_suppliers_in_order(before, old(db)@.next_supplier, other_supplier(id));
        assert forall|i: int| 0 <= i < db@.entries.len() implies has_supplier(
            kept@,
            (#[trigger] db@.entries[i]).supplier_id as int,
        ) by {
            let m = choose|m: int|
                0 <= m < before.len() && (#[trigger] before[m]).id == db@.entries[i].supplier_id;
            before.lemma_filter_contains(other_supplier(id), m);
            let n = choose|n: int| 0 <= n < kept@.len() && kept@[n] == before[m];
            assert(kept@[n].id == db@.entries[i].supplier_id);
        }
    }
    db.suppliers = kept;
    proof {
        db.tables();
    }
    Ok(found)
}

} // verus!
