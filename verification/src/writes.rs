//! Writes of an entry together with its items. Each write either takes
//! place as a whole or leaves the store as it was.
use vstd::prelude::*;
use vstd::string::*;
use crate::error::LedgerError;
use crate::items::select_items;
use crate::models::{PurchaseCreate, PurchaseEntry, PurchaseItem, PurchaseItemPayload, PurchaseUpdate};
use crate::store::{
    consistent, has_entry, has_supplier, kept_entries_in_order, kept_items_in_order, other_entry,
    other_purchase, Db, Tables,
};
use crate::text::copy_text;

verus! {

/// Whether the amount of every line can be resolved.
pub open spec fn amounts_in_range(lines: Seq<PurchaseItemPayload>) -> bool {
    forall|i: int| 0 <= i < lines.len() ==> (#[trigger] lines[i]).amount_of() is Some
}

/// The item that a line becomes under the given identity and entry. Its
/// amount is the amount that the line resolves to.
pub open spec fn item_of(line: PurchaseItemPayload, id: int, purchase_id: int) -> PurchaseItem {
    PurchaseItem {
        id: id as i64,
        purchase_id: purchase_id as i64,
        part_no: line.part_no,
        description: line.description,
        qty: line.qty,
        unit: line.unit,
        price: line.price,
        amount: line.amount_of().unwrap() as i64,
    }
}

/// The items that a list of lines becomes: one for each line, in order,
/// with consecutive identities from `first_id` on.
pub open spec fn items_of(lines: Seq<PurchaseItemPayload>, first_id: int, purchase_id: int) -> Seq<
    PurchaseItem,
> {
    Seq::new(lines.len(), |i: int| item_of(lines[i], first_id + i, purchase_id))
}

/// The entry that a creation payload becomes under the given identity.
/// Where the payload names no time of logging, `now` is taken.
pub open spec fn entry_of(p: PurchaseCreate, id: int, now: String) -> PurchaseEntry {
    PurchaseEntry {
        id: id as i64,
        supplier_id: p.supplier_id,
        invoice_no: p.invoice_no,
        date: p.date,
        entry_date: match p.entry_date {
            Some(d) => d,
            None => now,
        },
        gst_rate: p.gst_rate,
        basic_value: p.basic_value,
        sgst: p.sgst,
        cgst: p.cgst,
        igst: p.igst,
        invoice_value: p.invoice_value,
        tds_value: p.tds_value,
        narration: p.narration,
        status: p.status,
    }
}

/// Why a creation is refused, if it is: the supplier is not held; or the
/// amount of a line is out of range; or a table has no identity left.
pub open spec fn create_refusal(t: Tables, p: PurchaseCreate) -> Option<LedgerError> {
    if !has_supplier(t.suppliers, p.supplier_id as int) {
        Some(LedgerError::UnknownSupplier)
    } else if !amounts_in_range(p.items@) {
        Some(LedgerError::AmountOutOfRange)
    } else if t.next_entry >= i64::MAX || t.next_item + p.items@.len() > i64::MAX {
        Some(LedgerError::StoreFull)
    } else {
        None
    }
}

/// The store after a creation that is not refused: the entry stands at
/// the end of its table, its items at the end of theirs.
pub open spec fn after_create(t: Tables, p: PurchaseCreate, now: String) -> Tables {
    Tables {
        entries: t.entries.push(entry_of(p, t.next_entry, now)),
        items: t.items + items_of(p.items@, t.next_item, t.next_entry),
        next_entry: t.next_entry + 1,
        next_item: t.next_item + p.items@.len(),
        ..t
    }
}

/// Resolves the amounts of all lines, or reports the first kind of
/// failure.
pub(crate) fn resolve_amounts(lines: &Vec<PurchaseItemPayload>) -> (r: Option<Vec<i64>>)
    ensures
        match r {
            Some(a) => amounts_in_range(lines@) && a.len() == lines.len() && forall|i: int|
                0 <= i < lines.len() ==> (#[trigger] lines[i]).amount_of() == Some(a[i] as int),
            None => !amounts_in_range(lines@),
        },
{
    let mut amounts: Vec<i64> = Vec::new();
    let mut i: usize = 0;
    while i < lines.len()
        invariant
            i <= lines.len(),
            amounts.len() == i,
            forall|j: int| 0 <= j < i ==> (#[trigger] lines[j]).amount_of() == Some(amounts[j] as int),
        decreases lines.len() - i,
    {
        match lines[i].resolve_amount() {
            Ok(a) => amounts.push(a),
            Err(_) => {
                assert(lines@[i as int].amount_of() is None);
                return None;
            },
        }
        i = i + 1;
    }
    Some(amounts)
}

/// Builds the items of the lines with their resolved amounts.
pub(crate) fn build_items(
    lines: &Vec<PurchaseItemPayload>,
    amounts: &Vec<i64>,
    first_id: i64,
    purchase_id: i64,
) -> (items: Vec<PurchaseItem>)
    requires
        amounts.len() == lines.len(),
        0 <= first_id,
        first_id + lines.len() <= i64::MAX,
        forall|i: int| 0 <= i < lines.len() ==> (#[trigger] lines[i]).amount_of() == Some(amounts[i] as int),
    ensures
        items@ == items_of(lines@, first_id as int, purchase_id as int),
{
    let mut items: Vec<PurchaseItem> = Vec::new();
    let mut i: usize = 0;
    while i < lines.len()
        invariant
            i <= lines.len(),
            items.len() == i,
            amounts.len() == lines.len(),
            0 <= first_id,
            first_id + lines.len() <= i64::MAX,
            forall|j: int|
                0 <= j < lines.len() ==> (#[trigger] lines[j]).amount_of() == Some(amounts[j] as int),
            forall|j: int|
                0 <= j < i ==> (#[trigger] items[j]) == item_of(
                    lines[j],
                    first_id + j,
                    purchase_id as int,
                ),
        decreases lines.len() - i,
    {
        let line = &lines[i];
        items.push(
            PurchaseItem {
                id: first_id + i as i64,
                purchase_id,
                part_no: copy_text(&line.part_no),
                description: line.description.clone(),
                qty: line.qty,
                unit: copy_text(&line.unit),
                price: line.price,
                amount: amounts[i],
            },
        );
        i = i + 1;
    }
    assert(items@ =~= items_of(lines@, first_id as int, purchase_id as int));
    items
}

/// An entry added at the end of its table, and items of it added at the
/// end of theirs, keep the rules of the store.
pub proof fn create_keeps_rules(t: Tables, p: PurchaseCreate, now: String)
    requires
        consistent(t),
        create_refusal(t, p) is None,
    ensures
        consistent(after_create(t, p, now)),
{
    let u = after_create(t, p, now);
    let e = entry_of(p, t.next_entry, now);
    assert(u.entries[t.entries.len() as int] == e);
    assert forall|i: int| 0 <= i < u.entries.len() implies has_supplier(
        u.suppliers,
        (#[trigger] u.entries[i]).supplier_id as int,
    ) by {
        if i < t.entries.len() {
            assert(u.entries[i] == t.entries[i]);
        }
    }
    assert forall|i: int| 0 <= i < u.items.len() implies has_entry(
        u.entries,
        (#[trigger] u.items[i]).purchase_id as int,
    ) by {
        if i < t.items.len() {
            assert(u.items[i] == t.items[i]);
            let k = choose|k: int|
                0 <= k < t.entries.len() && (#[trigger] t.entries[k]).id == t.items[i].purchase_id;
            assert(u.entries[k] == t.entries[k]);
        } else {
            assert(u.entries[t.entries.len() as int].id == t.next_entry);
        }
    }
}

/// Creates an entry together with its items. The entry gets the next
/// identity of its table and each item the next of theirs; an item
/// without an amount gets quantity times price. Returns the entry as it
/// is held. A refused creation leaves the store as it was.
pub fn add_purchase(db: &mut Db, payload: PurchaseCreate, now: String) -> (r: Result<
    PurchaseEntry,
    LedgerError,
>)
    requires
        old(db).wf(),
    ensures
        final(db).wf(),
        match create_refusal(old(db)@, payload) {
            Some(e) => r == Err::<PurchaseEntry, LedgerError>(e) && final(db)@ == old(db)@,
            None => r == Ok::<PurchaseEntry, LedgerError>(
                entry_of(payload, old(db)@.next_entry, now),
            ) && final(db)@ == after_create(old(db)@, payload, now),
        },
{
    proof {
        db.tables();
    }
    if db.find_supplier(payload.supplier_id).is_none() {
        return Err(LedgerError::UnknownSupplier);
    }
    let amounts = match resolve_amounts(&payload.items) {
        Some(a) => a,
        None => {
            return Err(LedgerError::AmountOutOfRange);
        },
    };
    if db.next_entry >= i64::MAX || payload.items.len() as u128 > (i64::MAX - db.next_item) as u128 {
        return Err(LedgerError::StoreFull);
    }
    let id = db.next_entry;
    let mut items = build_items(&payload.items, &amounts, db.next_item, id);
    let count = payload.items.len() as i64;
    let ghost lines = payload.items@;
    let entry = PurchaseEntry {
        id,
        supplier_id: payload.supplier_id,
        invoice_no: payload.invoice_no,
        date: payload.date,
        entry_date: match payload.entry_date {
            Some(d) => d,
            None => now,
        },
        gst_rate: payload.gst_rate,
        basic_value: payload.basic_value,
        sgst: payload.sgst,
        cgst: payload.cgst,
        igst: payload.igst,
        invoice_value: payload.invoice_value,
        tds_value: payload.tds_value,
        narration: payload.narration,
        status: payload.status,
    };
    let held = entry.duplicate();
    proof {
        create_keeps_rules(old(db)@, payload, now);
    }
    db.entries.push(held);
    db.items.append(&mut items);
    db.next_entry = db.next_entry + 1;
    db.next_item = db.next_item + count;
    proof {
        db.tables();
        assert(db@ == after_create(old(db)@, payload, now));
    }
    Ok(entry)
}

/// An entry with a change laid over it: each field that the change
/// gives is taken from it, every other field stays as it is.
pub open spec fn merged_entry(e: PurchaseEntry, u: PurchaseUpdate) -> PurchaseEntry {
    PurchaseEntry {
        id: e.id,
        supplier_id: match u.supplier_id { Some(v) => v, None => e.supplier_id },
        invoice_no: match u.invoice_no { Some(v) => v, None => e.invoice_no },
        date: match u.date { Some(v) => v, None => e.date },
        entry_date: match u.entry_date { Some(v) => v, None => e.entry_date },
        gst_rate: match u.gst_rate { Some(v) => v, None => e.gst_rate },
        basic_value: match u.basic_value { Some(v) => v, None => e.basic_value },
        sgst: match u.sgst { Some(v) => v, None => e.sgst },
        cgst: match u.cgst { Some(v) => v, None => e.cgst },
        igst: match u.igst { Some(v) => v, None => e.igst },
        invoice_value: match u.invoice_value { Some(v) => v, None => e.invoice_value },
        tds_value: match u.tds_value { Some(v) => v, None => e.tds_value },
        narration: if u.narration is Some { u.narration } else { e.narration },
        status: match u.status { Some(v) => v, None => e.status },
    }
}

/// The entries with the change laid over the one that it names.
pub open spec fn patched_entries(entries: Seq<PurchaseEntry>, u: PurchaseUpdate) -> Seq<
    PurchaseEntry,
> {
    Seq::new(
        entries.len(),
        |i: int| if entries[i].id == u.id { merged_entry(entries[i], u) } else { entries[i] },
    )
}

/// The entry of this identity, where one is held.
pub open spec fn entry_by_id(entries: Seq<PurchaseEntry>, id: i64) -> PurchaseEntry {
    entries[choose|i: int| 0 <= i < entries.len() && (#[trigger] entries[i]).id == id]
}

/// Why an update is refused, if it is: the entry is not held; or the
/// supplier that it is to get is not held; or the amount of a line is out
/// of range; or the table of items has no identity left.
pub open spec fn update_refusal(t: Tables, u: PurchaseUpdate) -> Option<LedgerError> {
    if !has_entry(t.entries, u.id as int) {
        Some(LedgerError::NotFound)
    } else if u.supplier_id matches Some(s) && !has_supplier(t.suppliers, s as int) {
        Some(LedgerError::UnknownSupplier)
    } else if u.items matches Some(lines) && !amounts_in_range(lines@) {
        Some(LedgerError::AmountOutOfRange)
    } else if u.items matches Some(lines) && t.next_item + lines@.len() > i64::MAX {
        Some(LedgerError::StoreFull)
    } else {
        None
    }
}

/// The store after an update that is not refused. Where the update
/// gives items, even none, they take the place of all items of the entry;
/// where it gives no list of items, the items stay as they are.
pub open spec fn after_update(t: Tables, u: PurchaseUpdate) -> Tables {
    match u.items {
        Some(lines) => Tables {
            entries: patched_entries(t.entries, u),
            items: t.items.filter(other_purchase(u.id)) + items_of(lines@, t.next_item, u.id as int),
            next_item: t.next_item + lines@.len(),
            ..t
        },
        None => Tables { entries: patched_entries(t.entries, u), ..t },
    }
}

/// An update that is not refused keeps the rules of the store.
pub proof fn update_keeps_rules(t: Tables, u: PurchaseUpdate)
    requires
        consistent(t),
        update_refusal(t, u) is None,
    ensures
        consistent(after_update(t, u)),
{
    let v = after_update(t, u);
    assert forall|i: int| 0 <= i < v.entries.len() implies has_supplier(
        v.suppliers,
        (#[trigger] v.entries[i]).supplier_id as int,
    ) by {
        assert(has_supplier(t.suppliers, t.entries[i].supplier_id as int));
    }
    let at = choose|i: int| 0 <= i < t.entries.len() && (#[trigger] t.entries[i]).id == u.id;
    assert(v.entries[at].id == u.id);
    match u.items {
        Some(lines) => {
            let kept = t.items.filter(other_purchase(u.id));
            let fresh = items_of(lines@, t.next_item, u.id as int);
            kept_items_in_order(t.items, t.next_item, other_purchase(u.id));
            assert forall|i: int| 0 <= i < v.items.len() implies has_entry(
                v.entries,
                (#[trigger] v.items[i]).purchase_id as int,
            ) by {
                if i < kept.len() {
                    assert(v.items[i] == kept[i]);
                    let m = choose|m: int| 0 <= m < t.items.len() && t.items[m] == kept[i];
                    let k = choose|k: int|
                        0 <= k < t.entries.len() && (#[trigger] t.entries[k]).id
                            == t.items[m].purchase_id;
                    assert(v.entries[k].id == t.entries[k].id);
                } else {
                    assert(v.items[i] == fresh[i - kept.len()]);
                }
            }
            assert forall|i: int, j: int| 0 <= i < j < v.items.len() implies (#[trigger] v.items[i]).id
                < (#[trigger] v.items[j]).id by {
                if j < kept.len() {
                    assert(v.items[i] == kept[i] && v.items[j] == kept[j]);
                } else if i < kept.len() {
                    assert(v.items[i] == kept[i] && v.items[j] == fresh[j - kept.len()]);
                } else {
                    assert(v.items[i] == fresh[i - kept.len()] && v.items[j] == fresh[j - kept.len()]);
                }
            }
            assert forall|i: int| 0 <= i < v.items.len() implies 1 <= (#[trigger] v.items[i]).id
                < v.next_item by {
                if i < kept.len() {
                    assert(v.items[i] == kept[i]);
                } else {
                    assert(v.items[i] == fresh[i - kept.len()]);
                }
            }
        },
        None => {
            assert forall|i: int| 0 <= i < v.items.len() implies has_entry(
                v.entries,
                (#[trigger] v.items[i]).purchase_id as int,
            ) by {
                let k = choose|k: int|
                    0 <= k < t.entries.len() && (#[trigger] t.entries[k]).id == t.items[i].purchase_id;
                assert(v.entries[k].id == t.entries[k].id);
            }
        },
    }
}

/// Lays a change over an entry.
pub(crate) fn merge_entry(e: &PurchaseEntry, u: &PurchaseUpdate) -> (r: PurchaseEntry)
    ensures
        r == merged_entry(*e, *u),
{
    PurchaseEntry {
        id: e.id,
        supplier_id: match u.supplier_id { Some(v) => v, None => e.supplier_id },
        invoice_no: match &u.invoice_no { Some(v) => v.clone(), None => e.invoice_no.clone() },
        date: match &u.date { Some(v) => v.clone(), None => e.date.clone() },
        entry_date: match &u.entry_date { Some(v) => v.clone(), None => e.entry_date.clone() },
        gst_rate: match u.gst_rate { Some(v) => v, None => e.gst_rate },
        basic_value: match u.basic_value { Some(v) => v, None => e.basic_value },
        sgst: match u.sgst { Some(v) => v, None => e.sgst },
        cgst: match u.cgst { Some(v) => v, None => e.cgst },
        igst: match u.igst { Some(v) => v, None => e.igst },
        invoice_value: match u.invoice_value { Some(v) => v, None => e.invoice_value },
        tds_value: match u.tds_value { Some(v) => v, None => e.tds_value },
        narration: if u.narration.is_some() { copy_text(&u.narration) } else { copy_text(&e.narration) },
        status: match &u.status { Some(v) => v.clone(), None => e.status.clone() },
    }
}

/// Changes an entry and, where the change gives a list of items, puts
/// that list in the place of all items of the entry. Returns the entry as
/// it is held after the change. An entry that is not held is reported as
/// not found. A refused update leaves the store as it was.
pub fn update_purchase(db: &mut Db, payload: PurchaseUpdate) -> (r: Result<PurchaseEntry, LedgerError>)
    requires
        old(db).wf(),
    ensures
        final(db).wf(),
        match update_refusal(old(db)@, payload) {
            Some(e) => r == Err::<PurchaseEntry, LedgerError>(e) && final(db)@ == old(db)@,
            None => r == Ok::<PurchaseEntry, LedgerError>(
                merged_entry(entry_by_id(old(db)@.entries, payload.id), payload),
            ) && final(db)@ == after_update(old(db)@, payload),
        },
{
    proof {
        db.tables();
    }
    let k = match db.find_entry(payload.id) {
        Some(k) => k,
        None => {
            return Err(LedgerError::NotFound);
        },
    };
    if let Some(s) = payload.supplier_id {
        if db.find_supplier(s).is_none() {
            return Err(LedgerError::UnknownSupplier);
        }
    }
    let mut replaced: Option<Vec<PurchaseItem>> = None;
    let mut count: i64 = 0;
    if let Some(lines) = &payload.items {
        let amounts = match resolve_amounts(lines) {
            Some(a) => a,
            None => {
                return Err(LedgerError::AmountOutOfRange);
            },
        };
        if lines.len() as u128 > (i64::MAX - db.next_item) as u128 {
            return Err(LedgerError::StoreFull);
        }
        let mut fresh = build_items(lines, &amounts, db.next_item, payload.id);
        let mut all = select_items(&db.items, payload.id, false);
        all.append(&mut fresh);
        count = lines.len() as i64;
        replaced = Some(all);
    }
    let merged = merge_entry(&db.entries[k], &payload);
    proof {
        update_keeps_rules(old(db)@, payload);
        let before = old(db)@.entries;
        let c = choose|i: int| 0 <= i < before.len() && (#[trigger] before[i]).id == payload.id;
        if c < k {
            assert(before[c].id < before[k as int].id);
        } else if k < c {
            assert(before[k as int].id < before[c].id);
        }
        assert(entry_by_id(before, payload.id) == before[k as int]);
    }
    db.entries.set(k, merged.duplicate());
    if let Some(all) = replaced {
        db.items = all;
        db.next_item = db.next_item + count;
    }
    proof {
        db.tables();
        let before = old(db)@.entries;
        let after = patched_entries(before, payload);
        assert forall|i: int| 0 <= i < before.len() implies #[trigger] db@.entries[i] == after[i] by {
            if i != k {
                assert(before[i].id != before[k as int].id);
            }
        }
        assert(db@.entries =~= after);
        assert(db@ == after_update(old(db)@, payload));
    }
    Ok(merged)
}

/// The store after the entry of this identity and all its items were
/// taken out.
pub open spec fn after_delete(t: Tables, id: i64) -> Tables {
    Tables {
        entries: t.entries.filter(other_entry(id)),
        items: t.items.filter(other_purchase(id)),
        ..t
    }
}

/// Taking out an entry with its items keeps the rules of the store.
pub proof fn delete_keeps_rules(t: Tables, id: i64)
    requires
        consistent(t),
    ensures
        consistent(after_delete(t, id)),
{
    let v = after_delete(t, id);
    kept_entries_in_order(t.entries, t.next_entry, other_entry(id));
    kept_items_in_order(t.items, t.next_item, other_purchase(id));
    assert forall|i: int| 0 <= i < v.entries.len() implies has_supplier(
        v.suppliers,
        (#[trigger] v.entries[i]).supplier_id as int,
    ) by {
        let m = choose|m: int| 0 <= m < t.entries.len() && t.entries[m] == v.entries[i];
        assert(has_supplier(t.suppliers, t.entries[m].supplier_id as int));
    }
    assert forall|i: int| 0 <= i < v.items.len() implies has_entry(
        v.entries,
        (#[trigger] v.items[i]).purchase_id as int,
    ) by {
        let m = choose|m: int| 0 <= m < t.items.len() && t.items[m] == v.items[i];
        let k = choose|k: int|
            0 <= k < t.entries.len() && (#[trigger] t.entries[k]).id == t.items[m].purchase_id;
        t.entries.lemma_filter_contains(other_entry(id), k);
        let n = choose|n: int| 0 <= n < v.entries.len() && v.entries[n] == t.entries[k];
        assert(v.entries[n].id == t.items[m].purchase_id);
    }
}

/// Copies of the entries other than the one of this identity.
pub(crate) fn select_other_entries(entries: &Vec<PurchaseEntry>, id: i64) -> (out: Vec<PurchaseEntry>)
    ensures
        out@ == entries@.filter(other_entry(id)),
{
    let mut out: Vec<PurchaseEntry> = Vec::new();
    let mut i: usize = 0;
    proof {
        reveal(Seq::filter);
        assert(entries@.subrange(0, 0) =~= Seq::<PurchaseEntry>::empty());
    }
    while i < entries.len()
        invariant
            i <= entries.len(),
            out@ == entries@.subrange(0, i as int).filter(other_entry(id)),
        decreases entries.len() - i,
    {
        proof {
            let head = entries@.subrange(0, i as int);
            assert(entries@.subrange(0, i + 1) =~= head.push(entries@[i as int]));
            head.lemma_filter_push(entries@[i as int], other_entry(id));
        }
        if entries[i].id != id {
            out.push(entries[i].duplicate());
        }
        i = i + 1;
    }
    assert(entries@.subrange(0, entries.len() as int) =~= entries@);
    out
}

/// Deletes an entry and, with it, its items. Returns whether an entry
/// was deleted; an entry that is not held is no failure.
pub fn delete_purchase(db: &mut Db, id: i64) -> (r: Result<bool, LedgerError>)
    requires
        old(db).wf(),
    ensures
        final(db).wf(),
        r == Ok::<bool, LedgerError>(has_entry(old(db)@.entries, id as int)),
        final(db)@ == after_delete(old(db)@, id),
{
    proof {
        db.tables();
        delete_keeps_rules(db@, id);
    }
    let found = db.find_entry(id).is_some();
    let entries = select_other_entries(&db.entries, id);
    let items = select_items(&db.items, id, false);
    db.entries = entries;
    db.items = items;
    proof {
        db.tables();
        assert(db@ == after_delete(old(db)@, id));
    }
    Ok(found)
}

} // verus!
