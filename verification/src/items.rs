//! The items of an entry, read as a list and written one at a time.
use vstd::prelude::*;
use vstd::string::*;
use crate::error::LedgerError;
use crate::models::{PurchaseItem, PurchaseItemPayload};
use crate::store::{consistent, has_entry, of_purchase, other_purchase, Db, Tables};
use crate::text::copy_text;
use crate::writes::item_of;

verus! {

/// Copies of the items of one entry, or of all other entries, in the
/// order of the table.
pub(crate) fn select_items(items: &Vec<PurchaseItem>, purchase_id: i64, own: bool) -> (out: Vec<
    PurchaseItem,
>)
    ensures
        own ==> out@ == items@.filter(of_purchase(purchase_id)),
        !own ==> out@ == items@.filter(other_purchase(purchase_id)),
{
    let mut out: Vec<PurchaseItem> = Vec::new();
    let mut i: usize = 0;
    let ghost keep = if own { of_purchase(purchase_id) } else { other_purchase(purchase_id) };
    proof {
        reveal(Seq::filter);
        assert(items@.subrange(0, 0) =~= Seq::<PurchaseItem>::empty());
    }
    while i < items.len()
        invariant
            i <= items.len(),
            keep == if own { of_purchase(purchase_id) } else { other_purchase(purchase_id) },
            out@ == items@.subrange(0, i as int).filter(keep),
        decreases items.len() - i,
    {
        proof {
            let head = items@.subrange(0, i as int);
            assert(items@.subrange(0, i + 1) =~= head.push(items@[i as int]));
            head.lemma_filter_push(items@[i as int], keep);
        }
        if (items[i].purchase_id == purchase_id) == own {
            out.push(items[i].duplicate());
        }
        i = i + 1;
    }
    assert(items@.subrange(0, items.len() as int) =~= items@);
    out
}

/// The items of an entry in the order of their identities. An entry
/// that is not held has none.
pub fn get_items_by_purchase(db: &Db, purchase_id: i64) -> (r: Result<Vec<PurchaseItem>, LedgerError>)
    requires
        db.wf(),
    ensures
        r matches Ok(items) && items@ == db@.items.filter(of_purchase(purchase_id)),
{
    proof {
        db.tables();
    }
    Ok(select_items(&db.items, purchase_id, true))
}

/// Why a single item is refused, if it is: its entry is not held; or its
/// amount is out of range; or the table has no identity left.
pub open spec fn item_refusal(t: Tables, purchase_id: i64, line: PurchaseItemPayload) -> Option<
    LedgerError,
> {
    if !has_entry(t.entries, purchase_id as int) {
        Some(LedgerError::UnknownPurchase)
    } else if line.amount_of() is None {
        Some(LedgerError::AmountOutOfRange)
    } else if t.next_item >= i64::MAX {
        Some(LedgerError::StoreFull)
    } else {
        None
    }
}

/// The store after a single item was added to an entry.
pub open spec fn after_add_item(t: Tables, purchase_id: i64, line: PurchaseItemPayload) -> Tables {
    Tables {
        items: t.items.push(item_of(line, t.next_item, purchase_id as int)),
        next_item: t.next_item + 1,
        ..t
    }
}

/// Adds one item to an entry that is held. An item without an amount
/// gets quantity times price.
pub fn add_item(db: &mut Db, purchase_id: i64, item: PurchaseItemPayload) -> (r: Result<
    bool,
    LedgerError,
>)
    requires
        old(db).wf(),
    ensures
        final(db).wf(),
        match item_refusal(old(db)@, purchase_id, item) {
            Some(e) => r == Err::<bool, LedgerError>(e) && final(db)@ == old(db)@,
            None => r == Ok::<bool, LedgerError>(true) && final(db)@ == after_add_item(
                old(db)@,
                purchase_id,
                item,
            ),
        },
{
    proof {
        db.tables();
    }
    if db.find_entry(purchase_id).is_none() {
        return Err(LedgerError::UnknownPurchase);
    }
    let amount = match item.resolve_amount() {
        Ok(a) => a,
        Err(e) => {
            return Err(e);
        },
    };
    if db.next_item >= i64::MAX {
        return Err(LedgerError::StoreFull);
    }
    let held = PurchaseItem {
        id: db.next_item,
        purchase_id,
        part_no: item.part_no,
        description: item.description,
        qty: item.qty,
        unit: item.unit,
        price: item.price,
        amount,
    };
    db.items.push(held);
    db.next_item = db.next_item + 1;
    proof {
        db.tables();
        let u = after_add_item(old(db)@, purchase_id, item);
        assert(db@ == u);
        assert forall|i: int| 0 <= i < u.items.len() implies has_entry(
            u.entries,
            (#[trigger] u.items[i]).purchase_id as int,
        ) by {
            if i < old(db)@.items.len() {
                assert(u.items[i] == old(db)@.items[i]);
            }
        }
    }
    Ok(true)
}

/// An item with a line laid over it: description, quantity and price are
/// taken from the line; part number, unit and amount are taken from the
/// line where it gives them and stay as they are where it does not.
pub open spec fn merged_item(it: PurchaseItem, line: PurchaseItemPayload) -> PurchaseItem {
    PurchaseItem {
        id: it.id,
        purchase_id: it.purchase_id,
        part_no: if line.part_no is Some { line.part_no } else { it.part_no },
        description: line.description,
        qty: line.qty,
        unit: if line.unit is Some { line.unit } else { it.unit },
        price: line.price,
        amount: match line.amount {
            Some(a) => a,
            None => it.amount,
        },
    }
}

/// The items with the line laid over the one of this identity.
pub open spec fn patched_items(items: Seq<PurchaseItem>, id: i64, line: PurchaseItemPayload) -> Seq<
    PurchaseItem,
> {
    Seq::new(
        items.len(),
        |i: int| if items[i].id == id { merged_item(items[i], line) } else { items[i] },
    )
}

/// Changes one item in place. Where no item has this identity nothing
/// changes; that is not a failure.
pub fn update_item(db: &mut Db, id: i64, item: PurchaseItemPayload) -> (r: Result<bool, LedgerError>)
    requires
        old(db).wf(),
    ensures
        final(db).wf(),
        r == Ok::<bool, LedgerError>(true),
        final(db)@ == (Tables { items: patched_items(old(db)@.items, id, item), ..old(db)@ }),
{
    proof {
        db.tables();
    }
    match db.find_item(id) {
        None => {
            assert(patched_items(db@.items, id, item) =~= db@.items);
        },
        Some(k) => {
            let cur = &db.items[k];
            let held = PurchaseItem {
                id: cur.id,
                purchase_id: cur.purchase_id,
                part_no: if item.part_no.is_some() { item.part_no } else { copy_text(&cur.part_no) },
                description: item.description,
                qty: item.qty,
                unit: if item.unit.is_some() { item.unit } else { copy_text(&cur.unit) },
                price: item.price,
                amount: match item.amount {
                    Some(a) => a,
                    None => cur.amount,
                },
            };
            db.items.set(k, held);
            proof {
                db.tables();
                let before = old(db)@.items;
                let after = patched_items(before, id, item);
                assert forall|i: int| 0 <= i < before.len() implies #[trigger] db@.items[i]
                    == after[i] by {
                    if i != k {
                        assert(before[i].id != before[k as int].id);
                    }
                }
                assert(db@.items =~= after);
                assert forall|i: int| 0 <= i < after.len() implies has_entry(
                    db@.entries,
                    (#[trigger] db@.items[i]).purchase_id as int,
                ) by {
                    assert(after[i].purchase_id == before[i].purchase_id);
                }
            }
        },
    }
    Ok(true)
}

} // verus!
