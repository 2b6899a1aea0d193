//! What holds of the ledger whatever it holds and whatever is asked of
//! it. Each law is stated over the same definitions as the contracts of
//! the operations.
use vstd::prelude::*;
use crate::filters::{all_hold, passing, Predicate};
use crate::models::{
    Page, PurchaseCreate, PurchaseEntry, PurchaseItem, PurchaseUpdate, ReportSummary,
};
use crate::order::{
    arranged, arranged_holds_each, arranged_is_sorted, arrangement_is_unique, holds_each, key_le,
    page_of,
};
use crate::pagination::{normal_page, normal_page_size, page_offset};
use crate::purchases::{entry_key, entry_keys, listing_is, recent_first};
use crate::reports::{fits, item_of_rows, summary_is, suppliers_of, total_of, Amount};
use crate::sheet::{data_rows, is_named, named, records_of, Cell};
use crate::store::{consistent, has_entry, of_purchase, other_purchase, Tables};
use crate::writes::{
    after_create, after_update, create_refusal, items_of, merged_entry, patched_entries,
    update_refusal,
};

verus! {

/// A test that holds of no row keeps none.
pub proof fn keeps_none<T>(rows: Seq<T>, keep: spec_fn(T) -> bool)
    requires
        forall|i: int| 0 <= i < rows.len() ==> !keep(#[trigger] rows[i]),
    ensures
        rows.filter(keep) == Seq::<T>::empty(),
    decreases rows.len(),
{
    reveal(Seq::filter);
    if rows.len() > 0 {
        let rest = rows.drop_last();
        assert forall|i: int| 0 <= i < rest.len() implies !keep(#[trigger] rest[i]) by {
            assert(rest[i] == rows[i]);
        }
        keeps_none(rest, keep);
        assert(!keep(rows[rows.len() - 1]));
    }
    assert(rows.filter(keep) =~= Seq::<T>::empty());
}

/// A test that holds of every row keeps all.
pub proof fn keeps_all<T>(rows: Seq<T>, keep: spec_fn(T) -> bool)
    requires
        forall|i: int| 0 <= i < rows.len() ==> keep(#[trigger] rows[i]),
    ensures
        rows.filter(keep) == rows,
    decreases rows.len(),
{
    reveal(Seq::filter);
    if rows.len() > 0 {
        let rest = rows.drop_last();
        assert forall|i: int| 0 <= i < rest.len() implies keep(#[trigger] rest[i]) by {
            assert(rest[i] == rows[i]);
        }
        keeps_all(rest, keep);
        assert(keep(rows[rows.len() - 1]));
        assert(rest.push(rows.last()) =~= rows);
    }
}

/// A page request is always brought into range: the page is at least 1,
/// the size lies within 1 and 200, and the offset is the rows of the
/// pages before.
pub proof fn window_is_in_range(page: Option<i64>, page_size: Option<i64>)
    ensures
        normal_page(page) >= 1,
        1 <= normal_page_size(page_size) <= 200,
        page_offset(normal_page(page), normal_page_size(page_size)) == (normal_page(page) - 1)
            * normal_page_size(page_size),
        page_offset(normal_page(page), normal_page_size(page_size)) >= 0,
{
    assert((normal_page(page) - 1) * normal_page_size(page_size) >= 0) by (nonlinear_arith)
        requires
            normal_page(page) >= 1,
            normal_page_size(page_size) >= 1,
    ;
}

/// The count of a listing is the number of entries that meet the
/// conditions, whatever page is asked for: two listings of the same
/// store under the same conditions report the same count.
pub proof fn total_ignores_page(
    entries: Seq<PurchaseEntry>,
    ps: Seq<Predicate>,
    first: Page<PurchaseEntry>,
    first_page: Option<i64>,
    first_size: Option<i64>,
    second: Page<PurchaseEntry>,
    second_page: Option<i64>,
    second_size: Option<i64>,
)
    requires
        listing_is(first, entries, ps, first_page, first_size),
        listing_is(second, entries, ps, second_page, second_size),
    ensures
        first.total == second.total,
        first.total == entries.filter(passing(ps)).len(),
{
}

/// Every row of a listing is an entry of the store that meets all the
/// conditions by which the count was taken, and a page holds as many rows
/// as are left of the count from its offset on, its size at most.
pub proof fn listed_rows_are_counted(
    entries: Seq<PurchaseEntry>,
    ps: Seq<Predicate>,
    listing: Page<PurchaseEntry>,
    page: Option<i64>,
    page_size: Option<i64>,
)
    requires
        listing_is(listing, entries, ps, page, page_size),
    ensures
        forall|k: int|
            0 <= k < listing.data@.len() ==> entries.contains(#[trigger] listing.data@[k]) && all_hold(
                ps,
                listing.data@[k],
            ),
        ({
            let offset = page_offset(listing.page as int, listing.page_size as int);
            let left = listing.total - offset;
            listing.data@.len() == if left <= 0 {
                0
            } else if left < listing.page_size {
                left
            } else {
                listing.page_size as int
            }
        }),
{
    let rows = entries.filter(passing(ps));
    let ranked = recent_first(rows);
    let offset = page_offset(listing.page as int, listing.page_size as int);
    window_is_in_range(page, page_size);
    arranged_holds_each(entry_keys(rows), true);
    let order = arranged(entry_keys(rows), true);
    assert(ranked.len() == rows.len());
    assert forall|k: int| 0 <= k < listing.data@.len() implies entries.contains(
        #[trigger] listing.data@[k],
    ) && all_hold(ps, listing.data@[k]) by {
        let e = listing.data@[k];
        assert(e == ranked[offset + k]);
        let at = order[offset + k];
        assert(e == rows[at]);
        entries.lemma_filter_pred(passing(ps), at);
        assert(rows.contains(e));
        entries.lemma_filter_contains_rev(passing(ps), e);
    }
}

/// A listing serves each entry that meets the conditions once, and it
/// serves them most recent first: of two rows the one that is served
/// first was logged later, or at the same time with the later business
/// date, or with both the same and the greater identity.
pub proof fn listing_is_most_recent_first(rows: Seq<PurchaseEntry>, i: int, j: int)
    requires
        0 <= i < j < rows.len(),
    ensures
        recent_first(rows).len() == rows.len(),
        holds_each(arranged(entry_keys(rows), true), rows.len() as int),
        key_le(entry_key(recent_first(rows)[j]), entry_key(recent_first(rows)[i])),
{
    let keys = entry_keys(rows);
    arranged_holds_each(keys, true);
    arranged_is_sorted(keys, true, i, j);
    let order = arranged(keys, true);
    assert(keys[order[i]] == entry_key(rows[order[i]]));
    assert(keys[order[j]] == entry_key(rows[order[j]]));
}

/// Of entries with different identities there is only one list that
/// holds each of them once and is most recent first: the order of a
/// listing is decided by the entries alone.
pub proof fn listing_order_is_decided(rows: Seq<PurchaseEntry>, other: Seq<int>)
    requires
        forall|i: int, j: int| 0 <= i < j < rows.len() ==> rows[i].id != rows[j].id,
        holds_each(other, rows.len() as int),
        forall|i: int, j: int|
            0 <= i < j < other.len() ==> key_le(
                entry_key(rows[#[trigger] other[j]]),
                entry_key(rows[#[trigger] other[i]]),
            ),
    ensures
        other.map_values(|i: int| rows[i]) == recent_first(rows),
{
    let keys = entry_keys(rows);
    assert forall|i: int, j: int| 0 <= i < j < keys.len() implies keys[i] != keys[j] by {
        assert(keys[i].id == rows[i].id && keys[j].id == rows[j].id);
    }
    assert forall|i: int, j: int| 0 <= i < j < other.len() implies key_le(
        keys[#[trigger] other[j]],
        keys[#[trigger] other[i]],
    ) by {
        assert(keys[other[j]] == entry_key(rows[other[j]]));
        assert(keys[other[i]] == entry_key(rows[other[i]]));
    }
    arrangement_is_unique(keys, true, other);
}

/// An entry created with N items that give no amount has, once created,
/// exactly N items, and the amount of each is its quantity times its
/// price.
pub proof fn created_items_get_products(t: Tables, p: PurchaseCreate, now: String)
    requires
        consistent(t),
        create_refusal(t, p) is None,
        forall|i: int| 0 <= i < p.items@.len() ==> (#[trigger] p.items@[i]).amount is None,
    ensures
        ({
            let held = after_create(t, p, now).items.filter(of_purchase(t.next_entry as i64));
            &&& held.len() == p.items@.len()
            &&& forall|i: int|
                0 <= i < held.len() ==> (#[trigger] held[i]).amount == p.items@[i].qty * p.items@[i].price
                    && held[i].qty == p.items@[i].qty && held[i].price == p.items@[i].price
        }),
{
    let id = t.next_entry as i64;
    let fresh = items_of(p.items@, t.next_item, t.next_entry);
    assert forall|i: int| 0 <= i < t.items.len() implies !of_purchase(id)(#[trigger] t.items[i]) by {
        let k = choose|k: int|
            0 <= k < t.entries.len() && (#[trigger] t.entries[k]).id == t.items[i].purchase_id;
    }
    keeps_none(t.items, of_purchase(id));
    keeps_all(fresh, of_purchase(id));
    Seq::filter_distributes_over_add(t.items, fresh, of_purchase(id));
    let held = after_create(t, p, now).items.filter(of_purchase(id));
    assert(held =~= fresh);
    assert forall|i: int| 0 <= i < held.len() implies (#[trigger] held[i]).amount == p.items@[i].qty
        * p.items@[i].price by {
        assert(p.items@[i].amount_of() is Some);
    }
}

/// An update that gives M items leaves the entry with exactly those M
/// items, however many it had before, and leaves the items of every
/// other entry as they were.
pub proof fn update_replaces_items(t: Tables, u: PurchaseUpdate, other: i64)
    requires
        consistent(t),
        update_refusal(t, u) is None,
        u.items is Some,
        other != u.id,
    ensures
        after_update(t, u).items.filter(of_purchase(u.id)) == items_of(
            u.items.unwrap()@,
            t.next_item,
            u.id as int,
        ),
        after_update(t, u).items.filter(of_purchase(u.id)).len() == u.items.unwrap()@.len(),
        after_update(t, u).items.filter(of_purchase(other)) == t.items.filter(of_purchase(other)),
{
    let lines = u.items.unwrap()@;
    let kept = t.items.filter(other_purchase(u.id));
    let fresh = items_of(lines, t.next_item, u.id as int);
    assert forall|i: int| 0 <= i < kept.len() implies !of_purchase(u.id)(#[trigger] kept[i]) by {
        t.items.lemma_filter_pred(other_purchase(u.id), i);
    }
    keeps_none(kept, of_purchase(u.id));
    keeps_all(fresh, of_purchase(u.id));
    Seq::filter_distributes_over_add(kept, fresh, of_purchase(u.id));
    assert(after_update(t, u).items.filter(of_purchase(u.id)) =~= fresh);
    keeps_none(fresh, of_purchase(other));
    Seq::filter_distributes_over_add(kept, fresh, of_purchase(other));
    twice_kept(t.items, u.id, other);
    assert(after_update(t, u).items.filter(of_purchase(other)) =~= t.items.filter(of_purchase(other)));
}

/// The items of one entry among the items of all entries but another
/// are the items of that entry.
pub proof fn twice_kept(items: Seq<PurchaseItem>, without: i64, of: i64)
    requires
        without != of,
    ensures
        items.filter(other_purchase(without)).filter(of_purchase(of)) == items.filter(of_purchase(of)),
    decreases items.len(),
{
    reveal(Seq::filter);
    if items.len() > 0 {
        let rest = items.drop_last();
        let last = items.last();
        twice_kept(rest, without, of);
        rest.filter(other_purchase(without)).lemma_filter_push(last, of_purchase(of));
    }
}

/// An update that gives no list of items leaves all items as they were,
/// in number and in content.
pub proof fn update_without_items_keeps_them(t: Tables, u: PurchaseUpdate)
    requires
        u.items is None,
    ensures
        after_update(t, u).items == t.items,
        after_update(t, u).next_item == t.next_item,
{
}

/// An update leaves every field that it does not give as it was, and
/// never the identity; and it leaves every other entry as it was.
pub proof fn update_keeps_what_it_omits(entries: Seq<PurchaseEntry>, e: PurchaseEntry, u: PurchaseUpdate)
    ensures
        merged_entry(e, u).id == e.id,
        u.supplier_id is None ==> merged_entry(e, u).supplier_id == e.supplier_id,
        u.invoice_no is None ==> merged_entry(e, u).invoice_no == e.invoice_no,
        u.date is None ==> merged_entry(e, u).date == e.date,
        u.entry_date is None ==> merged_entry(e, u).entry_date == e.entry_date,
        u.gst_rate is None ==> merged_entry(e, u).gst_rate == e.gst_rate,
        u.basic_value is None ==> merged_entry(e, u).basic_value == e.basic_value,
        u.sgst is None ==> merged_entry(e, u).sgst == e.sgst,
        u.cgst is None ==> merged_entry(e, u).cgst == e.cgst,
        u.igst is None ==> merged_entry(e, u).igst == e.igst,
        u.invoice_value is None ==> merged_entry(e, u).invoice_value == e.invoice_value,
        u.tds_value is None ==> merged_entry(e, u).tds_value == e.tds_value,
        u.narration is None ==> merged_entry(e, u).narration == e.narration,
        u.status is None ==> merged_entry(e, u).status == e.status,
        patched_entries(entries, u).len() == entries.len(),
        forall|i: int|
            0 <= i < entries.len() && entries[i].id != u.id ==> #[trigger] patched_entries(entries, u)[i]
                == entries[i],
{
}

/// A row below the header whose first cell holds no text, or an empty
/// one, counts for nothing: the sheet without that row stands for the
/// same suppliers, and so for the same number of them.
pub proof fn unnamed_row_is_passed_over(sheet: Seq<Seq<Cell>>, at: int)
    requires
        1 <= at < sheet.len(),
        !named(sheet[at]),
    ensures
        records_of(sheet) == records_of(sheet.remove(at)),
{
    let data = data_rows(sheet);
    let head = data.subrange(0, at - 1);
    let tail = data.subrange(at, data.len() as int);
    let row = sheet[at];
    assert(data =~= head.push(row) + tail);
    assert(data_rows(sheet.remove(at)) =~= head + tail);
    head.lemma_filter_push(row, is_named());
    Seq::filter_distributes_over_add(head.push(row), tail, is_named());
    Seq::filter_distributes_over_add(head, tail, is_named());
}

/// Over no entries every total of the report is 0 and can be held: the
/// sums of money, the number of suppliers and the number of items.
pub proof fn empty_range_totals_nothing(rows: Seq<PurchaseEntry>, items: Seq<PurchaseItem>)
    requires
        rows.len() == 0,
    ensures
        total_of(rows, Amount::InvoiceValue) == 0,
        total_of(rows, Amount::Tax) == 0,
        fits(total_of(rows, Amount::InvoiceValue)),
        fits(total_of(rows, Amount::Tax)),
        suppliers_of(rows).len() == 0,
        items.filter(item_of_rows(rows)).len() == 0,
{
    assert(suppliers_of(rows) =~= Set::<i64>::empty());
    assert forall|i: int| 0 <= i < items.len() implies !item_of_rows(rows)(#[trigger] items[i]) by {
        assert(!has_entry(rows, items[i].purchase_id as int));
    }
    keeps_none(items, item_of_rows(rows));
}

/// The summary of a range without entries is all zeros.
pub proof fn empty_range_summary_is_zero(
    summary: ReportSummary,
    rows: Seq<PurchaseEntry>,
    items: Seq<PurchaseItem>,
)
    requires
        rows.len() == 0,
        summary_is(summary, rows, items),
    ensures
        summary == (ReportSummary {
            total_purchases: 0,
            total_gst: 0,
            total_suppliers: 0,
            total_items: 0,
        }),
{
    empty_range_totals_nothing(rows, items);
}

} // verus!
