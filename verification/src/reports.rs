//! Totals over the entries of a range of business dates.
use vstd::prelude::*;
use vstd::string::*;
use crate::error::LedgerError;
use crate::filters::{one, passing, Predicate};
use crate::models::{PurchaseEntry, PurchaseItem, PurchasesBySupplier, ReportSummary, Supplier};
use crate::order::{
    arranged, ascending_len, key_views, page_of, page_positions, positions, same_chars, RankKey,
    SortKey,
};
use crate::purchases::{chosen, copy_entries, matching_entries, page_of_mapped};
use crate::store::{entry_ids_grow, has_entry, has_supplier, item_ids_grow, Db};
use crate::suppliers::supplier_by_id;
use crate::text::chars_of;

verus! {

/// The conditions of a range of business dates, both ends included. An
/// end that is not given is open.
pub open spec fn range_conditions(date_from: Option<String>, date_to: Option<String>) -> Seq<
    Predicate,
> {
    one(date_from, |d: String| Predicate::DateFrom(d)) + one(date_to, |d: String| Predicate::DateTo(d))
}

/// The entries of a range of business dates, in table order.
pub open spec fn in_range(
    entries: Seq<PurchaseEntry>,
    date_from: Option<String>,
    date_to: Option<String>,
) -> Seq<PurchaseEntry> {
    entries.filter(passing(range_conditions(date_from, date_to)))
}

/// A value of money of an entry.
#[derive(Clone, Copy, Debug, PartialEq, Eq, Structural)]
pub enum Amount {
    InvoiceValue,
    Sgst,
    Cgst,
    Igst,
    /// The three taxes together.
    Tax,
}

/// The value of money of an entry that `which` names.
pub open spec fn amount_in(which: Amount, e: PurchaseEntry) -> int {
    match which {
        Amount::InvoiceValue => e.invoice_value as int,
        Amount::Sgst => e.sgst as int,
        Amount::Cgst => e.cgst as int,
        Amount::Igst => e.igst as int,
        Amount::Tax => e.sgst + e.cgst + e.igst,
    }
}

/// The sum of one value of money over a list of entries; 0 over none.
pub open spec fn total_of(rows: Seq<PurchaseEntry>, which: Amount) -> int
    decreases rows.len(),
{
    if rows.len() == 0 {
        0
    } else {
        total_of(rows.drop_last(), which) + amount_in(which, rows.last())
    }
}

/// The suppliers that a list of entries refers to.
pub open spec fn suppliers_of(rows: Seq<PurchaseEntry>) -> Set<i64> {
    rows.map_values(|e: PurchaseEntry| e.supplier_id).to_set()
}

/// The items that belong to one of the entries, as a test on one item.
pub open spec fn item_of_rows(rows: Seq<PurchaseEntry>) -> spec_fn(PurchaseItem) -> bool {
    |it: PurchaseItem| has_entry(rows, it.purchase_id as int)
}

/// Whether a total can be held in its field.
pub open spec fn fits(total: int) -> bool {
    i64::MIN <= total <= i64::MAX
}

/// What the summary of a list of entries and the items of the store is.
pub open spec fn summary_is(s: ReportSummary, rows: Seq<PurchaseEntry>, items: Seq<PurchaseItem>) -> bool {
    &&& s.total_purchases == total_of(rows, Amount::InvoiceValue)
    &&& s.total_gst == total_of(rows, Amount::Tax)
    &&& s.total_suppliers == suppliers_of(rows).len()
    &&& s.total_items == items.filter(item_of_rows(rows)).len()
}

/// The sum of the three taxes together is the sum of the three sums.
pub proof fn tax_is_three_columns(rows: Seq<PurchaseEntry>)
    ensures
        total_of(rows, Amount::Tax) == total_of(rows, Amount::Sgst) + total_of(rows, Amount::Cgst)
            + total_of(rows, Amount::Igst),
    decreases rows.len(),
{
    if rows.len() > 0 {
        tax_is_three_columns(rows.drop_last());
    }
}

/// A sum over `n` values lies within `n` times the range of a value.
pub proof fn total_is_bounded(rows: Seq<PurchaseEntry>, which: Amount)
    requires
        which != Amount::Tax,
    ensures
        -0x8000_0000_0000_0000 * rows.len() <= total_of(rows, which) <= 0x7fff_ffff_ffff_ffff
            * rows.len(),
    decreases rows.len(),
{
    if rows.len() > 0 {
        total_is_bounded(rows.drop_last(), which);
    }
}

/// The ledger's conditions of a range of dates.
pub(crate) fn range_predicates(date_from: &Option<String>, date_to: &Option<String>) -> (ps: Vec<
    Predicate,
>)
    ensures
        ps@ == range_conditions(*date_from, *date_to),
{
    let mut ps: Vec<Predicate> = Vec::new();
    if let Some(d) = date_from {
        ps.push(Predicate::DateFrom(d.clone()));
    }
    assert(ps@ =~= one(*date_from, |d: String| Predicate::DateFrom(d)));
    if let Some(d) = date_to {
        ps.push(Predicate::DateTo(d.clone()));
    }
    assert(ps@ =~= range_conditions(*date_from, *date_to));
    ps
}

fn pick_amount(which: Amount, e: &PurchaseEntry) -> (v: i64)
    requires
        which != Amount::Tax,
    ensures
        v == amount_in(which, *e),
{
    match which {
        Amount::InvoiceValue => e.invoice_value,
        Amount::Sgst => e.sgst,
        Amount::Cgst => e.cgst,
        _ => e.igst,
    }
}

/// Sums one value of money over the chosen entries.
pub(crate) fn sum_of(entries: &Vec<PurchaseEntry>, hits: &Vec<usize>, which: Amount) -> (sum: i128)
    requires
        which != Amount::Tax,
        hits.len() < 0x8000_0000_0000_0000,
        forall|j: int| 0 <= j < hits.len() ==> (#[trigger] hits[j]) < entries.len(),
    ensures
        sum == total_of(chosen(entries@, hits@), which),
        -0x8000_0000_0000_0000 * 0x7fff_ffff_ffff_ffff <= sum <= 0x7fff_ffff_ffff_ffff
            * 0x7fff_ffff_ffff_ffff,
{
    let ghost rows = chosen(entries@, hits@);
    let mut sum: i128 = 0;
    let mut j: usize = 0;
    assert(rows.subrange(0, 0) =~= Seq::<PurchaseEntry>::empty());
    while j < hits.len()
        invariant
            j <= hits.len(),
            which != Amount::Tax,
            hits.len() < 0x8000_0000_0000_0000,
            rows == chosen(entries@, hits@),
            forall|k: int| 0 <= k < hits.len() ==> (#[trigger] hits[k]) < entries.len(),
            sum == total_of(rows.subrange(0, j as int), which),
        decreases hits.len() - j,
    {
        proof {
            let head = rows.subrange(0, j as int);
            let next = rows.subrange(0, j + 1);
            assert(next.drop_last() =~= head);
            assert(next.last() == entries@[hits@[j as int] as int]);
            total_is_bounded(head, which);
            assert(0x7fff_ffff_ffff_ffff * head.len() <= 0x7fff_ffff_ffff_ffff * 0x7fff_ffff_ffff_ffff)
                by (nonlinear_arith)
                requires
                    head.len() <= 0x7fff_ffff_ffff_ffff,
            ;
            assert(-0x8000_0000_0000_0000 * head.len() >= -0x8000_0000_0000_0000
                * 0x7fff_ffff_ffff_ffff) by (nonlinear_arith)
                requires
                    head.len() <= 0x7fff_ffff_ffff_ffff,
            ;
        }
        sum = sum + pick_amount(which, &entries[hits[j]]) as i128;
        j = j + 1;
    }
    proof {
        assert(rows.subrange(0, hits.len() as int) =~= rows);
        total_is_bounded(rows, which);
        assert(0x7fff_ffff_ffff_ffff * rows.len() <= 0x7fff_ffff_ffff_ffff * 0x7fff_ffff_ffff_ffff)
            by (nonlinear_arith)
            requires
                rows.len() <= 0x7fff_ffff_ffff_ffff,
        ;
        assert(-0x8000_0000_0000_0000 * rows.len() >= -0x8000_0000_0000_0000 * 0x7fff_ffff_ffff_ffff)
            by (nonlinear_arith)
            requires
                rows.len() <= 0x7fff_ffff_ffff_ffff,
        ;
    }
    sum
}

/// Counts the suppliers that the chosen entries refer to.
fn count_suppliers(entries: &Vec<PurchaseEntry>, hits: &Vec<usize>) -> (n: usize)
    requires
        forall|j: int| 0 <= j < hits.len() ==> (#[trigger] hits[j]) < entries.len(),
    ensures
        n == suppliers_of(chosen(entries@, hits@)).len(),
        n <= hits.len(),
{
    let ghost rows = chosen(entries@, hits@);
    let ghost ids = rows.map_values(|e: PurchaseEntry| e.supplier_id);
    let mut seen: Vec<i64> = Vec::new();
    let mut j: usize = 0;
    while j < hits.len()
        invariant
            j <= hits.len(),
            rows == chosen(entries@, hits@),
            ids == rows.map_values(|e: PurchaseEntry| e.supplier_id),
            forall|k: int| 0 <= k < hits.len() ==> (#[trigger] hits[k]) < entries.len(),
            seen@.no_duplicates(),
            seen.len() <= j,
            forall|k: int| 0 <= k < seen.len() ==> ids.subrange(0, j as int).contains(#[trigger] seen[k]),
            forall|k: int| 0 <= k < j ==> seen@.contains(#[trigger] ids[k]),
        decreases hits.len() - j,
    {
        let id = entries[hits[j]].supplier_id;
        assert(ids[j as int] == id);
        let mut known = false;
        let mut k: usize = 0;
        while k < seen.len()
            invariant
                k <= seen.len(),
                !known ==> forall|m: int| 0 <= m < k ==> (#[trigger] seen[m]) != id,
                known ==> seen@.contains(id),
            decreases seen.len() - k,
        {
            if seen[k] == id {
                known = true;
            }
            k = k + 1;
        }
        let ghost before = seen@;
        if !known {
            seen.push(id);
        }
        proof {
            let head = ids.subrange(0, j as int);
            let next = ids.subrange(0, j + 1);
            assert forall|m: int| 0 <= m < seen.len() implies next.contains(#[trigger] seen[m]) by {
                if m < before.len() {
                    let w = choose|w: int| 0 <= w < head.len() && head[w] == before[m];
                    assert(next[w] == before[m]);
                } else {
                    assert(next[j as int] == id);
                }
            }
            assert forall|m: int| 0 <= m < j + 1 implies seen@.contains(#[trigger] ids[m]) by {
                if m < j {
                    let w = choose|w: int| 0 <= w < before.len() && before[w] == ids[m];
                    assert(seen@[w] == ids[m]);
                } else if !known {
                    assert(seen@[before.len() as int] == id);
                }
            }
        }
        j = j + 1;
    }
    proof {
        assert(ids.subrange(0, hits.len() as int) =~= ids);
        assert(seen@.to_set() =~= ids.to_set());
        seen@.unique_seq_to_set();
    }
    seen.len()
}

/// Whether one of the chosen entries has this identity.
fn among(entries: &Vec<PurchaseEntry>, hits: &Vec<usize>, id: i64) -> (r: bool)
    requires
        forall|j: int| 0 <= j < hits.len() ==> (#[trigger] hits[j]) < entries.len(),
    ensures
        r == has_entry(chosen(entries@, hits@), id as int),
{
    let ghost rows = chosen(entries@, hits@);
    let mut j: usize = 0;
    while j < hits.len()
        invariant
            j <= hits.len(),
            rows == chosen(entries@, hits@),
            forall|k: int| 0 <= k < hits.len() ==> (#[trigger] hits[k]) < entries.len(),
            forall|k: int| 0 <= k < j ==> (#[trigger] rows[k]).id != id,
        decreases hits.len() - j,
    {
        if entries[hits[j]].id == id {
            assert(rows[j as int].id == id);
            return true;
        }
        j = j + 1;
    }
    false
}

/// Counts the items that belong to one of the chosen entries.
fn count_items(items: &Vec<PurchaseItem>, entries: &Vec<PurchaseEntry>, hits: &Vec<usize>) -> (n:
    usize)
    requires
        forall|j: int| 0 <= j < hits.len() ==> (#[trigger] hits[j]) < entries.len(),
    ensures
        n == items@.filter(item_of_rows(chosen(entries@, hits@))).len(),
        n <= items.len(),
{
    let ghost rows = chosen(entries@, hits@);
    let mut n: usize = 0;
    let mut i: usize = 0;
    proof {
        reveal(Seq::filter);
        assert(items@.subrange(0, 0) =~= Seq::<PurchaseItem>::empty());
    }
    while i < items.len()
        invariant
            i <= items.len(),
            n <= i,
            rows == chosen(entries@, hits@),
            forall|j: int| 0 <= j < hits.len() ==> (#[trigger] hits[j]) < entries.len(),
            n == items@.subrange(0, i as int).filter(item_of_rows(rows)).len(),
        decreases items.len() - i,
    {
        proof {
            let head = items@.subrange(0, i as int);
            assert(items@.subrange(0, i + 1) =~= head.push(items@[i as int]));
            head.lemma_filter_push(items@[i as int], item_of_rows(rows));
        }
        if among(entries, hits, items[i].purchase_id) {
            n = n + 1;
        }
        i = i + 1;
    }
    assert(items@.subrange(0, items.len() as int) =~= items@);
    n
}

/// The totals of the entries whose business date lies in the range, both
/// ends included: the sum of their invoice values, the sum of their three
/// taxes, the number of suppliers they refer to, and the number of items
/// that belong to them. Over no entries every total is 0. It fails only
/// where a sum cannot be held in its field.
pub fn get_report_summary(db: &Db, date_from: Option<String>, date_to: Option<String>) -> (r: Result<
    ReportSummary,
    LedgerError,
>)
    requires
        db.wf(),
    ensures
        ({
            let rows = in_range(db@.entries, date_from, date_to);
            if fits(total_of(rows, Amount::InvoiceValue)) && fits(total_of(rows, Amount::Tax)) {
                r matches Ok(s) && summary_is(s, rows, db@.items)
            } else {
                r == Err::<ReportSummary, LedgerError>(LedgerError::TotalOutOfRange)
            }
        }),
{
    proof {
        db.tables();
    }
    let ps = range_predicates(&date_from, &date_to);
    let hits = matching_entries(&db.entries, &ps);
    let ghost rows = chosen(db.entries@, hits@);
    proof {
        db@.entries.lemma_filter_len(passing(ps@));
        assert(rows.len() == hits.len());
        if db@.entries.len() > 0 {
            entry_ids_grow(db@.entries, db@.next_entry, db@.entries.len() - 1);
        }
        if db@.items.len() > 0 {
            item_ids_grow(db@.items, db@.next_item, db@.items.len() - 1);
        }
        tax_is_three_columns(rows);
    }
    let purchases = sum_of(&db.entries, &hits, Amount::InvoiceValue);
    let sgst = sum_of(&db.entries, &hits, Amount::Sgst);
    let cgst = sum_of(&db.entries, &hits, Amount::Cgst);
    let igst = sum_of(&db.entries, &hits, Amount::Igst);
    if purchases < i64::MIN as i128 || purchases > i64::MAX as i128 {
        return Err(LedgerError::TotalOutOfRange);
    }
    let two: i128 = sgst + cgst;
    let gst: i128 = match two.checked_add(igst) {
        Some(g) => g,
        None => {
            return Err(LedgerError::TotalOutOfRange);
        },
    };
    if gst < i64::MIN as i128 || gst > i64::MAX as i128 {
        return Err(LedgerError::TotalOutOfRange);
    }
    let suppliers = count_suppliers(&db.entries, &hits);
    let items = count_items(&db.items, &db.entries, &hits);
    Ok(
        ReportSummary {
            total_purchases: purchases as i64,
            total_gst: gst as i64,
            total_suppliers: suppliers as i64,
            total_items: items as i64,
        },
    )
}

/// What an entry is ranked by when entries are handed out: its business
/// date, then its identity.
pub open spec fn date_key(e: PurchaseEntry) -> RankKey {
    RankKey { rank: 0, first: e.date@, second: Seq::<char>::empty(), id: e.id as int }
}

/// The keys of a list of entries that is handed out.
pub open spec fn date_keys(rows: Seq<PurchaseEntry>) -> Seq<RankKey> {
    Seq::new(rows.len(), |i: int| date_key(rows[i]))
}

/// The entries with the latest business date first; of two of the same
/// date the one with the greater identity is first.
pub open spec fn latest_date_first(rows: Seq<PurchaseEntry>) -> Seq<PurchaseEntry> {
    arranged(date_keys(rows), true).map_values(|i: int| rows[i])
}

fn date_sort_keys(entries: &Vec<PurchaseEntry>, hits: &Vec<usize>) -> (keys: Vec<SortKey>)
    requires
        forall|j: int| 0 <= j < hits.len() ==> (#[trigger] hits[j]) < entries.len(),
    ensures
        key_views(keys@) == date_keys(chosen(entries@, hits@)),
        keys.len() == hits.len(),
{
    let mut keys: Vec<SortKey> = Vec::new();
    let mut j: usize = 0;
    while j < hits.len()
        invariant
            j <= hits.len(),
            keys.len() == j,
            forall|k: int| 0 <= k < hits.len() ==> (#[trigger] hits[k]) < entries.len(),
            forall|k: int| 0 <= k < j ==> (#[trigger] keys[k])@ == date_key(entries[hits[k] as int]),
        decreases hits.len() - j,
    {
        let e = &entries[hits[j]];
        keys.push(SortKey { rank: 0, first: chars_of(e.date.as_str()), second: Vec::new(), id: e.id });
        j = j + 1;
    }
    assert(key_views(keys@) =~= date_keys(chosen(entries@, hits@)));
    keys
}

/// All entries whose business date lies in the range, both ends
/// included, the latest date first.
pub fn export_purchases(db: &Db, date_from: Option<String>, date_to: Option<String>) -> (r: Result<
    Vec<PurchaseEntry>,
    LedgerError,
>)
    requires
        db.wf(),
    ensures
        r matches Ok(v) && v@ == latest_date_first(in_range(db@.entries, date_from, date_to)),
{
    proof {
        db.tables();
    }
    let ps = range_predicates(&date_from, &date_to);
    let hits = matching_entries(&db.entries, &ps);
    let keys = date_sort_keys(&db.entries, &hits);
    let picks = page_positions(&keys, true, 0, i64::MAX);
    let data = copy_entries(&db.entries, &hits, &picks);
    proof {
        let rows = chosen(db.entries@, hits@);
        let all = arranged(date_keys(rows), true);
        db@.entries.lemma_filter_len(passing(ps@));
        assert(rows.len() == hits.len());
        if db@.entries.len() > 0 {
            entry_ids_grow(db@.entries, db@.next_entry, db@.entries.len() - 1);
        }
        ascending_len(date_keys(rows), rows.len() as int);
        assert(page_of(all, 0, i64::MAX as int) =~= all);
    }
    Ok(data)
}

/// The name of the supplier that an entry refers to.
pub open spec fn supplier_name(suppliers: Seq<Supplier>, e: PurchaseEntry) -> Seq<char> {
    supplier_by_id(suppliers, e.supplier_id).name@
}

/// The entries of suppliers of this name, as a test on one entry.
pub open spec fn of_name(suppliers: Seq<Supplier>, name: Seq<char>) -> spec_fn(PurchaseEntry) -> bool {
    |e: PurchaseEntry| supplier_name(suppliers, e) == name
}

/// The names of the suppliers of a list of entries, each once, in the
/// order in which the entries first name them.
pub open spec fn names_of(suppliers: Seq<Supplier>, rows: Seq<PurchaseEntry>) -> Seq<Seq<char>>
    decreases rows.len(),
{
    if rows.len() == 0 {
        Seq::<Seq<char>>::empty()
    } else {
        let before = names_of(suppliers, rows.drop_last());
        let name = supplier_name(suppliers, rows.last());
        if before.contains(name) {
            before
        } else {
            before.push(name)
        }
    }
}

/// The invoice value of the entries that falls to suppliers of one name.
pub open spec fn group_total(suppliers: Seq<Supplier>, rows: Seq<PurchaseEntry>, name: Seq<char>) -> int {
    total_of(rows.filter(of_name(suppliers, name)), Amount::InvoiceValue)
}

/// What the groups are ranked by: the greater total first, and of two
/// equal totals the name that comes first.
pub open spec fn group_keys(suppliers: Seq<Supplier>, rows: Seq<PurchaseEntry>) -> Seq<RankKey> {
    let names = names_of(suppliers, rows);
    Seq::new(
        names.len(),
        |g: int|
            RankKey {
                rank: -group_total(suppliers, rows, names[g]),
                first: names[g],
                second: Seq::<char>::empty(),
                id: 0,
            },
    )
}

/// Whether the total of every group can be held in its field.
pub open spec fn groups_fit(suppliers: Seq<Supplier>, rows: Seq<PurchaseEntry>) -> bool {
    let names = names_of(suppliers, rows);
    forall|g: int| 0 <= g < names.len() ==> fits(group_total(suppliers, rows, #[trigger] names[g]))
}

/// What the report by supplier holds: one line for each name, with the
/// invoice value that falls to it, the greatest total first.
pub open spec fn grouping_is(
    out: Seq<PurchasesBySupplier>,
    suppliers: Seq<Supplier>,
    rows: Seq<PurchaseEntry>,
) -> bool {
    let names = names_of(suppliers, rows);
    let order = arranged(group_keys(suppliers, rows), false);
    &&& out.len() == names.len()
    &&& forall|k: int|
        0 <= k < out.len() ==> (#[trigger] out[k]).supplier_name@ == names[order[k]]
            && out[k].total_purchases == group_total(suppliers, rows, names[order[k]])
}

/// The sum over a list with one more entry.
pub proof fn total_of_push(rows: Seq<PurchaseEntry>, e: PurchaseEntry, which: Amount)
    ensures
        total_of(rows.push(e), which) == total_of(rows, which) + amount_in(which, e),
{
    assert(rows.push(e).drop_last() =~= rows);
}

/// One group while the entries are gone through: the supplier that
/// named it first, the name, and the total so far.
pub(crate) struct Group {
    pub supplier: usize,
    pub name: Vec<char>,
    pub total: i128,
}

fn find_group(groups: &Vec<Group>, name: &Vec<char>) -> (r: Option<usize>)
    ensures
        match r {
            Some(g) => g < groups.len() && groups[g as int].name@ == name@,
            None => forall|g: int| 0 <= g < groups.len() ==> (#[trigger] groups[g]).name@ != name@,
        },
{
    let mut g: usize = 0;
    while g < groups.len()
        invariant
            g <= groups.len(),
            forall|k: int| 0 <= k < g ==> (#[trigger] groups[k]).name@ != name@,
        decreases groups.len() - g,
    {
        if same_chars(&groups[g].name, name) {
            return Some(g);
        }
        g = g + 1;
    }
    None
}

/// Whether the groups are those of the first `j` rows.
spec fn groups_are(
    groups: Seq<Group>,
    suppliers: Seq<Supplier>,
    rows: Seq<PurchaseEntry>,
    j: int,
) -> bool {
    let head = rows.subrange(0, j);
    let names = names_of(suppliers, head);
    &&& groups.len() == names.len()
    &&& forall|g: int|
        0 <= g < groups.len() ==> {
            &&& (#[trigger] groups[g]).name@ == names[g]
            &&& groups[g].total == group_total(suppliers, head, names[g])
            &&& groups[g].supplier < suppliers.len()
            &&& suppliers[groups[g].supplier as int].name@ == names[g]
        }
}

fn collect_groups(db: &Db, hits: &Vec<usize>) -> (groups: Vec<Group>)
    requires
        db.wf(),
        hits.len() < 0x8000_0000_0000_0000,
        forall|j: int| 0 <= j < hits.len() ==> (#[trigger] hits[j]) < db@.entries.len(),
    ensures
        groups_are(groups@, db@.suppliers, chosen(db@.entries, hits@), hits.len() as int),
{
    proof {
        db.tables();
    }
    let ghost rows = chosen(db@.entries, hits@);
    let ghost suppliers = db@.suppliers;
    let mut groups: Vec<Group> = Vec::new();
    let mut j: usize = 0;
    assert(rows.subrange(0, 0) =~= Seq::<PurchaseEntry>::empty());
    while j < hits.len()
        invariant
            j <= hits.len(),
            db.wf(),
            hits.len() < 0x8000_0000_0000_0000,
            rows == chosen(db@.entries, hits@),
            suppliers == db@.suppliers,
            db@.suppliers == db.suppliers@,
            db@.entries == db.entries@,
            forall|k: int| 0 <= k < hits.len() ==> (#[trigger] hits[k]) < db@.entries.len(),
            groups_are(groups@, suppliers, rows, j as int),
        decreases hits.len() - j,
    {
        let e = &db.entries[hits[j]];
        let ghost head = rows.subrange(0, j as int);
        let ghost next = rows.subrange(0, j + 1);
        let ghost names = names_of(suppliers, head);
        let ghost old_groups = groups@;
        assert(rows[j as int] == *e);
        assert(has_supplier(suppliers, e.supplier_id as int));
        // The rules of the store leave no entry without its supplier.
        let k = match db.find_supplier(e.supplier_id) {
            Some(k) => k,
            None => {
                return groups;
            },
        };
        proof {
            let c = choose|i: int| 0 <= i < suppliers.len() && (#[trigger] suppliers[i]).id == e.supplier_id;
            if c < k {
                assert(suppliers[c].id < suppliers[k as int].id);
            } else if k < c {
                assert(suppliers[k as int].id < suppliers[c].id);
            }
            assert(supplier_name(suppliers, *e) == suppliers[k as int].name@);
            assert(next.drop_last() =~= head);
            assert(next.last() == *e);
            assert(next =~= head.push(*e));
        }
        let name = chars_of(db.suppliers[k].name.as_str());
        let found = find_group(&groups, &name);
        proof {
            assert forall|g: int| 0 <= g < names.len() implies group_total(suppliers, next, #[trigger] names[g])
                == group_total(suppliers, head, names[g]) + if names[g] == name@ {
                e.invoice_value as int
            } else {
                0
            } by {
                head.lemma_filter_push(*e, of_name(suppliers, names[g]));
                total_of_push(head.filter(of_name(suppliers, names[g])), *e, Amount::InvoiceValue);
            }
        }
        match found {
            Some(g) => {
                proof {
                    assert(names[g as int] == name@);
                    assert(names.contains(name@));
                    head.lemma_filter_len(of_name(suppliers, name@));
                    total_is_bounded(head.filter(of_name(suppliers, name@)), Amount::InvoiceValue);
                    let m = head.filter(of_name(suppliers, name@)).len();
                    assert(0x7fff_ffff_ffff_ffff * m <= 0x7fff_ffff_ffff_ffff * 0x7fff_ffff_ffff_ffff)
                        by (nonlinear_arith)
                        requires
                            m <= 0x7fff_ffff_ffff_ffff,
                    ;
                    assert(-0x8000_0000_0000_0000 * m >= -0x8000_0000_0000_0000 * 0x7fff_ffff_ffff_ffff)
                        by (nonlinear_arith)
                        requires
                            m <= 0x7fff_ffff_ffff_ffff,
                    ;
                }
                let held = &groups[g];
                let changed = Group {
                    supplier: held.supplier,
                    name,
                    total: held.total + e.invoice_value as i128,
                };
                groups.set(g, changed);
                proof {
                    names_distinct(suppliers, head);
                    assert(names_of(suppliers, next) == names);
                    assert forall|h: int| 0 <= h < groups.len() implies {
                        &&& (#[trigger] groups@[h]).name@ == names[h]
                        &&& groups@[h].total == group_total(suppliers, next, names[h])
                        &&& groups@[h].supplier < suppliers.len()
                        &&& suppliers[groups@[h].supplier as int].name@ == names[h]
                    } by {
                        if h != g {
                            assert(groups@[h] == old_groups[h]);
                            assert(old_groups[h].name@ == names[h]);
                            assert(names[h] != names[g as int]);
                        } else {
                            assert(old_groups[h].name@ == names[h]);
                        }
                    }
                }
            },
            None => {
                proof {
                    assert(!names.contains(name@)) by {
                        if names.contains(name@) {
                            let g = choose|g: int| 0 <= g < names.len() && names[g] == name@;
                            assert(old_groups[g].name@ == names[g]);
                        }
                    }
                    head.lemma_filter_push(*e, of_name(suppliers, name@));
                    total_of_push(head.filter(of_name(suppliers, name@)), *e, Amount::InvoiceValue);
                    assert(head.filter(of_name(suppliers, name@)).len() == 0) by {
                        names_cover(suppliers, head, name@);
                    }
                }
                groups.push(Group { supplier: k, name, total: e.invoice_value as i128 });
                proof {
                    let now = names_of(suppliers, next);
                    assert(now == names.push(name@));
                    assert forall|h: int| 0 <= h < groups.len() implies {
                        &&& (#[trigger] groups@[h]).name@ == now[h]
                        &&& groups@[h].total == group_total(suppliers, next, now[h])
                        &&& groups@[h].supplier < suppliers.len()
                        &&& suppliers[groups@[h].supplier as int].name@ == now[h]
                    } by {
                        if h < old_groups.len() {
                            assert(groups@[h] == old_groups[h]);
                            assert(now[h] == names[h]);
                        }
                    }
                }
            },
        }
        j = j + 1;
    }
    groups
}

/// A name that is not among the names of a list of entries has no entry
/// in the list.
pub proof fn names_cover(suppliers: Seq<Supplier>, rows: Seq<PurchaseEntry>, name: Seq<char>)
    requires
        !names_of(suppliers, rows).contains(name),
    ensures
        rows.filter(of_name(suppliers, name)).len() == 0,
    decreases rows.len(),
{
    reveal(Seq::filter);
    if rows.len() > 0 {
        let before = names_of(suppliers, rows.drop_last());
        let last = supplier_name(suppliers, rows.last());
        if before.contains(name) {
            let g = choose|g: int| 0 <= g < before.len() && before[g] == name;
            if !before.contains(last) {
                assert(before.push(last)[g] == name);
            }
            assert(false);
        }
        if last == name {
            if !before.contains(last) {
                assert(before.push(last)[before.len() as int] == name);
            }
            assert(false);
        }
        names_cover(suppliers, rows.drop_last(), name);
    }
}

/// The invoice value of the entries of a range of business dates, by the
/// name of the supplier: one line for each name, the greatest total
/// first, and of equal totals the name that comes first. It fails only
/// where a total cannot be held in its field.
pub fn get_purchases_by_supplier(db: &Db, date_from: Option<String>, date_to: Option<String>) -> (r:
    Result<Vec<PurchasesBySupplier>, LedgerError>)
    requires
        db.wf(),
    ensures
        ({
            let rows = in_range(db@.entries, date_from, date_to);
            if groups_fit(db@.suppliers, rows) {
                r matches Ok(out) && grouping_is(out@, db@.suppliers, rows)
            } else {
                r == Err::<Vec<PurchasesBySupplier>, LedgerError>(LedgerError::TotalOutOfRange)
            }
        }),
{
    proof {
        db.tables();
    }
    let ps = range_predicates(&date_from, &date_to);
    let hits = matching_entries(&db.entries, &ps);
    let ghost rows = chosen(db.entries@, hits@);
    let ghost suppliers = db@.suppliers;
    proof {
        db@.entries.lemma_filter_len(passing(ps@));
        assert(rows.len() == hits.len());
        if db@.entries.len() > 0 {
            entry_ids_grow(db@.entries, db@.next_entry, db@.entries.len() - 1);
        }
        assert(rows.subrange(0, hits.len() as int) =~= rows);
    }
    let groups = collect_groups(db, &hits);
    let ghost names = names_of(suppliers, rows);
    let mut keys: Vec<SortKey> = Vec::new();
    let mut g: usize = 0;
    while g < groups.len()
        invariant
            g <= groups.len(),
            keys.len() == g,
            names == names_of(suppliers, rows),
            suppliers == db@.suppliers,
            rows == in_range(db@.entries, date_from, date_to),
            groups_are(groups@, suppliers, rows, rows.len() as int),
            rows.subrange(0, rows.len() as int) == rows,
            forall|h: int| 0 <= h < g ==> fits(group_total(suppliers, rows, #[trigger] names[h])),
            forall|h: int|
                0 <= h < g ==> (#[trigger] keys[h])@ == (RankKey {
                    rank: -group_total(suppliers, rows, names[h]),
                    first: names[h],
                    second: Seq::<char>::empty(),
                    id: 0,
                }),
        decreases groups.len() - g,
    {
        let total = groups[g].total;
        assert(groups@[g as int].name@ == names[g as int]);
        if total < i64::MIN as i128 || total > i64::MAX as i128 {
            assert(!fits(group_total(suppliers, rows, names[g as int])));
            return Err(LedgerError::TotalOutOfRange);
        }
        let mut first: Vec<char> = Vec::new();
        let mut c: usize = 0;
        while c < groups[g].name.len()
            invariant
                c <= groups[g as int].name.len(),
                g < groups.len(),
                first@ == groups[g as int].name@.subrange(0, c as int),
            decreases groups[g as int].name.len() - c,
        {
            first.push(groups[g].name[c]);
            c = c + 1;
            assert(first@ =~= groups[g as int].name@.subrange(0, c as int));
        }
        assert(first@ =~= groups[g as int].name@);
        keys.push(SortKey { rank: -total, first, second: Vec::new(), id: 0 });
        g = g + 1;
    }
    assert(key_views(keys@) =~= group_keys(suppliers, rows));
    let picks = page_positions(&keys, false, 0, i64::MAX);
    proof {
        let all = arranged(group_keys(suppliers, rows), false);
        ascending_len(group_keys(suppliers, rows), names.len() as int);
        names_len(suppliers, rows);
        assert(page_of(all, 0, i64::MAX as int) =~= all);
        assert(positions(picks@) == all);
    }
    let mut out: Vec<PurchasesBySupplier> = Vec::new();
    let mut k: usize = 0;
    while k < picks.len()
        invariant
            k <= picks.len(),
            out.len() == k,
            names == names_of(suppliers, rows),
            suppliers == db@.suppliers,
            db@.suppliers == db.suppliers@,
            groups_are(groups@, suppliers, rows, rows.len() as int),
            rows.subrange(0, rows.len() as int) == rows,
            groups.len() == keys.len(),
            picks.len() == names.len(),
            positions(picks@) == arranged(group_keys(suppliers, rows), false),
            forall|h: int| 0 <= h < groups.len() ==> fits(group_total(suppliers, rows, #[trigger] names[h])),
            forall|i: int| 0 <= i < picks.len() ==> (#[trigger] picks[i]) < keys.len(),
            forall|i: int|
                0 <= i < k ==> (#[trigger] out[i]).supplier_name@ == names[picks[i] as int]
                    && out[i].total_purchases == group_total(suppliers, rows, names[picks[i] as int]),
        decreases picks.len() - k,
    {
        let group = &groups[picks[k]];
        assert(groups@[picks[k as int] as int].name@ == names[picks[k as int] as int]);
        out.push(
            PurchasesBySupplier {
                supplier_name: db.suppliers[group.supplier].name.clone(),
                total_purchases: group.total as i64,
            },
        );
        k = k + 1;
    }
    proof {
        let order = arranged(group_keys(suppliers, rows), false);
        assert forall|i: int| 0 <= i < out.len() implies (#[trigger] out@[i]).supplier_name@
            == names[order[i]] && out@[i].total_purchases == group_total(
            suppliers,
            rows,
            names[order[i]],
        ) by {
            assert(positions(picks@)[i] == picks@[i] as int);
        }
    }
    Ok(out)
}

/// No name stands twice among the names of a list of entries.
pub proof fn names_distinct(suppliers: Seq<Supplier>, rows: Seq<PurchaseEntry>)
    ensures
        names_of(suppliers, rows).no_duplicates(),
    decreases rows.len(),
{
    if rows.len() > 0 {
        names_distinct(suppliers, rows.drop_last());
    }
}

/// There are at most as many names as entries.
pub proof fn names_len(suppliers: Seq<Supplier>, rows: Seq<PurchaseEntry>)
    ensures
        names_of(suppliers, rows).len() <= rows.len(),
    decreases rows.len(),
{
    if rows.len() > 0 {
        names_len(suppliers, rows.drop_last());
    }
}

} // verus!
