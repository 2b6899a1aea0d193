//! Purchase entries: the filtered, paged list, and the writes that take
//! an entry and its items as one unit.
use vstd::prelude::*;
use vstd::string::*;
use crate::error::LedgerError;
use crate::filters::{conditions_of_opt, passing, test_all, Predicate};
use crate::models::{Page, PurchaseEntry, PurchaseFilters};
use crate::order::{arranged, key_views, page_of, page_positions, positions, RankKey, SortKey};
use crate::pagination::{normal_page, normal_page_size, normalize, page_offset};
use crate::store::{entry_ids_grow, Db};
use crate::text::chars_of;

verus! {

/// What an entry is ranked by: the time it was logged, then its business
/// date, then its identity.
pub open spec fn entry_key(e: PurchaseEntry) -> RankKey {
    RankKey { rank: 0, first: e.entry_date@, second: e.date@, id: e.id as int }
}

/// The keys of a list of entries.
pub open spec fn entry_keys(rows: Seq<PurchaseEntry>) -> Seq<RankKey> {
    Seq::new(rows.len(), |i: int| entry_key(rows[i]))
}

/// The entries with the one logged last first; of two logged at the same
/// time the one with the later business date is first, and of two that
/// agree in both the one with the greater identity.
pub open spec fn recent_first(rows: Seq<PurchaseEntry>) -> Seq<PurchaseEntry> {
    arranged(entry_keys(rows), true).map_values(|i: int| rows[i])
}

/// The rows of a table at the given places.
pub open spec fn chosen<T>(rows: Seq<T>, places: Seq<usize>) -> Seq<T> {
    Seq::new(places.len(), |j: int| rows[places[j] as int])
}

/// What a list query returns: the page brought into range, the count of
/// all entries that meet the conditions, and of those entries, the most
/// recent first, the ones that fall on the page.
pub open spec fn listing_is(
    p: Page<PurchaseEntry>,
    entries: Seq<PurchaseEntry>,
    ps: Seq<Predicate>,
    page: Option<i64>,
    page_size: Option<i64>,
) -> bool {
    let rows = entries.filter(passing(ps));
    &&& p.page == normal_page(page)
    &&& p.page_size == normal_page_size(page_size)
    &&& p.total == rows.len()
    &&& p.data@ == page_of(
        recent_first(rows),
        page_offset(p.page as int, p.page_size as int),
        p.page_size as int,
    )
}

/// A page of mapped rows is the mapped page of the rows.
pub proof fn page_of_mapped<A, B>(rows: Seq<A>, f: spec_fn(A) -> B, offset: int, size: int)
    ensures
        page_of(rows.map_values(f), offset, size) == page_of(rows, offset, size).map_values(f),
{
    assert(page_of(rows.map_values(f), offset, size) =~= page_of(rows, offset, size).map_values(f));
}

/// The places of the entries that meet every condition, in table order.
pub(crate) fn matching_entries(entries: &Vec<PurchaseEntry>, ps: &Vec<Predicate>) -> (hits: Vec<
    usize,
>)
    ensures
        chosen(entries@, hits@) == entries@.filter(passing(ps@)),
        forall|j: int| 0 <= j < hits.len() ==> (#[trigger] hits[j]) < entries.len(),
{
    let mut hits: Vec<usize> = Vec::new();
    let mut i: usize = 0;
    proof {
        reveal(Seq::filter);
        assert(entries@.subrange(0, 0) =~= Seq::<PurchaseEntry>::empty());
        assert(chosen(entries@, hits@) =~= entries@.subrange(0, 0).filter(passing(ps@)));
    }
    while i < entries.len()
        invariant
            i <= entries.len(),
            chosen(entries@, hits@) == entries@.subrange(0, i as int).filter(passing(ps@)),
            forall|j: int| 0 <= j < hits.len() ==> (#[trigger] hits[j]) < entries.len(),
        decreases entries.len() - i,
    {
        let ghost before = chosen(entries@, hits@);
        let ghost head = entries@.subrange(0, i as int);
        proof {
            assert(entries@.subrange(0, i + 1) =~= head.push(entries@[i as int]));
            head.lemma_filter_push(entries@[i as int], passing(ps@));
        }
        if test_all(ps, &entries[i]) {
            hits.push(i);
            assert(chosen(entries@, hits@) =~= before.push(entries@[i as int]));
        }
        i = i + 1;
    }
    assert(entries@.subrange(0, entries.len() as int) =~= entries@);
    hits
}

/// The keys that the chosen entries are ranked by.
pub(crate) fn entry_sort_keys(entries: &Vec<PurchaseEntry>, hits: &Vec<usize>) -> (keys: Vec<
    SortKey,
>)
    requires
        forall|j: int| 0 <= j < hits.len() ==> (#[trigger] hits[j]) < entries.len(),
    ensures
        key_views(keys@) == entry_keys(chosen(entries@, hits@)),
        keys.len() == hits.len(),
{
    let mut keys: Vec<SortKey> = Vec::new();
    let mut j: usize = 0;
    while j < hits.len()
        invariant
            j <= hits.len(),
            keys.len() == j,
            forall|k: int| 0 <= k < hits.len() ==> (#[trigger] hits[k]) < entries.len(),
            forall|k: int| 0 <= k < j ==> (#[trigger] keys[k])@ == entry_key(entries[hits[k] as int]),
        decreases hits.len() - j,
    {
        let e = &entries[hits[j]];
        keys.push(
            SortKey {
                rank: 0,
                first: chars_of(e.entry_date.as_str()),
                second: chars_of(e.date.as_str()),
                id: e.id,
            },
        );
        j = j + 1;
    }
    assert(key_views(keys@) =~= entry_keys(chosen(entries@, hits@)));
    keys
}

/// Copies of the chosen entries at the given positions among them.
pub(crate) fn copy_entries(entries: &Vec<PurchaseEntry>, hits: &Vec<usize>, picks: &Vec<usize>) -> (data:
    Vec<PurchaseEntry>)
    requires
        forall|j: int| 0 <= j < hits.len() ==> (#[trigger] hits[j]) < entries.len(),
        forall|j: int| 0 <= j < picks.len() ==> (#[trigger] picks[j]) < hits.len(),
    ensures
        data@ == positions(picks@).map_values(|i: int| chosen(entries@, hits@)[i]),
{
    let mut data: Vec<PurchaseEntry> = Vec::new();
    let mut k: usize = 0;
    while k < picks.len()
        invariant
            k <= picks.len(),
            data.len() == k,
            forall|j: int| 0 <= j < hits.len() ==> (#[trigger] hits[j]) < entries.len(),
            forall|j: int| 0 <= j < picks.len() ==> (#[trigger] picks[j]) < hits.len(),
            forall|j: int| 0 <= j < k ==> (#[trigger] data[j]) == entries[hits[picks[j] as int] as int],
        decreases picks.len() - k,
    {
        data.push(entries[hits[picks[k]]].duplicate());
        k = k + 1;
    }
    assert(data@ =~= positions(picks@).map_values(|i: int| chosen(entries@, hits@)[i]));
    data
}

/// Lists the entries that meet the filters, the most recent first, one
/// page of them, together with the count of all that meet the filters.
/// The count and the rows are taken by the same list of conditions.
pub fn get_purchases(
    db: &Db,
    filters: Option<PurchaseFilters>,
    page: Option<i64>,
    page_size: Option<i64>,
) -> (r: Result<Page<PurchaseEntry>, LedgerError>)
    requires
        db.wf(),
    ensures
        r matches Ok(p) && listing_is(p, db@.entries, conditions_of_opt(filters), page, page_size),
{
    proof {
        db.tables();
    }
    let w = normalize(page, page_size);
    let ps: Vec<Predicate> = match &filters {
        Some(f) => f.conditions(),
        None => Vec::new(),
    };
    let hits = matching_entries(&db.entries, &ps);
    let keys = entry_sort_keys(&db.entries, &hits);
    let picks = page_positions(&keys, true, w.offset, w.page_size);
    let data = copy_entries(&db.entries, &hits, &picks);
    proof {
        let rows = chosen(db.entries@, hits@);
        assert(rows == db@.entries.filter(passing(ps@)));
        page_of_mapped(
            arranged(entry_keys(rows), true),
            |i: int| rows[i],
            w.offset as int,
            w.page_size as int,
        );
        db@.entries.lemma_filter_len(passing(ps@));
        assert(rows.len() == hits.len());
        if db@.entries.len() > 0 {
            entry_ids_grow(db@.entries, db@.next_entry, db@.entries.len() - 1);
        }
    }
    Ok(Page { data, total: hits.len() as i64, page: w.page, page_size: w.page_size })
}

} // verus!
