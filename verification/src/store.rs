//! The record store: four tables and the rules that hold between them.
use vstd::prelude::*;
use crate::models::{PurchaseEntry, PurchaseItem, Supplier, User};

verus! {

/// What the store holds, as mathematics: each table in the order of its
/// identities, and the identity that each table gives out next.
pub struct Tables {
    pub suppliers: Seq<Supplier>,
    pub entries: Seq<PurchaseEntry>,
    pub items: Seq<PurchaseItem>,
    pub users: Seq<User>,
    pub next_supplier: int,
    pub next_entry: int,
    pub next_item: int,
    pub next_user: int,
}

/// Whether a supplier with this identity is held.
pub open spec fn has_supplier(suppliers: Seq<Supplier>, id: int) -> bool {
    exists|i: int| 0 <= i < suppliers.len() && (#[trigger] suppliers[i]).id == id
}

/// Whether an entry with this identity is held.
pub open spec fn has_entry(entries: Seq<PurchaseEntry>, id: int) -> bool {
    exists|i: int| 0 <= i < entries.len() && (#[trigger] entries[i]).id == id
}

/// Whether an item with this identity is held.
pub open spec fn has_item(items: Seq<PurchaseItem>, id: int) -> bool {
    exists|i: int| 0 <= i < items.len() && (#[trigger] items[i]).id == id
}

/// Whether a user of this name is held.
pub open spec fn has_user(users: Seq<User>, name: Seq<char>) -> bool {
    exists|i: int| 0 <= i < users.len() && (#[trigger] users[i]).username@ == name
}

/// Whether an entry refers to this supplier.
pub open spec fn supplier_in_use(entries: Seq<PurchaseEntry>, id: int) -> bool {
    exists|i: int| 0 <= i < entries.len() && (#[trigger] entries[i]).supplier_id == id
}

/// Suppliers stand in the order of their identities, all of them given
/// out already, and each flag is 0 or 1.
pub open spec fn suppliers_in_order(suppliers: Seq<Supplier>, next: int) -> bool {
    &&& forall|i: int, j: int|
        0 <= i < j < suppliers.len() ==> (#[trigger] suppliers[i]).id < (#[trigger] suppliers[j]).id
    &&& forall|i: int| 0 <= i < suppliers.len() ==> 1 <= (#[trigger] suppliers[i]).id < next
    &&& forall|i: int|
        0 <= i < suppliers.len() ==> (#[trigger] suppliers[i]).tds_flag == 0 || suppliers[i].tds_flag
            == 1
}

/// Entries stand in the order of their identities, all of them given out
/// already.
pub open spec fn entries_in_order(entries: Seq<PurchaseEntry>, next: int) -> bool {
    &&& forall|i: int, j: int|
        0 <= i < j < entries.len() ==> (#[trigger] entries[i]).id < (#[trigger] entries[j]).id
    &&& forall|i: int| 0 <= i < entries.len() ==> 1 <= (#[trigger] entries[i]).id < next
}

/// Items stand in the order of their identities, all of them given out
/// already.
pub open spec fn items_in_order(items: Seq<PurchaseItem>, next: int) -> bool {
    &&& forall|i: int, j: int|
        0 <= i < j < items.len() ==> (#[trigger] items[i]).id < (#[trigger] items[j]).id
    &&& forall|i: int| 0 <= i < items.len() ==> 1 <= (#[trigger] items[i]).id < next
}

/// Users stand in the order of their identities, all of them given out
/// already, and no two share a name.
pub open spec fn users_in_order(users: Seq<User>, next: int) -> bool {
    &&& forall|i: int, j: int|
        0 <= i < j < users.len() ==> (#[trigger] users[i]).id < (#[trigger] users[j]).id
    &&& forall|i: int| 0 <= i < users.len() ==> 1 <= (#[trigger] users[i]).id < next
    &&& forall|i: int, j: int|
        0 <= i < j < users.len() ==> (#[trigger] users[i]).username@ != (#[trigger] users[j]).username@
}

/// Every entry refers to a supplier that is held.
pub open spec fn entries_have_suppliers(
    suppliers: Seq<Supplier>,
    entries: Seq<PurchaseEntry>,
) -> bool {
    forall|i: int|
        0 <= i < entries.len() ==> has_supplier(suppliers, (#[trigger] entries[i]).supplier_id as int)
}

/// Every item belongs to an entry that is held.
pub open spec fn items_have_entries(entries: Seq<PurchaseEntry>, items: Seq<PurchaseItem>) -> bool {
    forall|i: int|
        0 <= i < items.len() ==> has_entry(entries, (#[trigger] items[i]).purchase_id as int)
}

/// The rules of the store.
pub open spec fn consistent(t: Tables) -> bool {
    &&& 1 <= t.next_supplier <= i64::MAX
    &&& 1 <= t.next_entry <= i64::MAX
    &&& 1 <= t.next_item <= i64::MAX
    &&& 1 <= t.next_user <= i64::MAX
    &&& suppliers_in_order(t.suppliers, t.next_supplier)
    &&& entries_in_order(t.entries, t.next_entry)
    &&& items_in_order(t.items, t.next_item)
    &&& users_in_order(t.users, t.next_user)
    &&& entries_have_suppliers(t.suppliers, t.entries)
    &&& items_have_entries(t.entries, t.items)
}

/// In a table in the order of its identities, the row at place `i` has
/// an identity of at least `i + 1`: the table holds fewer rows than the
/// identity that it gives out next.
pub proof fn entry_ids_grow(entries: Seq<PurchaseEntry>, next: int, i: int)
    requires
        entries_in_order(entries, next),
        0 <= i < entries.len(),
    ensures
        entries[i].id >= i + 1,
    decreases i,
{
    if i > 0 {
        entry_ids_grow(entries, next, i - 1);
    }
}

/// The same for suppliers.
pub proof fn supplier_ids_grow(suppliers: Seq<Supplier>, next: int, i: int)
    requires
        suppliers_in_order(suppliers, next),
        0 <= i < suppliers.len(),
    ensures
        suppliers[i].id >= i + 1,
    decreases i,
{
    if i > 0 {
        supplier_ids_grow(suppliers, next, i - 1);
    }
}

/// The same for items.
pub proof fn item_ids_grow(items: Seq<PurchaseItem>, next: int, i: int)
    requires
        items_in_order(items, next),
        0 <= i < items.len(),
    ensures
        items[i].id >= i + 1,
    decreases i,
{
    if i > 0 {
        item_ids_grow(items, next, i - 1);
    }
}

/// The items of other entries than this one, as a test on one item.
pub open spec fn other_purchase(id: i64) -> spec_fn(PurchaseItem) -> bool {
    |it: PurchaseItem| it.purchase_id != id
}

/// The items of this entry, as a test on one item.
pub open spec fn of_purchase(id: i64) -> spec_fn(PurchaseItem) -> bool {
    |it: PurchaseItem| it.purchase_id == id
}

/// The entries other than this one, as a test on one entry.
pub open spec fn other_entry(id: i64) -> spec_fn(PurchaseEntry) -> bool {
    |e: PurchaseEntry| e.id != id
}

/// The suppliers other than this one, as a test on one supplier.
pub open spec fn other_supplier(id: i64) -> spec_fn(Supplier) -> bool {
    |s: Supplier| s.id != id
}

/// The items that are kept out of a table in order are in order, are
/// items of the table, and are among those to keep.
pub proof fn kept_items_in_order(items: Seq<PurchaseItem>, next: int, keep: spec_fn(PurchaseItem) -> bool)
    requires
        items_in_order(items, next),
    ensures
        items_in_order(items.filter(keep), next),
        forall|j: int|
            0 <= j < items.filter(keep).len() ==> items.contains(#[trigger] items.filter(keep)[j])
                && keep(items.filter(keep)[j]),
    decreases items.len(),
{
    reveal(Seq::filter);
    if items.len() > 0 {
        let rest = items.drop_last();
        let last = items.last();
        kept_items_in_order(rest, next, keep);
        let kept = rest.filter(keep);
        assert forall|j: int| 0 <= j < kept.len() implies items.contains(#[trigger] kept[j])
            && kept[j].id < last.id by {
            let m = choose|m: int| 0 <= m < rest.len() && rest[m] == kept[j];
            assert(items[m] == kept[j]);
        }
        if keep(last) {
            assert(items[items.len() - 1] == last);
        }
    }
}

/// The same for entries.
pub proof fn kept_entries_in_order(
    entries: Seq<PurchaseEntry>,
    next: int,
    keep: spec_fn(PurchaseEntry) -> bool,
)
    requires
        entries_in_order(entries, next),
    ensures
        entries_in_order(entries.filter(keep), next),
        forall|j: int|
            0 <= j < entries.filter(keep).len() ==> entries.contains(
                #[trigger] entries.filter(keep)[j],
            ) && keep(entries.filter(keep)[j]),
    decreases entries.len(),
{
    reveal(Seq::filter);
    if entries.len() > 0 {
        let rest = entries.drop_last();
        let last = entries.last();
        kept_entries_in_order(rest, next, keep);
        let kept = rest.filter(keep);
        assert forall|j: int| 0 <= j < kept.len() implies entries.contains(#[trigger] kept[j])
            && kept[j].id < last.id by {
            let m = choose|m: int| 0 <= m < rest.len() && rest[m] == kept[j];
            assert(entries[m] == kept[j]);
        }
        if keep(last) {
            assert(entries[entries.len() - 1] == last);
        }
    }
}

/// The same for suppliers.
pub proof fn kept_suppliers_in_order(
    suppliers: Seq<Supplier>,
    next: int,
    keep: spec_fn(Supplier) -> bool,
)
    requires
        suppliers_in_order(suppliers, next),
    ensures
        suppliers_in_order(suppliers.filter(keep), next),
        forall|j: int|
            0 <= j < suppliers.filter(keep).len() ==> suppliers.contains(
                #[trigger] suppliers.filter(keep)[j],
            ) && keep(suppliers.filter(keep)[j]),
    decreases suppliers.len(),
{
    reveal(Seq::filter);
    if suppliers.len() > 0 {
        let rest = suppliers.drop_last();
        let last = suppliers.last();
        kept_suppliers_in_order(rest, next, keep);
        let kept = rest.filter(keep);
        assert forall|j: int| 0 <= j < kept.len() implies suppliers.contains(#[trigger] kept[j])
            && kept[j].id < last.id by {
            let m = choose|m: int| 0 <= m < rest.len() && rest[m] == kept[j];
            assert(suppliers[m] == kept[j]);
        }
        if keep(last) {
            assert(suppliers[suppliers.len() - 1] == last);
        }
    }
}

/// The store that holds nothing and gives out 1 as the first identity of
/// each table.
pub open spec fn empty_tables() -> Tables {
    Tables {
        suppliers: Seq::empty(),
        entries: Seq::empty(),
        items: Seq::empty(),
        users: Seq::empty(),
        next_supplier: 1,
        next_entry: 1,
        next_item: 1,
        next_user: 1,
    }
}

/// The record store. A store is made by `new` or `restore` and changed
/// only by the operations of the ledger, so every store that a caller
/// holds obeys the rules.
pub struct Db {
    pub(crate) suppliers: Vec<Supplier>,
    pub(crate) entries: Vec<PurchaseEntry>,
    pub(crate) items: Vec<PurchaseItem>,
    pub(crate) users: Vec<User>,
    pub(crate) next_supplier: i64,
    pub(crate) next_entry: i64,
    pub(crate) next_item: i64,
    pub(crate) next_user: i64,
}

impl View for Db {
    type V = Tables;

    closed spec fn view(&self) -> Tables {
        Tables {
            suppliers: self.suppliers@,
            entries: self.entries@,
            items: self.items@,
            users: self.users@,
            next_supplier: self.next_supplier as int,
            next_entry: self.next_entry as int,
            next_item: self.next_item as int,
            next_user: self.next_user as int,
        }
    }
}

impl Db {
    /// The store obeys its rules. Every operation keeps this.
    pub open spec fn wf(&self) -> bool {
        consistent(self@)
    }

    /// The tables of the store, field by field.
    pub(crate) proof fn tables(&self)
        ensures
            self@.suppliers == self.suppliers@,
            self@.entries == self.entries@,
            self@.items == self.items@,
            self@.users == self.users@,
            self@.next_supplier == self.next_supplier,
            self@.next_entry == self.next_entry,
            self@.next_item == self.next_item,
            self@.next_user == self.next_user,
    {
    }

    /// An empty store.
    pub fn new() -> (db: Db)
        ensures
            db.wf(),
            db@ == empty_tables(),
    {
        Db {
            suppliers: Vec::new(),
            entries: Vec::new(),
            items: Vec::new(),
            users: Vec::new(),
            next_supplier: 1,
            next_entry: 1,
            next_item: 1,
            next_user: 1,
        }
    }

    /// The place of the supplier with this identity.
    pub(crate) fn find_supplier(&self, id: i64) -> (r: Option<usize>)
        ensures
            match r {
                Some(k) => k < self@.suppliers.len() && self@.suppliers[k as int].id == id,
                None => !has_supplier(self@.suppliers, id as int),
            },
    {
        let mut k: usize = 0;
        while k < self.suppliers.len()
            invariant
                k <= self.suppliers.len(),
                forall|i: int| 0 <= i < k ==> (#[trigger] self.suppliers@[i]).id != id,
            decreases self.suppliers.len() - k,
        {
            if self.suppliers[k].id == id {
                return Some(k);
            }
            k = k + 1;
        }
        None
    }

    /// The place of the entry with this identity.
    pub(crate) fn find_entry(&self, id: i64) -> (r: Option<usize>)
        ensures
            match r {
                Some(k) => k < self@.entries.len() && self@.entries[k as int].id == id,
                None => !has_entry(self@.entries, id as int),
            },
    {
        let mut k: usize = 0;
        while k < self.entries.len()
            invariant
                k <= self.entries.len(),
                forall|i: int| 0 <= i < k ==> (#[trigger] self.entries@[i]).id != id,
            decreases self.entries.len() - k,
        {
            if self.entries[k].id == id {
                return Some(k);
            }
            k = k + 1;
        }
        None
    }

    /// The place of the item with this identity.
    pub(crate) fn find_item(&self, id: i64) -> (r: Option<usize>)
        ensures
            match r {
                Some(k) => k < self@.items.len() && self@.items[k as int].id == id,
                None => !has_item(self@.items, id as int),
            },
    {
        let mut k: usize = 0;
        while k < self.items.len()
            invariant
                k <= self.items.len(),
                forall|i: int| 0 <= i < k ==> (#[trigger] self.items@[i]).id != id,
            decreases self.items.len() - k,
        {
            if self.items[k].id == id {
                return Some(k);
            }
            k = k + 1;
        }
        None
    }

    /// The place of the user of this name.
    pub(crate) fn find_user(&self, name: &String) -> (r: Option<usize>)
        ensures
            match r {
                Some(k) => k < self@.users.len() && self@.users[k as int].username@ == name@,
                None => !has_user(self@.users, name@),
            },
    {
        let mut k: usize = 0;
        while k < self.users.len()
            invariant
                k <= self.users.len(),
                forall|i: int| 0 <= i < k ==> (#[trigger] self.users@[i]).username@ != name@,
            decreases self.users.len() - k,
        {
            if self.users[k].username == *name {
                return Some(k);
            }
            k = k + 1;
        }
        None
    }
}

} // verus!
