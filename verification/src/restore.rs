//! Taking tables that were kept elsewhere back into a store, and handing
//! the tables of a store out. Tables are taken only where they obey the
//! rules of the store.
use vstd::prelude::*;
use vstd::string::*;
use crate::error::LedgerError;
use crate::models::{PurchaseEntry, PurchaseItem, Supplier, User};
use crate::store::{
    consistent, entries_have_suppliers, entries_in_order, has_entry, has_supplier,
    items_have_entries, items_in_order, suppliers_in_order, users_in_order, Db, Tables,
};

verus! {

/// The identities that the tables of a store give out next.
#[derive(Clone, Copy, Debug, PartialEq, Eq, Structural)]
pub struct NextIds {
    pub supplier: i64,
    pub entry: i64,
    pub item: i64,
    pub user: i64,
}

/// The identities of a table of suppliers.
pub open spec fn supplier_ids(rows: Seq<Supplier>) -> Seq<i64> {
    rows.map_values(|r: Supplier| r.id)
}

/// The identities of a table of entries.
pub open spec fn entry_ids(rows: Seq<PurchaseEntry>) -> Seq<i64> {
    rows.map_values(|r: PurchaseEntry| r.id)
}

/// The identities of a table of items.
pub open spec fn item_ids(rows: Seq<PurchaseItem>) -> Seq<i64> {
    rows.map_values(|r: PurchaseItem| r.id)
}

/// The identities of a table of users.
pub open spec fn user_ids(rows: Seq<User>) -> Seq<i64> {
    rows.map_values(|r: User| r.id)
}

/// The store that holds these tables and gives out these identities
/// next.
pub open spec fn restored(
    suppliers: Seq<Supplier>,
    entries: Seq<PurchaseEntry>,
    items: Seq<PurchaseItem>,
    users: Seq<User>,
    next: NextIds,
) -> Tables {
    Tables {
        suppliers,
        entries,
        items,
        users,
        next_supplier: next.supplier as int,
        next_entry: next.entry as int,
        next_item: next.item as int,
        next_user: next.user as int,
    }
}

/// Identities stand in ascending order, each at least 1 and below the
/// one that is given out next, which is at least 1 itself.
pub open spec fn ids_in_order(ids: Seq<i64>, next: i64) -> bool {
    &&& 1 <= next
    &&& forall|i: int, j: int| 0 <= i < j < ids.len() ==> (#[trigger] ids[i]) < (#[trigger] ids[j])
    &&& forall|i: int| 0 <= i < ids.len() ==> 1 <= (#[trigger] ids[i]) < next
}

fn check_ids(ids: &Vec<i64>, next: i64) -> (r: bool)
    ensures
        r == ids_in_order(ids@, next),
{
    if next < 1 {
        return false;
    }
    let mut i: usize = 0;
    while i < ids.len()
        invariant
            i <= ids.len(),
            forall|a: int, b: int| 0 <= a < b < i ==> (#[trigger] ids[a]) < (#[trigger] ids[b]),
            forall|a: int| 0 <= a < i ==> 1 <= (#[trigger] ids[a]) < next,
        decreases ids.len() - i,
    {
        if ids[i] < 1 || ids[i] >= next {
            return false;
        }
        if i > 0 && ids[i - 1] >= ids[i] {
            return false;
        }
        proof {
            assert forall|a: int, b: int| 0 <= a < b < i + 1 implies (#[trigger] ids[a]) < (#[trigger] ids[b]) by {
                if b == i && a < i - 1 {
                    assert(ids[a] < ids[i - 1]);
                }
            }
        }
        i = i + 1;
    }
    true
}

fn ids_of_suppliers(rows: &Vec<Supplier>) -> (ids: Vec<i64>)
    ensures
        ids@ == supplier_ids(rows@),
{
    let mut ids: Vec<i64> = Vec::new();
    let mut i: usize = 0;
    while i < rows.len()
        invariant
            i <= rows.len(),
            ids.len() == i,
            forall|k: int| 0 <= k < i ==> #[trigger] ids[k] == rows[k].id,
        decreases rows.len() - i,
    {
        ids.push(rows[i].id);
        i = i + 1;
    }
    assert(ids@ =~= supplier_ids(rows@));
    ids
}

fn ids_of_entries(rows: &Vec<PurchaseEntry>) -> (ids: Vec<i64>)
    ensures
        ids@ == entry_ids(rows@),
{
    let mut ids: Vec<i64> = Vec::new();
    let mut i: usize = 0;
    while i < rows.len()
        invariant
            i <= rows.len(),
            ids.len() == i,
            forall|k: int| 0 <= k < i ==> #[trigger] ids[k] == rows[k].id,
        decreases rows.len() - i,
    {
        ids.push(rows[i].id);
        i = i + 1;
    }
    assert(ids@ =~= entry_ids(rows@));
    ids
}

fn ids_of_items(rows: &Vec<PurchaseItem>) -> (ids: Vec<i64>)
    ensures
        ids@ == item_ids(rows@),
{
    let mut ids: Vec<i64> = Vec::new();
    let mut i: usize = 0;
    while i < rows.len()
        invariant
            i <= rows.len(),
            ids.len() == i,
            forall|k: int| 0 <= k < i ==> #[trigger] ids[k] == rows[k].id,
        decreases rows.len() - i,
    {
        ids.push(rows[i].id);
        i = i + 1;
    }
    assert(ids@ =~= item_ids(rows@));
    ids
}

fn ids_of_users(rows: &Vec<User>) -> (ids: Vec<i64>)
    ensures
        ids@ == user_ids(rows@),
{
    let mut ids: Vec<i64> = Vec::new();
    let mut i: usize = 0;
    while i < rows.len()
        invariant
            i <= rows.len(),
            ids.len() == i,
            forall|k: int| 0 <= k < i ==> #[trigger] ids[k] == rows[k].id,
        decreases rows.len() - i,
    {
        ids.push(rows[i].id);
        i = i + 1;
    }
    assert(ids@ =~= user_ids(rows@));
    ids
}

fn check_flags(rows: &Vec<Supplier>) -> (r: bool)
    ensures
        r == forall|i: int|
            0 <= i < rows.len() ==> (#[trigger] rows[i]).tds_flag == 0 || rows[i].tds_flag == 1,
{
    let mut i: usize = 0;
    while i < rows.len()
        invariant
            i <= rows.len(),
            forall|k: int| 0 <= k < i ==> (#[trigger] rows[k]).tds_flag == 0 || rows[k].tds_flag == 1,
        decreases rows.len() - i,
    {
        if rows[i].tds_flag != 0 && rows[i].tds_flag != 1 {
            return false;
        }
        i = i + 1;
    }
    true
}

fn check_names(rows: &Vec<User>) -> (r: bool)
    ensures
        r == forall|i: int, j: int|
            0 <= i < j < rows.len() ==> (#[trigger] rows[i]).username@ != (#[trigger] rows[j]).username@,
{
    let mut j: usize = 0;
    while j < rows.len()
        invariant
            j <= rows.len(),
            forall|a: int, b: int|
                0 <= a < b < j ==> (#[trigger] rows[a]).username@ != (#[trigger] rows[b]).username@,
        decreases rows.len() - j,
    {
        let mut i: usize = 0;
        while i < j
            invariant
                i <= j < rows.len(),
                forall|a: int| 0 <= a < i ==> (#[trigger] rows[a]).username@ != rows[j as int].username@,
            decreases j - i,
        {
            if rows[i].username == rows[j].username {
                return false;
            }
            i = i + 1;
        }
        j = j + 1;
    }
    true
}

fn holds_supplier(rows: &Vec<Supplier>, id: i64) -> (r: bool)
    ensures
        r == has_supplier(rows@, id as int),
{
    let mut k: usize = 0;
    while k < rows.len()
        invariant
            k <= rows.len(),
            forall|i: int| 0 <= i < k ==> (#[trigger] rows[i]).id != id,
        decreases rows.len() - k,
    {
        if rows[k].id == id {
            return true;
        }
        k = k + 1;
    }
    false
}

fn holds_entry(rows: &Vec<PurchaseEntry>, id: i64) -> (r: bool)
    ensures
        r == has_entry(rows@, id as int),
{
    let mut k: usize = 0;
    while k < rows.len()
        invariant
            k <= rows.len(),
            forall|i: int| 0 <= i < k ==> (#[trigger] rows[i]).id != id,
        decreases rows.len() - k,
    {
        if rows[k].id == id {
            return true;
        }
        k = k + 1;
    }
    false
}

fn check_entry_suppliers(suppliers: &Vec<Supplier>, entries: &Vec<PurchaseEntry>) -> (r: bool)
    ensures
        r == entries_have_suppliers(suppliers@, entries@),
{
    let mut i: usize = 0;
    while i < entries.len()
        invariant
            i <= entries.len(),
            forall|k: int|
                0 <= k < i ==> has_supplier(suppliers@, (#[trigger] entries[k]).supplier_id as int),
        decreases entries.len() - i,
    {
        if !holds_supplier(suppliers, entries[i].supplier_id) {
            return false;
        }
        i = i + 1;
    }
    true
}

fn check_item_entries(entries: &Vec<PurchaseEntry>, items: &Vec<PurchaseItem>) -> (r: bool)
    ensures
        r == items_have_entries(entries@, items@),
{
    let mut i: usize = 0;
    while i < items.len()
        invariant
            i <= items.len(),
            forall|k: int| 0 <= k < i ==> has_entry(entries@, (#[trigger] items[k]).purchase_id as int),
        decreases items.len() - i,
    {
        if !holds_entry(entries, items[i].purchase_id) {
            return false;
        }
        i = i + 1;
    }
    true
}

impl Db {
    /// Takes tables into a store. The tables are taken where they obey
    /// the rules of the store together with the identities to give out
    /// next; else they are refused.
    pub fn restore(
        suppliers: Vec<Supplier>,
        entries: Vec<PurchaseEntry>,
        items: Vec<PurchaseItem>,
        users: Vec<User>,
        next: NextIds,
    ) -> (r: Result<Db, LedgerError>)
        ensures
            match r {
                Ok(db) => db.wf() && db@ == restored(suppliers@, entries@, items@, users@, next),
                Err(e) => e == LedgerError::Inconsistent && !consistent(
                    restored(suppliers@, entries@, items@, users@, next),
                ),
            },
    {
        let ghost t = restored(suppliers@, entries@, items@, users@, next);
        let s_ids = ids_of_suppliers(&suppliers);
        let e_ids = ids_of_entries(&entries);
        let i_ids = ids_of_items(&items);
        let u_ids = ids_of_users(&users);
        if !check_ids(&s_ids, next.supplier) {
            proof {
                if suppliers_in_order(t.suppliers, t.next_supplier) && 1 <= t.next_supplier {
                    assert forall|i: int, j: int| 0 <= i < j < s_ids@.len() implies (#[trigger] s_ids@[i])
                        < (#[trigger] s_ids@[j]) by {
                        assert(suppliers@[i].id < suppliers@[j].id);
                    }
                    assert forall|i: int| 0 <= i < s_ids@.len() implies 1 <= (#[trigger] s_ids@[i])
                        < next.supplier by {
                        assert(1 <= suppliers@[i].id < t.next_supplier);
                    }
                }
            }
            return Err(LedgerError::Inconsistent);
        }
        if !check_ids(&e_ids, next.entry) {
            proof {
                if entries_in_order(t.entries, t.next_entry) && 1 <= t.next_entry {
                    assert forall|i: int, j: int| 0 <= i < j < e_ids@.len() implies (#[trigger] e_ids@[i])
                        < (#[trigger] e_ids@[j]) by {
                        assert(entries@[i].id < entries@[j].id);
                    }
                    assert forall|i: int| 0 <= i < e_ids@.len() implies 1 <= (#[trigger] e_ids@[i])
                        < next.entry by {
                        assert(1 <= entries@[i].id < t.next_entry);
                    }
                }
            }
            return Err(LedgerError::Inconsistent);
        }
        if !check_ids(&i_ids, next.item) {
            proof {
                if items_in_order(t.items, t.next_item) && 1 <= t.next_item {
                    assert forall|i: int, j: int| 0 <= i < j < i_ids@.len() implies (#[trigger] i_ids@[i])
                        < (#[trigger] i_ids@[j]) by {
                        assert(items@[i].id < items@[j].id);
                    }
                    assert forall|i: int| 0 <= i < i_ids@.len() implies 1 <= (#[trigger] i_ids@[i])
                        < next.item by {
                        assert(1 <= items@[i].id < t.next_item);
                    }
                }
            }
            return Err(LedgerError::Inconsistent);
        }
        if !check_ids(&u_ids, next.user) {
            proof {
                if users_in_order(t.users, t.next_user) && 1 <= t.next_user {
                    assert forall|i: int, j: int| 0 <= i < j < u_ids@.len() implies (#[trigger] u_ids@[i])
                        < (#[trigger] u_ids@[j]) by {
                        assert(users@[i].id < users@[j].id);
                    }
                    assert forall|i: int| 0 <= i < u_ids@.len() implies 1 <= (#[trigger] u_ids@[i])
                        < next.user by {
                        assert(1 <= users@[i].id < t.next_user);
                    }
                }
            }
            return Err(LedgerError::Inconsistent);
        }
        if !check_flags(&suppliers) || !check_names(&users) {
            return Err(LedgerError::Inconsistent);
        }
        if !check_entry_suppliers(&suppliers, &entries) || !check_item_entries(&entries, &items) {
            return Err(LedgerError::Inconsistent);
        }
        proof {
            assert forall|i: int, j: int| 0 <= i < j < suppliers@.len() implies (#[trigger] suppliers@[i]).id
                < (#[trigger] suppliers@[j]).id by {
                assert(s_ids@[i] < s_ids@[j]);
            }
            assert forall|i: int| 0 <= i < suppliers@.len() implies 1 <= (#[trigger] suppliers@[i]).id
                < next.supplier by {
                assert(1 <= s_ids@[i] < next.supplier);
            }
            assert forall|i: int, j: int| 0 <= i < j < entries@.len() implies (#[trigger] entries@[i]).id
                < (#[trigger] entries@[j]).id by {
                assert(e_ids@[i] < e_ids@[j]);
            }
            assert forall|i: int| 0 <= i < entries@.len() implies 1 <= (#[trigger] entries@[i]).id
                < next.entry by {
                assert(1 <= e_ids@[i] < next.entry);
            }
            assert forall|i: int, j: int| 0 <= i < j < items@.len() implies (#[trigger] items@[i]).id
                < (#[trigger] items@[j]).id by {
                assert(i_ids@[i] < i_ids@[j]);
            }
            assert forall|i: int| 0 <= i < items@.len() implies 1 <= (#[trigger] items@[i]).id
                < next.item by {
                assert(1 <= i_ids@[i] < next.item);
            }
            assert forall|i: int, j: int| 0 <= i < j < users@.len() implies (#[trigger] users@[i]).id
                < (#[trigger] users@[j]).id by {
                assert(u_ids@[i] < u_ids@[j]);
            }
            assert forall|i: int| 0 <= i < users@.len() implies 1 <= (#[trigger] users@[i]).id
                < next.user by {
                assert(1 <= u_ids@[i] < next.user);
            }
        }
        let db = Db {
            suppliers,
            entries,
            items,
            users,
            next_supplier: next.supplier,
            next_entry: next.entry,
            next_item: next.item,
            next_user: next.user,
        };
        proof {
            db.tables();
        }
        Ok(db)
    }

    /// The identities that the tables of the store give out next.
    pub fn next_ids(&self) -> (next: NextIds)
        ensures
            next.supplier == self@.next_supplier,
            next.entry == self@.next_entry,
            next.item == self@.next_item,
            next.user == self@.next_user,
    {
        proof {
            self.tables();
        }
        NextIds {
            supplier: self.next_supplier,
            entry: self.next_entry,
            item: self.next_item,
            user: self.next_user,
        }
    }

    /// The suppliers of the store in the order of their identities.
    pub fn suppliers(&self) -> (rows: &Vec<Supplier>)
        ensures
            rows@ == self@.suppliers,
    {
        proof {
            self.tables();
        }
        &self.suppliers
    }

    /// The entries of the store in the order of their identities.
    pub fn entries(&self) -> (rows: &Vec<PurchaseEntry>)
        ensures
            rows@ == self@.entries,
    {
        proof {
            self.tables();
        }
        &self.entries
    }

    /// The items of the store in the order of their identities.
    pub fn items(&self) -> (rows: &Vec<PurchaseItem>)
        ensures
            rows@ == self@.items,
    {
        proof {
            self.tables();
        }
        &self.items
    }

    /// The users of the store in the order of their identities.
    pub fn users(&self) -> (rows: &Vec<User>)
        ensures
            rows@ == self@.users,
    {
        proof {
            self.tables();
        }
        &self.users
    }
}

} // verus!
