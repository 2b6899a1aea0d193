//! The records of the ledger and the payloads of its operations.
//!
//! Numbers are whole numbers in the caller's units: a value of money in
//! the smallest unit that the caller counts in, a rate in the caller's
//! fraction of a percent. The ledger adds and multiplies them exactly.
use vstd::prelude::*;
use vstd::string::*;
use crate::error::LedgerError;
use crate::text::copy_text;

verus! {

/// A supplier as the store holds it. `tds_flag` is 0 or 1.
#[derive(Debug, Clone, PartialEq, Eq)]
pub struct Supplier {
    pub id: i64,
    pub name: String,
    pub gst_no: Option<String>,
    pub state_code: Option<String>,
    pub tds_flag: i64,
    pub tds_rate: Option<i64>,
    pub contact: Option<String>,
    pub email: Option<String>,
}

/// What a caller gives to create a supplier.
#[derive(Debug, Clone, PartialEq, Eq)]
pub struct SupplierCreate {
    pub name: String,
    pub gst_no: Option<String>,
    pub state_code: Option<String>,
    pub tds_flag: bool,
    pub tds_rate: Option<i64>,
    pub contact: Option<String>,
    pub email: Option<String>,
}

/// A change to a supplier: a field that is `None` stays as it is.
#[derive(Debug, Clone, PartialEq, Eq)]
pub struct SupplierUpdate {
    pub id: i64,
    pub name: Option<String>,
    pub gst_no: Option<String>,
    pub state_code: Option<String>,
    pub tds_flag: Option<bool>,
    pub tds_rate: Option<i64>,
    pub contact: Option<String>,
    pub email: Option<String>,
}

/// One page of a list: `total` counts every row that matches, whatever
/// the page.
#[derive(Debug, Clone, PartialEq, Eq)]
pub struct Page<T> {
    pub data: Vec<T>,
    pub total: i64,
    pub page: i64,
    pub page_size: i64,
}

/// A user as the store holds it.
#[derive(Debug, Clone, PartialEq, Eq)]
pub struct User {
    pub id: i64,
    pub username: String,
    pub password_hash: String,
    pub role: String,
    pub created_at: String,
}

/// What a caller gives to register a user.
#[derive(Debug, Clone, PartialEq, Eq)]
pub struct UserCreate {
    pub username: String,
    pub password: String,
    pub role: Option<String>,
}

/// What a caller gives to log in.
#[derive(Debug, Clone, PartialEq, Eq)]
pub struct LoginPayload {
    pub username: String,
    pub password: String,
}

/// What a successful login returns.
#[derive(Debug, Clone, PartialEq, Eq)]
pub struct LoginResponse {
    pub user: User,
    pub token: String,
}

/// The totals of the entries of a date range.
#[derive(Debug, Clone, Copy, PartialEq, Eq)]
pub struct ReportSummary {
    pub total_purchases: i64,
    pub total_gst: i64,
    pub total_suppliers: i64,
    pub total_items: i64,
}

/// The invoice value of a date range that falls to one supplier name.
#[derive(Debug, Clone, PartialEq, Eq)]
pub struct PurchasesBySupplier {
    pub supplier_name: String,
    pub total_purchases: i64,
}

/// A purchase invoice as the store holds it.
#[derive(Debug, Clone, PartialEq, Eq)]
pub struct PurchaseEntry {
    pub id: i64,
    pub supplier_id: i64,
    pub invoice_no: String,
    pub date: String,
    pub entry_date: String,
    pub gst_rate: i64,
    pub basic_value: i64,
    pub sgst: i64,
    pub cgst: i64,
    pub igst: i64,
    pub invoice_value: i64,
    pub tds_value: i64,
    pub narration: Option<String>,
    pub status: String,
}

/// One line of an invoice as a caller gives it.
#[derive(Debug, Clone, PartialEq, Eq)]
pub struct PurchaseItemPayload {
    pub id: Option<i64>,
    pub part_no: Option<String>,
    pub description: String,
    pub qty: i64,
    pub unit: Option<String>,
    pub price: i64,
    pub amount: Option<i64>,
}

/// What a caller gives to create an entry with its items.
#[derive(Debug, Clone, PartialEq, Eq)]
pub struct PurchaseCreate {
    pub supplier_id: i64,
    pub invoice_no: String,
    pub date: String,
    pub entry_date: Option<String>,
    pub gst_rate: i64,
    pub basic_value: i64,
    pub sgst: i64,
    pub cgst: i64,
    pub igst: i64,
    pub invoice_value: i64,
    pub tds_value: i64,
    pub narration: Option<String>,
    pub status: String,
    pub items: Vec<PurchaseItemPayload>,
}

/// A change to an entry: a field that is `None` stays as it is. Items
/// that are given replace all items of the entry.
#[derive(Debug, Clone, PartialEq, Eq)]
pub struct PurchaseUpdate {
    pub id: i64,
    pub supplier_id: Option<i64>,
    pub invoice_no: Option<String>,
    pub date: Option<String>,
    pub entry_date: Option<String>,
    pub gst_rate: Option<i64>,
    pub basic_value: Option<i64>,
    pub sgst: Option<i64>,
    pub cgst: Option<i64>,
    pub igst: Option<i64>,
    pub invoice_value: Option<i64>,
    pub tds_value: Option<i64>,
    pub narration: Option<String>,
    pub status: Option<String>,
    pub items: Option<Vec<PurchaseItemPayload>>,
}

/// The conditions that a list of entries can be narrowed by. A field
/// that is `None` puts no condition on the entries.
#[derive(Debug, Clone, PartialEq, Eq)]
pub struct PurchaseFilters {
    pub supplier_id: Option<i64>,
    pub date_from: Option<String>,
    pub date_to: Option<String>,
    pub gst_rate: Option<i64>,
    pub invoice_no: Option<String>,
    pub status: Option<String>,
}

/// One line of an invoice as the store holds it.
#[derive(Debug, Clone, PartialEq, Eq)]
pub struct PurchaseItem {
    pub id: i64,
    pub purchase_id: i64,
    pub part_no: Option<String>,
    pub description: String,
    pub qty: i64,
    pub unit: Option<String>,
    pub price: i64,
    pub amount: i64,
}

impl Supplier {
    /// A copy of the record.
    pub fn duplicate(&self) -> (r: Supplier)
        ensures
            r == *self,
    {
        Supplier {
            id: self.id,
            name: self.name.clone(),
            gst_no: copy_text(&self.gst_no),
            state_code: copy_text(&self.state_code),
            tds_flag: self.tds_flag,
            tds_rate: self.tds_rate,
            contact: copy_text(&self.contact),
            email: copy_text(&self.email),
        }
    }
}

impl User {
    /// A copy of the record.
    pub fn duplicate(&self) -> (r: User)
        ensures
            r == *self,
    {
        User {
            id: self.id,
            username: self.username.clone(),
            password_hash: self.password_hash.clone(),
            role: self.role.clone(),
            created_at: self.created_at.clone(),
        }
    }
}

impl PurchaseEntry {
    /// A copy of the record.
    pub fn duplicate(&self) -> (r: PurchaseEntry)
        ensures
            r == *self,
    {
        PurchaseEntry {
            id: self.id,
            supplier_id: self.supplier_id,
            invoice_no: self.invoice_no.clone(),
            date: self.date.clone(),
            entry_date: self.entry_date.clone(),
            gst_rate: self.gst_rate,
            basic_value: self.basic_value,
            sgst: self.sgst,
            cgst: self.cgst,
            igst: self.igst,
            invoice_value: self.invoice_value,
            tds_value: self.tds_value,
            narration: copy_text(&self.narration),
            status: self.status.clone(),
        }
    }
}

impl PurchaseItem {
    /// A copy of the record.
    pub fn duplicate(&self) -> (r: PurchaseItem)
        ensures
            r == *self,
    {
        PurchaseItem {
            id: self.id,
            purchase_id: self.purchase_id,
            part_no: copy_text(&self.part_no),
            description: self.description.clone(),
            qty: self.qty,
            unit: copy_text(&self.unit),
            price: self.price,
            amount: self.amount,
        }
    }
}

impl PurchaseItemPayload {
    /// The amount of a line: the amount that the caller gave, taken as it
    /// is; without one, quantity times price, where that is in range.
    pub open spec fn amount_of(&self) -> Option<int> {
        match self.amount {
            Some(a) => Some(a as int),
            None => if i64::MIN <= self.qty * self.price <= i64::MAX {
                Some(self.qty * self.price)
            } else {
                None
            },
        }
    }

    /// Resolves the amount of a line. It fails only where no amount is
    /// given and quantity times price is out of range.
    pub fn resolve_amount(&self) -> (r: Result<i64, LedgerError>)
        ensures
            match self.amount_of() {
                Some(a) => r == Ok::<i64, LedgerError>(a as i64),
                None => r == Err::<i64, LedgerError>(LedgerError::AmountOutOfRange),
            },
    {
        match self.amount {
            Some(a) => Ok(a),
            None => match self.qty.checked_mul(self.price) {
                Some(p) => Ok(p),
                None => Err(LedgerError::AmountOutOfRange),
            },
        }
    }
}

} // verus!
