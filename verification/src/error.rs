//! What can go wrong, by kind and by case.
use vstd::prelude::*;
use vstd::string::*;

verus! {

/// The kinds of failure that a caller can tell apart.
#[derive(Clone, Copy, Debug, PartialEq, Eq, Structural)]
pub enum ErrorKind {
    /// The request itself is not acceptable.
    Validation,
    /// The record that the request names does not exist.
    NotFound,
    /// The request contradicts what the store already holds.
    Conflict,
    /// The store cannot take or compute what was asked.
    Storage,
    /// A file or another outside resource failed.
    Io,
}

/// Every failure of an operation of the ledger. A failed operation leaves
/// the store as it was.
#[derive(Clone, Copy, Debug, PartialEq, Eq, Structural)]
pub enum LedgerError {
    /// A user was to be registered under an empty name.
    EmptyUsername,
    /// A user was to be registered with an empty password.
    EmptyPassword,
    /// The user name is already in use.
    UsernameTaken,
    /// No user has this name, or the password is not theirs.
    InvalidCredentials,
    /// The record to read back after a write does not exist.
    NotFound,
    /// An entry names a supplier that the store does not hold.
    UnknownSupplier,
    /// An item names an entry that the store does not hold.
    UnknownPurchase,
    /// A supplier that entries refer to was to be deleted.
    SupplierInUse,
    /// The product of quantity and price is outside the range of an amount.
    AmountOutOfRange,
    /// A total is outside the range of its field.
    TotalOutOfRange,
    /// The table has no identity left to give.
    StoreFull,
    /// Tables that were handed over do not obey the rules of the store.
    Inconsistent,
}

impl LedgerError {
    /// The kind that each failure belongs to.
    pub open spec fn kind_of(self) -> ErrorKind {
        match self {
            LedgerError::EmptyUsername => ErrorKind::Validation,
            LedgerError::EmptyPassword => ErrorKind::Validation,
            LedgerError::UsernameTaken => ErrorKind::Conflict,
            LedgerError::InvalidCredentials => ErrorKind::Validation,
            LedgerError::NotFound => ErrorKind::NotFound,
            LedgerError::UnknownSupplier => ErrorKind::Conflict,
            LedgerError::UnknownPurchase => ErrorKind::Conflict,
            LedgerError::SupplierInUse => ErrorKind::Conflict,
            LedgerError::AmountOutOfRange => ErrorKind::Validation,
            LedgerError::TotalOutOfRange => ErrorKind::Storage,
            LedgerError::StoreFull => ErrorKind::Storage,
            LedgerError::Inconsistent => ErrorKind::Storage,
        }
    }

    /// The kind of this failure.
    pub fn kind(&self) -> (k: ErrorKind)
        ensures
            k == self.kind_of(),
    {
        match self {
            LedgerError::EmptyUsername => ErrorKind::Validation,
            LedgerError::EmptyPassword => ErrorKind::Validation,
            LedgerError::UsernameTaken => ErrorKind::Conflict,
            LedgerError::InvalidCredentials => ErrorKind::Validation,
            LedgerError::NotFound => ErrorKind::NotFound,
            LedgerError::UnknownSupplier => ErrorKind::Conflict,
            LedgerError::UnknownPurchase => ErrorKind::Conflict,
            LedgerError::SupplierInUse => ErrorKind::Conflict,
            LedgerError::AmountOutOfRange => ErrorKind::Validation,
            LedgerError::TotalOutOfRange => ErrorKind::Storage,
            LedgerError::StoreFull => ErrorKind::Storage,
            LedgerError::Inconsistent => ErrorKind::Storage,
        }
    }

    /// The text of the single message that a failure is reported with.
    pub open spec fn message_of(self) -> Seq<char> {
        match self {
            LedgerError::EmptyUsername => "Username cannot be empty"@,
            LedgerError::EmptyPassword => "Password cannot be empty"@,
            LedgerError::UsernameTaken => "Username is already taken"@,
            LedgerError::InvalidCredentials => "Invalid username or password"@,
            LedgerError::NotFound => "Record not found"@,
            LedgerError::UnknownSupplier => "Supplier does not exist"@,
            LedgerError::UnknownPurchase => "Purchase entry does not exist"@,
            LedgerError::SupplierInUse => "Supplier is referenced by purchase entries"@,
            LedgerError::AmountOutOfRange => "Amount is out of range"@,
            LedgerError::TotalOutOfRange => "Total is out of range"@,
            LedgerError::StoreFull => "Store is full"@,
            LedgerError::Inconsistent => "Stored tables are inconsistent"@,
        }
    }

    /// The message that this failure is reported with.
    pub fn message(&self) -> (m: String)
        ensures
            m@ == self.message_of(),
    {
        let text: &str = match self {
            LedgerError::EmptyUsername => "Username cannot be empty",
            LedgerError::EmptyPassword => "Password cannot be empty",
            LedgerError::UsernameTaken => "Username is already taken",
            LedgerError::InvalidCredentials => "Invalid username or password",
            LedgerError::NotFound => "Record not found",
            LedgerError::UnknownSupplier => "Supplier does not exist",
            LedgerError::UnknownPurchase => "Purchase entry does not exist",
            LedgerError::SupplierInUse => "Supplier is referenced by purchase entries",
            LedgerError::AmountOutOfRange => "Amount is out of range",
            LedgerError::TotalOutOfRange => "Total is out of range",
            LedgerError::StoreFull => "Store is full",
            LedgerError::Inconsistent => "Stored tables are inconsistent",
        };
        String::from_str(text)
    }
}

} // verus!
