//! A verified ledger of supplier purchase invoices and their line items.
//!
//! The ledger is a record store of four tables (suppliers, purchase
//! entries, purchase items, users) together with the operations on it.
//! Every operation is an ordinary function with a contract over the
//! tables as sequences of records, and Verus proves that the function
//! keeps its contract and the rules of the store.
//!
//! - [`store`] holds the tables and the rules between them; [`restore`]
//!   takes tables in that were kept elsewhere and hands them out.
//! - [`pagination`], [`filters`] and [`order`] say how a list is
//!   narrowed, ranked and cut into pages; [`text`] compares and searches
//!   texts.
//! - [`purchases`] lists entries; [`writes`] creates, changes and deletes
//!   an entry together with its items; [`items`] reads and writes single
//!   items.
//! - [`suppliers`] and [`users`] hold the operations on those tables.
//! - [`reports`] totals the entries of a range of dates.
//! - [`sheet`] turns rows of a spreadsheet into suppliers; [`template`]
//!   builds the worksheet that such rows are entered in.
//! - [`startup`] decides how the store is brought up.
//! - [`laws`] states what holds of all of these together.
//!
//! Numbers are whole numbers in the caller's units. The ledger does no
//! input or output: the time of a write, the rows of a sheet and the
//! outcome of each step of the start are handed to it.
pub mod error;
pub mod filters;
pub mod items;
pub mod laws;
pub mod models;
pub mod order;
pub mod pagination;
pub mod purchases;
pub mod reports;
pub mod restore;
pub mod sheet;
pub mod startup;
pub mod store;
pub mod suppliers;
pub mod template;
pub mod text;
pub mod users;
pub mod writes;
