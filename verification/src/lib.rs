//! An in-memory inventory and sales ledger.
//!
//! An [`InventoryStore`] owns the stocked items and hands out their
//! identifiers. A [`SalesLedger`] records sales against it: a sale of several
//! lines is taken out of stock as a whole or not at all, and every accepted
//! sale leaves one record that is never changed afterwards.
//!
//! Prices are binary64 numbers held by their bit patterns (see [`Price`]); the
//! library stores and compares them and leaves arithmetic on them to its
//! callers.

pub mod error;
pub mod inventory;
pub mod item;
pub mod laws;
pub mod ledger;
pub mod price;
pub mod ranking;
pub mod sale;
pub mod text;
pub mod views;

pub use error::{InventoryError, Invalid};
pub use inventory::InventoryStore;
pub use item::InventoryItem;
pub use ledger::SalesLedger;
pub use price::Price;
pub use sale::{SaleItem, SaleRecord};
