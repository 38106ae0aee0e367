//! The errors that the operations report. Every one is an ordinary result:
//! an operation that reports an error has changed nothing.

use vstd::prelude::*;

verus! {

/// Why a field of an item was refused.
#[derive(Clone, Copy, Debug, PartialEq, Eq, Structural)]
pub enum Invalid {
    /// The name is empty or holds only white space.
    EmptyName,
    /// The quantity is zero.
    ZeroQuantity,
    /// The price is not above zero.
    NonPositivePrice,
}

/// An error of the inventory or of the ledger.
#[derive(Debug, PartialEq, Eq)]
pub enum InventoryError {
    /// A field was refused. The caller may correct it and try again.
    Validation(Invalid),
    /// No item has the given identifier.
    NotFound(u64),
    /// The named item has less in stock than a sale asked for.
    InsufficientStock(String),
}

impl Clone for InventoryError {
    fn clone(&self) -> (copy: Self)
        ensures
            copy == *self,
    {
        match self {
            InventoryError::Validation(why) => InventoryError::Validation(*why),
            InventoryError::NotFound(id) => InventoryError::NotFound(*id),
            InventoryError::InsufficientStock(name) => InventoryError::InsufficientStock(
                name.clone(),
            ),
        }
    }
}

/// The mathematical value of an [`InventoryError`].
pub ghost enum ErrorView {
    Validation(Invalid),
    NotFound(u64),
    InsufficientStock(Seq<char>),
}

impl View for InventoryError {
    type V = ErrorView;

    open spec fn view(&self) -> ErrorView {
        match *self {
            InventoryError::Validation(why) => ErrorView::Validation(why),
            InventoryError::NotFound(id) => ErrorView::NotFound(id),
            InventoryError::InsufficientStock(name) => ErrorView::InsufficientStock(name@),
        }
    }
}

} // verus!
