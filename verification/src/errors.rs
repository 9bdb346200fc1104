use vstd::prelude::*;

verus! {

/// Every failure a store or credential operation can report.
#[derive(Debug, PartialEq, Eq)]
pub enum StoreError {
    /// Bad credentials, or the hashing primitive itself failed; the cases are
    /// deliberately collapsed so a caller cannot tell which part failed.
    AuthError,
    /// No product with the given identifier exists.
    NotFound,
    /// A sale asked for more units than are on hand.
    InsufficientInventory,
    /// A rejected argument, such as a username that is already taken.
    InvalidInput(String),
    /// An I/O or encoding failure while persisting, with the underlying text.
    DatabaseError(String),
}

impl StoreError {
    /// A human-readable description of the error.
    pub fn message(&self) -> (r: String)
        ensures
            self is AuthError ==> r@ == "Authentication failed"@,
            self is NotFound ==> r@ == "Item not found"@,
            self is InsufficientInventory ==> r@ == "Insufficient inventory"@,
            (self matches StoreError::InvalidInput(s) ==> r@ == "Invalid input: "@ + s@),
            (self matches StoreError::DatabaseError(s) ==> r@ == "Database error: "@ + s@),
    {
        match self {
            StoreError::AuthError => String::from_str("Authentication failed"),
            StoreError::NotFound => String::from_str("Item not found"),
            StoreError::InsufficientInventory => String::from_str("Insufficient inventory"),
            StoreError::InvalidInput(s) => {
                let mut r = String::from_str("Invalid input: ");
                r.append(s.as_str());
                r
            },
            StoreError::DatabaseError(s) => {
                let mut r = String::from_str("Database error: ");
                r.append(s.as_str());
                r
            },
        }
    }
}

} // verus!
