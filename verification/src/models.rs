use vstd::prelude::*;

verus! {

/// Whether a transaction took units out of stock or brought them in.
#[derive(Clone, Copy, PartialEq, Eq, Structural, Debug)]
pub enum TransactionType {
    Sale,
    Purchase,
}

/// The role a registered user holds; only managers may add products.
#[derive(Clone, Copy, PartialEq, Eq, Structural, Debug)]
pub enum UserRole {
    Manager,
    Employee,
}

/// A product on hand. The identifier is a 128-bit value (a UUID); the unit
/// price is a non-negative amount in cents, so a price of $10.00 is 1000.
pub struct Product {
    pub id: u128,
    pub name: String,
    pub description: String,
    pub price_cents: u64,
    pub quantity: i32,
}

/// The mathematical value of a [`Product`]: strings become character
/// sequences, everything else is already plain.
pub struct ProductView {
    pub id: u128,
    pub name: Seq<char>,
    pub description: Seq<char>,
    pub price_cents: u64,
    pub quantity: i32,
}

impl View for Product {
    type V = ProductView;

    open spec fn view(&self) -> ProductView {
        (ProductView {
            id: self.id,
            name: self.name@,
            description: self.description@,
            price_cents: self.price_cents,
            quantity: self.quantity,
        })
    }
}

impl DeepView for Product {
    type V = ProductView;

    open spec fn deep_view(&self) -> ProductView {
        self.view()
    }
}

impl Clone for Product {
    fn clone(&self) -> (r: Self)
        ensures
            r@ == self@,
    {
        Product {
            id: self.id,
            name: self.name.clone(),
            description: self.description.clone(),
            price_cents: self.price_cents,
            quantity: self.quantity,
        }
    }
}

/// One recorded movement of stock. Immutable once created; the price is the
/// unit price in cents snapshotted at recording time, and the timestamp is
/// the ISO-8601 rendering of the moment the transaction was recorded.
pub struct Transaction {
    pub id: u128,
    pub product_id: u128,
    pub quantity: i32,
    pub price_cents: u64,
    pub transaction_type: TransactionType,
    pub timestamp: String,
}

/// The mathematical value of a [`Transaction`].
pub struct TransactionView {
    pub id: u128,
    pub product_id: u128,
    pub quantity: i32,
    pub price_cents: u64,
    pub transaction_type: TransactionType,
    pub timestamp: Seq<char>,
}

impl View for Transaction {
    type V = TransactionView;

    open spec fn view(&self) -> TransactionView {
        (TransactionView {
            id: self.id,
            product_id: self.product_id,
            quantity: self.quantity,
            price_cents: self.price_cents,
            transaction_type: self.transaction_type,
            timestamp: self.timestamp@,
        })
    }
}

impl DeepView for Transaction {
    type V = TransactionView;

    open spec fn deep_view(&self) -> TransactionView {
        self.view()
    }
}

impl Clone for Transaction {
    fn clone(&self) -> (r: Self)
        ensures
            r@ == self@,
    {
        Transaction {
            id: self.id,
            product_id: self.product_id,
            quantity: self.quantity,
            price_cents: self.price_cents,
            transaction_type: self.transaction_type,
            timestamp: self.timestamp.clone(),
        }
    }
}

/// A registered operator: the username is the unique key, the password is
/// held only as a salted one-way hash.
pub struct User {
    pub id: u128,
    pub username: String,
    pub password_hash: String,
    pub role: UserRole,
}

/// The mathematical value of a [`User`].
pub struct UserView {
    pub id: u128,
    pub username: Seq<char>,
    pub password_hash: Seq<char>,
    pub role: UserRole,
}

impl View for User {
    type V = UserView;

    open spec fn view(&self) -> UserView {
        (UserView {
            id: self.id,
            username: self.username@,
            password_hash: self.password_hash@,
            role: self.role,
        })
    }
}

impl DeepView for User {
    type V = UserView;

    open spec fn deep_view(&self) -> UserView {
        self.view()
    }
}

impl Clone for User {
    fn clone(&self) -> (r: Self)
        ensures
            r@ == self@,
    {
        User {
            id: self.id,
            username: self.username.clone(),
            password_hash: self.password_hash.clone(),
            role: self.role,
        }
    }
}

} // verus!
