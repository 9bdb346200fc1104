use rusty_store::errors::StoreError;
use rusty_store::models::{Product, TransactionType};
use rusty_store::store::Store;
use uuid::Uuid;

fn product(id: u128, price_cents: u64, quantity: i32) -> Product {
    Product {
        id,
        name: "Test Product".to_string(),
        description: "Test Description".to_string(),
        price_cents,
        quantity,
    }
}

#[test]
fn test_add_product() {
    let mut store = Store::new();
    let product = Product {
        id: Uuid::new_v4().as_u128(),
        name: "Test Product".to_string(),
        description: "Test Description".to_string(),
        price_cents: 1000,
        quantity: 5,
    };

    assert!(store.add_product(product).is_ok());
}

#[test]
fn test_store_operations() {
    let mut store = Store::new();

    let id = Uuid::new_v4().as_u128();
    let p = product(id, 1000, 5);

    // Create
    assert!(store.add_product(p.clone()).is_ok());

    // Read
    let stored_product = store.get_product(id);
    assert!(stored_product.is_some());
    assert_eq!(stored_product.unwrap().name, "Test Product");

    // Update
    let mut updated_product = p.clone();
    updated_product.price_cents = 1500;
    assert!(store.update_product(updated_product.clone()).is_ok());
    assert_eq!(store.get_product(id).unwrap().price_cents, 1500);

    // Delete
    assert!(store.delete_product(id).is_ok());
    assert!(store.get_product(id).is_none());
}

#[test]
fn test_transactions() {
    let mut store = Store::new();
    let product_id = Uuid::new_v4().as_u128();
    store.add_product(product(product_id, 1000, 5)).unwrap();

    // Test sale
    let sale = store.record_sale(product_id, 2).unwrap();
    assert_eq!(sale.quantity, 2);
    assert_eq!(sale.transaction_type, TransactionType::Sale);
    assert_eq!(store.get_product(product_id).unwrap().quantity, 3);

    // Test purchase
    let purchase = store.record_purchase(product_id, 3, 800).unwrap();
    assert_eq!(purchase.quantity, 3);
    assert_eq!(purchase.transaction_type, TransactionType::Purchase);

    assert_eq!(store.get_product(product_id).unwrap().quantity, 6);
}

#[test]
fn test_report_generation() {
    let mut store = Store::new();
    store.add_product(product(Uuid::new_v4().as_u128(), 1000, 5)).unwrap();
    let report = store.generate_inventory_report();
    assert!(report.contains("Test Product"));
    assert!(report.contains("5"));
    assert!(report.contains("$10.00"));
}

#[test]
fn test_update_missing_fails_not_found() {
    let mut store = Store::new();
    let present = Uuid::new_v4().as_u128();
    store.add_product(product(present, 1000, 5)).unwrap();
    let absent = product(Uuid::new_v4().as_u128(), 900, 2);
    let r = store.update_product(absent);
    assert!(matches!(r, Err(StoreError::NotFound)));
    // the collection is untouched
    assert_eq!(store.get_product(present).unwrap().price_cents, 1000);
    assert_eq!(store.get_product(present).unwrap().quantity, 5);
}

#[test]
fn test_delete_missing_fails_not_found() {
    let mut store = Store::new();
    let r = store.delete_product(Uuid::new_v4().as_u128());
    assert!(matches!(r, Err(StoreError::NotFound)));
}

#[test]
fn test_sale_insufficient_inventory() {
    let mut store = Store::new();
    let id = Uuid::new_v4().as_u128();
    store.add_product(product(id, 1000, 5)).unwrap();
    let r = store.record_sale(id, 6);
    assert!(matches!(r, Err(StoreError::InsufficientInventory)));
    assert_eq!(store.get_product(id).unwrap().quantity, 5);
}

#[test]
fn test_sale_missing_product_fails_not_found() {
    let mut store = Store::new();
    let r = store.record_sale(Uuid::new_v4().as_u128(), 1);
    assert!(matches!(r, Err(StoreError::NotFound)));
    let r = store.record_purchase(Uuid::new_v4().as_u128(), 1, 100);
    assert!(matches!(r, Err(StoreError::NotFound)));
}

#[test]
fn test_sale_price_snapshot() {
    // a sale is priced at the product's price at call time, and the record
    // keeps that price even after the product's price changes
    let mut store = Store::new();
    let id = Uuid::new_v4().as_u128();
    store.add_product(product(id, 1000, 5)).unwrap();
    let sale = store.record_sale(id, 2).unwrap();
    assert_eq!(sale.price_cents, 1000);
    let mut p = product(id, 2500, 3);
    p.quantity = store.get_product(id).unwrap().quantity;
    store.update_product(p).unwrap();
    let report = store.generate_sales_report();
    assert!(report.contains("Price: $10.00"));
}

#[test]
fn test_scenario_sell_then_purchase() {
    // start at quantity 5, price $10.00; sell 2, purchase 3 at $8.00
    let mut store = Store::new();
    let id = Uuid::new_v4().as_u128();
    store.add_product(product(id, 1000, 5)).unwrap();
    store.record_sale(id, 2).unwrap();
    store.record_purchase(id, 3, 800).unwrap();
    assert_eq!(store.get_product(id).unwrap().quantity, 6);

    let sales = store.generate_sales_report();
    assert!(sales.contains("Total Sales: $20.00"));

    let purchases = store.generate_purchase_report();
    assert!(purchases.contains("Cost: $8.00"));
    assert!(purchases.contains("Total Purchases: $24.00"));
    assert!(!purchases.contains("Cost: $10.00"));
}

#[test]
fn test_purchase_at_sale_price() {
    let mut store = Store::new();
    let id = Uuid::new_v4().as_u128();
    store.add_product(product(id, 1000, 5)).unwrap();
    store.record_purchase(id, 1, 1000).unwrap();
    let purchases = store.generate_purchase_report();
    assert!(purchases.contains("Cost: $10.00"));
    assert!(purchases.contains("Total Purchases: $10.00"));
}

#[test]
fn test_json_round_trip() {
    let mut store = Store::new();
    let id = Uuid::new_v4().as_u128();
    let mut p = product(id, 1000, 5);
    p.name = "Quoted \"name\" with \\ backslash".to_string();
    store.add_product(p).unwrap();
    store.record_sale(id, 2).unwrap();
    store.record_purchase(id, 3, 850).unwrap();

    let text = store.to_json();

    let mut reloaded = Store::new();
    assert!(reloaded.load_json(text.as_str()));
    let got = reloaded.get_product(id).expect("product survives the trip");
    assert_eq!(got.name, "Quoted \"name\" with \\ backslash");
    assert_eq!(got.description, "Test Description");
    assert_eq!(got.price_cents, 1000);
    assert_eq!(got.quantity, 6);

    // the reloaded store writes back the identical document
    assert_eq!(reloaded.to_json(), text);
}

#[test]
fn test_round_trip_simple_product() {
    // product {name: "Test Product", price 10.00, quantity 5} saved and
    // reloaded is retrievable by id with identical fields
    let mut store = Store::new();
    let id = Uuid::new_v4().as_u128();
    store.add_product(product(id, 1000, 5)).unwrap();
    let text = store.to_json();
    let mut fresh = Store::new();
    assert!(fresh.load_json(text.as_str()));
    let got = fresh.get_product(id).unwrap();
    assert_eq!(got.name, "Test Product");
    assert_eq!(got.price_cents, 1000);
    assert_eq!(got.quantity, 5);
}

#[test]
fn test_load_rejects_corrupt_text() {
    let mut store = Store::new();
    let id = Uuid::new_v4().as_u128();
    store.add_product(product(id, 1000, 5)).unwrap();
    assert!(!store.load_json("this is not an inventory document"));
    // the store is left as it was
    assert_eq!(store.get_product(id).unwrap().quantity, 5);
    assert!(!store.load_json(""));
    assert!(!store.load_json("{\"products\":{},\"transactions\":[]} trailing"));
}

#[test]
fn test_empty_store_round_trip() {
    let store = Store::new();
    let text = store.to_json();
    assert_eq!(text, "{\"products\":{},\"transactions\":[]}");
    let mut fresh = Store::new();
    assert!(fresh.load_json(text.as_str()));
    assert_eq!(fresh.to_json(), text);
}

#[test]
fn test_error_messages() {
    assert_eq!(StoreError::AuthError.message(), "Authentication failed");
    assert_eq!(StoreError::NotFound.message(), "Item not found");
    assert_eq!(StoreError::InsufficientInventory.message(), "Insufficient inventory");
    assert_eq!(
        StoreError::InvalidInput("bad".to_string()).message(),
        "Invalid input: bad"
    );
    assert_eq!(
        StoreError::DatabaseError("disk gone".to_string()).message(),
        "Database error: disk gone"
    );
}

#[test]
fn test_number_rendering() {
    assert_eq!(rusty_store::fmt::fmt_cents(1000), "10.00");
    assert_eq!(rusty_store::fmt::fmt_cents(5), "0.05");
    assert_eq!(rusty_store::fmt::fmt_cents(12345), "123.45");
    assert_eq!(rusty_store::fmt::fmt_i32(-42), "-42");
    assert_eq!(rusty_store::fmt::fmt_i32(0), "0");
    assert_eq!(rusty_store::fmt::fmt_u64(18446744073709551615), "18446744073709551615");
    assert_eq!(
        rusty_store::fmt::fmt_uuid(0),
        "00000000-0000-0000-0000-000000000000"
    );
    assert_eq!(
        rusty_store::fmt::fmt_uuid(0x0123456789abcdef0123456789abcdefu128),
        "01234567-89ab-cdef-0123-456789abcdef"
    );
}
