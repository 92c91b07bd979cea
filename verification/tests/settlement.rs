use caffio::clock::Timestamp;
use caffio::commands::orders::{add_order_item_with, create_order_with, fetch_order_full};
use caffio::commands::payments::{create_payment, create_payment_with, get_payments_by_order};
use caffio::commands::products::{create_product_with, CreateProductInput};
use caffio::commands::tables::create_table_with;
use caffio::db::{init_database, Database};
use caffio::entities::category;
use caffio::entities::order::OrderStatus;
use caffio::entities::transaction::PaymentMethod;
use caffio::error::ErrorKind;

fn at(day: i32, second: u32) -> Timestamp {
    Timestamp { day, second }
}

fn till_with_menu() -> Database {
    let mut db = init_database();
    db.categories.push(category::Model {
        id: "drinks".to_string(),
        name: "Drinks".to_string(),
        icon: None,
        is_deleted: false,
    });
    create_table_with(&mut db, "T1".to_string(), "t1".to_string()).unwrap();
    for (id, name, price) in [("coffee", "Coffee", 10), ("cake", "Cake", 15)] {
        create_product_with(
            &mut db,
            CreateProductInput {
                name: name.to_string(),
                price,
                category_id: "drinks".to_string(),
                is_favorite: false,
            },
            id.to_string(),
        )
        .unwrap();
    }
    db
}

fn tab_of_thirty_five(db: &mut Database) {
    let order =
        create_order_with(db, "t1".to_string(), "o1".to_string(), at(739_000, 40_000)).unwrap();
    assert_eq!(order.status, OrderStatus::Open);
    assert_eq!(order.total_amount, 0);
    assert!(!order.is_locked);
    assert!(order.items.is_empty());
    let order = add_order_item_with(
        db,
        "o1".to_string(),
        "coffee".to_string(),
        2,
        None,
        "i1".to_string(),
        at(739_000, 40_010),
    )
    .unwrap();
    assert_eq!(order.total_amount, 20);
    let order = add_order_item_with(
        db,
        "o1".to_string(),
        "cake".to_string(),
        1,
        None,
        "i2".to_string(),
        at(739_000, 40_020),
    )
    .unwrap();
    assert_eq!(order.total_amount, 35);
    assert_eq!(order.items.len(), 2);
    assert_eq!(order.items[0].product_name, Some("Coffee".to_string()));
    assert_eq!(order.items[1].product_name, Some("Cake".to_string()));
}

fn pay(db: &mut Database, amount: i32, id: &str) -> caffio::commands::payments::PaymentResult {
    create_payment_with(
        db,
        "o1".to_string(),
        amount,
        PaymentMethod::Cash,
        id.to_string(),
        at(739_000, 41_000),
    )
    .unwrap()
}

#[test]
fn full_payment_closes_the_tab() {
    let mut db = till_with_menu();
    tab_of_thirty_five(&mut db);
    let paid = pay(&mut db, 35, "pay1");
    assert!(paid.completed);
    assert_eq!(paid.order.status, OrderStatus::Closed);
    assert_eq!(paid.order.items.len(), 2);
    assert!(paid.order.items.iter().all(|item| item.is_paid));
    assert_eq!(paid.order.payments.len(), 1);
    assert_eq!(paid.order.updated_at, at(739_000, 41_000));
    assert!(db.is_well_formed());
}

#[test]
fn partial_payment_leaves_the_tab_open() {
    let mut db = till_with_menu();
    tab_of_thirty_five(&mut db);
    let paid = pay(&mut db, 20, "pay1");
    assert!(!paid.completed);
    assert_eq!(paid.order.status, OrderStatus::Open);
    assert!(paid.order.items.iter().all(|item| !item.is_paid));
    assert_eq!(paid.order.payments.len(), 1);
    assert_eq!(paid.order.payments[0].amount, 20);
    assert!(db.is_well_formed());
}

#[test]
fn payments_that_add_up_to_the_total_close_the_tab() {
    let mut db = till_with_menu();
    tab_of_thirty_five(&mut db);
    assert!(!pay(&mut db, 20, "pay1").completed);
    assert!(!pay(&mut db, 14, "pay2").completed);
    let last = pay(&mut db, 1, "pay3");
    assert!(last.completed);
    assert_eq!(last.order.status, OrderStatus::Closed);
    assert_eq!(last.order.payments.len(), 3);
    assert!(last.order.items.iter().all(|item| item.is_paid));
}

#[test]
fn overpayment_closes_the_tab() {
    let mut db = till_with_menu();
    tab_of_thirty_five(&mut db);
    let paid = pay(&mut db, 50, "pay1");
    assert!(paid.completed);
    assert_eq!(paid.order.status, OrderStatus::Closed);
    assert_eq!(paid.order.total_amount, 35);
}

#[test]
fn one_short_of_the_total_stays_open() {
    let mut db = till_with_menu();
    tab_of_thirty_five(&mut db);
    let paid = pay(&mut db, 34, "pay1");
    assert!(!paid.completed);
    assert_eq!(paid.order.status, OrderStatus::Open);
}

#[test]
fn payment_against_a_missing_tab_is_not_found() {
    let mut db = till_with_menu();
    let before = db.transactions.len();
    let refused = create_payment_with(
        &mut db,
        "nope".to_string(),
        5,
        PaymentMethod::Card,
        "pay1".to_string(),
        at(739_000, 0),
    )
    .unwrap_err();
    assert_eq!(refused.kind(), ErrorKind::NotFound);
    assert_eq!(refused.message(), "Sipariş bulunamadı");
    assert_eq!(db.transactions.len(), before);
}

#[test]
fn payment_of_nothing_is_refused() {
    let mut db = till_with_menu();
    tab_of_thirty_five(&mut db);
    for amount in [0, -5] {
        let refused = create_payment_with(
            &mut db,
            "o1".to_string(),
            amount,
            PaymentMethod::Cash,
            "pay1".to_string(),
            at(739_000, 0),
        )
        .unwrap_err();
        assert_eq!(refused.kind(), ErrorKind::Validation);
    }
    assert!(db.transactions.is_empty());
}

#[test]
fn payment_key_must_be_unused() {
    let mut db = till_with_menu();
    tab_of_thirty_five(&mut db);
    pay(&mut db, 5, "pay1");
    let refused = create_payment_with(
        &mut db,
        "o1".to_string(),
        5,
        PaymentMethod::Cash,
        "pay1".to_string(),
        at(739_000, 0),
    )
    .unwrap_err();
    assert_eq!(refused.kind(), ErrorKind::Database);
    assert_eq!(refused.message(), "Veritabanı hatası: UNIQUE constraint failed: Transaction.id");
    assert_eq!(db.transactions.len(), 1);
}

#[test]
fn payment_through_the_clock_is_recorded() {
    let mut db = till_with_menu();
    tab_of_thirty_five(&mut db);
    let paid = create_payment(&mut db, "o1".to_string(), 10, PaymentMethod::Card).unwrap();
    assert!(!paid.completed);
    assert_eq!(paid.order.payments.len(), 1);
    let payment = &paid.order.payments[0];
    assert!(!payment.id.is_empty());
    assert!(payment.created_at.second < 86_400);
    assert!(payment.created_at.day > 730_000);
    let again = create_payment(&mut db, "o1".to_string(), 10, PaymentMethod::Card).unwrap();
    assert_ne!(again.order.payments[0].id, again.order.payments[1].id);
    assert!(db.is_well_formed());
}

#[test]
fn payments_are_listed_earliest_first() {
    let mut db = till_with_menu();
    tab_of_thirty_five(&mut db);
    for (id, second) in [("pay-late", 50_000), ("pay-early", 41_000), ("pay-mid", 45_000)] {
        create_payment_with(
            &mut db,
            "o1".to_string(),
            1,
            PaymentMethod::Cash,
            id.to_string(),
            at(739_000, second),
        )
        .unwrap();
    }
    let listed = get_payments_by_order(&db, "o1".to_string()).unwrap();
    let ids: Vec<&str> = listed.iter().map(|p| p.id.as_str()).collect();
    assert_eq!(ids, vec!["pay-early", "pay-mid", "pay-late"]);
    assert!(get_payments_by_order(&db, "other".to_string()).unwrap().is_empty());
}

#[test]
fn closed_tab_keeps_its_payments_in_view() {
    let mut db = till_with_menu();
    tab_of_thirty_five(&mut db);
    pay(&mut db, 35, "pay1");
    let shown = fetch_order_full(&db, &"o1".to_string()).unwrap();
    assert_eq!(shown.status, OrderStatus::Closed);
    assert_eq!(shown.payments.len(), 1);
    assert_eq!(shown.payments[0].payment_method, PaymentMethod::Cash);
    assert_eq!(shown.payments[0].order_id, "o1");
}
