use caffio::clock::Timestamp;
use caffio::commands::orders::{
    add_order_item, add_order_item_with, create_order, create_order_with, delete_order,
    fetch_order_full, get_open_order_by_table, get_order_details, get_order_history,
    mark_items_paid, merge_orders_with, remove_order_item_with, transfer_order,
    update_order_item_with, update_order_with, MarkItemPaidInput, UpdateOrderInput,
};
use caffio::commands::payments::create_payment_with;
use caffio::commands::products::{
    create_product_with, update_product, CreateProductInput, UpdateProductInput,
};
use caffio::commands::tables::create_table_with;
use caffio::db::{init_database, Database};
use caffio::entities::category;
use caffio::entities::order::OrderStatus;
use caffio::entities::transaction::PaymentMethod;
use caffio::error::ErrorKind;

fn at(day: i32, second: u32) -> Timestamp {
    Timestamp { day, second }
}

fn s(text: &str) -> String {
    text.to_string()
}

fn till() -> Database {
    let mut db = init_database();
    db.categories.push(category::Model { id: s("c"), name: s("All"), icon: None, is_deleted: false });
    for (id, name) in [("t1", "T1"), ("t2", "T2"), ("t3", "T3")] {
        create_table_with(&mut db, s(name), s(id)).unwrap();
    }
    for (id, name, price) in [("coffee", "Coffee", 10), ("cake", "Cake", 15), ("tea", "Tea", 7)] {
        create_product_with(
            &mut db,
            CreateProductInput { name: s(name), price, category_id: s("c"), is_favorite: false },
            s(id),
        )
        .unwrap();
    }
    db
}

fn open_tab(db: &mut Database, table: &str, id: &str) {
    create_order_with(db, s(table), s(id), at(739_000, 40_000)).unwrap();
}

fn add(db: &mut Database, order: &str, product: &str, quantity: i32, id: &str) -> i32 {
    add_order_item_with(db, s(order), s(product), quantity, None, s(id), at(739_000, 40_100))
        .unwrap()
        .total_amount
}

fn total_from_lines(db: &Database, order: &str) -> i64 {
    db.items
        .iter()
        .filter(|item| item.order_id == order)
        .map(|item| item.quantity as i64 * item.unit_price as i64)
        .sum()
}

fn totals_hold(db: &Database) -> bool {
    db.orders.iter().all(|order| order.total_amount as i64 == total_from_lines(db, &order.id))
}

fn one_open_tab_per_table(db: &Database) -> bool {
    db.tables.iter().all(|table| {
        db.orders
            .iter()
            .filter(|o| o.table_id == table.id && o.status == OrderStatus::Open)
            .count()
            <= 1
    })
}

#[test]
fn new_tab_is_open_and_empty() {
    let mut db = till();
    let order = create_order_with(&mut db, s("t1"), s("o1"), at(739_000, 40_000)).unwrap();
    assert_eq!(order.id, "o1");
    assert_eq!(order.table_id, "t1");
    assert_eq!(order.status, OrderStatus::Open);
    assert_eq!(order.total_amount, 0);
    assert!(!order.is_locked);
    assert_eq!(order.created_at, at(739_000, 40_000));
    assert_eq!(order.updated_at, at(739_000, 40_000));
    assert!(order.items.is_empty() && order.payments.is_empty());
    assert!(db.is_well_formed());
}

#[test]
fn opening_a_tab_twice_gives_the_same_tab() {
    let mut db = till();
    let first = create_order_with(&mut db, s("t1"), s("o1"), at(739_000, 40_000)).unwrap();
    add(&mut db, "o1", "coffee", 1, "i1");
    let second = create_order_with(&mut db, s("t1"), s("o2"), at(739_000, 50_000)).unwrap();
    assert_eq!(second.id, first.id);
    assert_eq!(second.total_amount, 10);
    assert_eq!(second.created_at, at(739_000, 40_000));
    assert_eq!(db.orders.len(), 1);
    assert!(one_open_tab_per_table(&db));
}

#[test]
fn tab_on_a_missing_table_is_not_found() {
    let mut db = till();
    let refused = create_order_with(&mut db, s("t9"), s("o1"), at(739_000, 0)).unwrap_err();
    assert_eq!(refused.kind(), ErrorKind::NotFound);
    assert_eq!(refused.message(), "Table not found");
    assert!(db.orders.is_empty());
}

#[test]
fn tab_key_must_be_unused() {
    let mut db = till();
    open_tab(&mut db, "t1", "o1");
    let refused = create_order_with(&mut db, s("t2"), s("o1"), at(739_000, 0)).unwrap_err();
    assert_eq!(refused.kind(), ErrorKind::Database);
    assert_eq!(db.orders.len(), 1);
}

#[test]
fn tab_through_the_clock_gets_a_key_and_an_instant() {
    let mut db = till();
    let order = create_order(&mut db, s("t1")).unwrap();
    assert_eq!(order.id.len(), 36);
    assert!(order.created_at.second < 86_400);
    assert!(order.created_at.day > 730_000);
    assert_eq!(order.created_at, order.updated_at);
    let other = create_order(&mut db, s("t2")).unwrap();
    assert_ne!(other.id, order.id);
    let line = add_order_item(&mut db, order.id.clone(), s("tea"), 3, None).unwrap();
    assert_eq!(line.total_amount, 21);
    assert_eq!(line.items[0].id.len(), 36);
    assert!(db.is_well_formed());
}

#[test]
fn open_tab_is_found_by_its_table() {
    let mut db = till();
    assert!(get_open_order_by_table(&db, s("t1")).is_none());
    open_tab(&mut db, "t1", "o1");
    assert_eq!(get_open_order_by_table(&db, s("t1")).unwrap().id, "o1");
    assert!(get_open_order_by_table(&db, s("t2")).is_none());
    assert_eq!(get_order_details(&db, s("o1")).unwrap().id, "o1");
    let missing = fetch_order_full(&db, &s("zz")).unwrap_err();
    assert_eq!(missing.kind(), ErrorKind::NotFound);
    assert_eq!(missing.message(), "Order not found");
}

#[test]
fn adding_the_same_product_grows_the_unpaid_line() {
    let mut db = till();
    open_tab(&mut db, "t1", "o1");
    assert_eq!(add(&mut db, "o1", "coffee", 2, "i1"), 20);
    assert_eq!(add(&mut db, "o1", "coffee", 3, "i2"), 50);
    assert_eq!(db.items.len(), 1);
    assert_eq!(db.items[0].id, "i1");
    assert_eq!(db.items[0].quantity, 5);
    assert!(totals_hold(&db));
}

#[test]
fn paid_lines_are_never_grown() {
    let mut db = till();
    open_tab(&mut db, "t1", "o1");
    add(&mut db, "o1", "coffee", 2, "i1");
    mark_items_paid(&mut db, vec![MarkItemPaidInput { id: s("i1"), quantity: 2 }]).unwrap();
    assert_eq!(add(&mut db, "o1", "coffee", 1, "i2"), 30);
    assert_eq!(db.items.len(), 2);
    assert_eq!(db.items[0].quantity, 2);
    assert!(db.items[0].is_paid);
    assert_eq!(db.items[1].quantity, 1);
    assert!(!db.items[1].is_paid);
}

#[test]
fn price_is_fixed_when_the_line_is_made() {
    let mut db = till();
    open_tab(&mut db, "t1", "o1");
    add(&mut db, "o1", "coffee", 2, "i1");
    update_product(
        &mut db,
        s("coffee"),
        UpdateProductInput { name: None, price: Some(99), is_favorite: None },
    )
    .unwrap();
    assert_eq!(db.items[0].unit_price, 10);
    assert_eq!(fetch_order_full(&db, &s("o1")).unwrap().total_amount, 20);
    // More units on the existing line are sold at the line's price.
    assert_eq!(add(&mut db, "o1", "coffee", 1, "i2"), 30);
    // A new line takes the price of now.
    open_tab(&mut db, "t2", "o2");
    assert_eq!(add(&mut db, "o2", "coffee", 1, "i3"), 99);
    assert!(totals_hold(&db));
}

#[test]
fn adding_to_a_locked_tab_is_refused() {
    let mut db = till();
    open_tab(&mut db, "t1", "o1");
    update_order_with(
        &mut db,
        s("o1"),
        UpdateOrderInput { status: None, total_amount: None, is_locked: Some(true) },
        at(739_000, 41_000),
    )
    .unwrap();
    let refused =
        add_order_item_with(&mut db, s("o1"), s("tea"), 1, None, s("i1"), at(739_000, 42_000))
            .unwrap_err();
    assert_eq!(refused.kind(), ErrorKind::Validation);
    assert_eq!(refused.message(), "Cannot add items to locked order");
    assert!(db.items.is_empty());
}

#[test]
fn adding_is_refused_for_bad_requests() {
    let mut db = till();
    open_tab(&mut db, "t1", "o1");
    let missing_tab =
        add_order_item_with(&mut db, s("zz"), s("tea"), 1, None, s("i1"), at(739_000, 0))
            .unwrap_err();
    assert_eq!(missing_tab.kind(), ErrorKind::NotFound);
    assert_eq!(missing_tab.message(), "Order not found");
    let missing_product =
        add_order_item_with(&mut db, s("o1"), s("zz"), 1, None, s("i1"), at(739_000, 0))
            .unwrap_err();
    assert_eq!(missing_product.kind(), ErrorKind::NotFound);
    assert_eq!(missing_product.message(), "Product not found");
    let nothing = add_order_item_with(&mut db, s("o1"), s("tea"), 0, None, s("i1"), at(739_000, 0))
        .unwrap_err();
    assert_eq!(nothing.kind(), ErrorKind::Validation);
    add(&mut db, "o1", "tea", 1, "i1");
    let taken = add_order_item_with(&mut db, s("o1"), s("cake"), 1, None, s("i1"), at(739_000, 0))
        .unwrap_err();
    assert_eq!(taken.kind(), ErrorKind::Database);
    assert_eq!(db.items.len(), 1);
    assert!(db.is_well_formed());
}

#[test]
fn total_that_does_not_fit_is_refused() {
    let mut db = till();
    create_product_with(
        &mut db,
        CreateProductInput {
            name: s("Gold"),
            price: i32::MAX,
            category_id: s("c"),
            is_favorite: false,
        },
        s("gold"),
    )
    .unwrap();
    open_tab(&mut db, "t1", "o1");
    assert_eq!(add(&mut db, "o1", "gold", 1, "i1"), i32::MAX);
    let refused =
        add_order_item_with(&mut db, s("o1"), s("tea"), 1, None, s("i2"), at(739_000, 0))
            .unwrap_err();
    assert_eq!(refused.kind(), ErrorKind::Validation);
    assert_eq!(refused.message(), "Amount out of range");
    assert_eq!(db.items.len(), 1);
    assert_eq!(db.orders[0].total_amount, i32::MAX);
}

#[test]
fn closed_tab_takes_no_more_lines() {
    let mut db = till();
    open_tab(&mut db, "t1", "o1");
    add(&mut db, "o1", "tea", 1, "i1");
    create_payment_with(&mut db, s("o1"), 7, PaymentMethod::Cash, s("pay1"), at(739_000, 41_000))
        .unwrap();
    let refused =
        add_order_item_with(&mut db, s("o1"), s("tea"), 1, None, s("i2"), at(739_000, 42_000))
            .unwrap_err();
    assert_eq!(refused.kind(), ErrorKind::Validation);
    assert_eq!(db.items.len(), 1);
}

#[test]
fn changing_a_quantity_recomputes_the_total() {
    let mut db = till();
    open_tab(&mut db, "t1", "o1");
    add(&mut db, "o1", "coffee", 2, "i1");
    add(&mut db, "o1", "cake", 1, "i2");
    let order = update_order_item_with(&mut db, s("i1"), 5, None, at(739_000, 43_000)).unwrap();
    assert_eq!(order.total_amount, 65);
    assert_eq!(order.updated_at, at(739_000, 43_000));
    assert_eq!(db.items[0].quantity, 5);
    assert!(totals_hold(&db));
}

#[test]
fn quantity_of_nothing_removes_the_line() {
    let mut db = till();
    open_tab(&mut db, "t1", "o1");
    add(&mut db, "o1", "coffee", 2, "i1");
    add(&mut db, "o1", "cake", 1, "i2");
    let order = update_order_item_with(&mut db, s("i1"), 0, None, at(739_000, 43_000)).unwrap();
    assert_eq!(order.total_amount, 15);
    assert_eq!(order.items.len(), 1);
    assert_eq!(order.items[0].id, "i2");
    let order = update_order_item_with(&mut db, s("i2"), -3, None, at(739_000, 44_000)).unwrap();
    assert_eq!(order.total_amount, 0);
    assert!(db.items.is_empty());
}

#[test]
fn removing_a_line_recomputes_the_total() {
    let mut db = till();
    open_tab(&mut db, "t1", "o1");
    add(&mut db, "o1", "coffee", 2, "i1");
    add(&mut db, "o1", "cake", 1, "i2");
    let order = remove_order_item_with(&mut db, s("i2"), at(739_000, 43_000)).unwrap();
    assert_eq!(order.total_amount, 20);
    assert_eq!(order.items.len(), 1);
    let missing = remove_order_item_with(&mut db, s("i2"), at(739_000, 44_000)).unwrap_err();
    assert_eq!(missing.kind(), ErrorKind::NotFound);
    assert_eq!(missing.message(), "Item not found");
    assert!(totals_hold(&db));
}

#[test]
fn lines_of_a_locked_tab_cannot_be_changed_or_removed() {
    let mut db = till();
    open_tab(&mut db, "t1", "o1");
    add(&mut db, "o1", "coffee", 2, "i1");
    update_order_with(
        &mut db,
        s("o1"),
        UpdateOrderInput { status: None, total_amount: None, is_locked: Some(true) },
        at(739_000, 41_000),
    )
    .unwrap();
    let changed = update_order_item_with(&mut db, s("i1"), 9, None, at(739_000, 42_000)).unwrap_err();
    assert_eq!(changed.kind(), ErrorKind::Validation);
    let removed = remove_order_item_with(&mut db, s("i1"), at(739_000, 42_000)).unwrap_err();
    assert_eq!(removed.kind(), ErrorKind::Validation);
    assert_eq!(db.items[0].quantity, 2);
    assert_eq!(db.orders[0].total_amount, 20);
}

#[test]
fn transfer_moves_the_tab_to_a_free_table() {
    let mut db = till();
    open_tab(&mut db, "t1", "o1");
    add(&mut db, "o1", "tea", 2, "i1");
    let moved = transfer_order(&mut db, s("o1"), s("t2")).unwrap();
    assert_eq!(moved.table_id, "t2");
    assert_eq!(moved.total_amount, 14);
    assert!(get_open_order_by_table(&db, s("t1")).is_none());
    assert_eq!(get_open_order_by_table(&db, s("t2")).unwrap().id, "o1");
    assert!(db.is_well_formed());
}

#[test]
fn transfer_onto_an_occupied_table_is_a_conflict() {
    let mut db = till();
    open_tab(&mut db, "t1", "o1");
    open_tab(&mut db, "t2", "o2");
    let refused = transfer_order(&mut db, s("o1"), s("t2")).unwrap_err();
    assert_eq!(refused.kind(), ErrorKind::Conflict);
    assert_eq!(refused.message(), "Target table is occupied");
    assert_eq!(db.orders[0].table_id, "t1");
    assert!(one_open_tab_per_table(&db));
    let missing = transfer_order(&mut db, s("zz"), s("t3")).unwrap_err();
    assert_eq!(missing.kind(), ErrorKind::NotFound);
    let nowhere = transfer_order(&mut db, s("o1"), s("t9")).unwrap_err();
    assert_eq!(nowhere.kind(), ErrorKind::NotFound);
    assert_eq!(nowhere.message(), "Table not found");
}

#[test]
fn merge_conserves_money() {
    let mut db = till();
    open_tab(&mut db, "t1", "o1");
    open_tab(&mut db, "t2", "o2");
    add(&mut db, "o1", "coffee", 2, "i1");
    add(&mut db, "o1", "cake", 1, "i2");
    add(&mut db, "o2", "tea", 3, "i3");
    create_payment_with(&mut db, s("o1"), 5, PaymentMethod::Card, s("pay1"), at(739_000, 41_000))
        .unwrap();
    let merged = merge_orders_with(&mut db, s("o1"), s("o2"), at(739_000, 45_000)).unwrap();
    assert_eq!(merged.id, "o2");
    assert_eq!(merged.total_amount, 35 + 21);
    assert_eq!(merged.items.len(), 3);
    assert_eq!(merged.payments.len(), 1);
    assert_eq!(merged.payments[0].order_id, "o2");
    assert_eq!(merged.updated_at, at(739_000, 45_000));
    assert!(fetch_order_full(&db, &s("o1")).is_err());
    assert_eq!(db.orders.len(), 1);
    assert!(db.items.iter().all(|item| item.order_id == "o2"));
    assert!(totals_hold(&db));
    assert!(db.is_well_formed());
}

#[test]
fn merge_is_refused_without_effect() {
    let mut db = till();
    open_tab(&mut db, "t1", "o1");
    open_tab(&mut db, "t2", "o2");
    add(&mut db, "o1", "coffee", 2, "i1");
    let missing = merge_orders_with(&mut db, s("o1"), s("zz"), at(739_000, 0)).unwrap_err();
    assert_eq!(missing.kind(), ErrorKind::NotFound);
    let same = merge_orders_with(&mut db, s("o1"), s("o1"), at(739_000, 0)).unwrap_err();
    assert_eq!(same.kind(), ErrorKind::Validation);
    update_order_with(
        &mut db,
        s("o2"),
        UpdateOrderInput { status: None, total_amount: None, is_locked: Some(true) },
        at(739_000, 41_000),
    )
    .unwrap();
    let locked = merge_orders_with(&mut db, s("o1"), s("o2"), at(739_000, 0)).unwrap_err();
    assert_eq!(locked.kind(), ErrorKind::Validation);
    assert_eq!(db.orders.len(), 2);
    assert_eq!(db.items[0].order_id, "o1");
    assert_eq!(db.orders[0].total_amount, 20);
}

#[test]
fn a_closed_tab_takes_a_tab_whose_lines_are_paid() {
    let mut db = till();
    open_tab(&mut db, "t1", "o1");
    add(&mut db, "o1", "coffee", 2, "i1");
    create_payment_with(&mut db, s("o1"), 20, PaymentMethod::Cash, s("pay1"), at(739_000, 41_000))
        .unwrap();
    open_tab(&mut db, "t2", "o2");
    add(&mut db, "o2", "cake", 1, "i2");
    add(&mut db, "o2", "tea", 2, "i3");
    mark_items_paid(
        &mut db,
        vec![
            MarkItemPaidInput { id: s("i2"), quantity: 1 },
            MarkItemPaidInput { id: s("i3"), quantity: 2 },
        ],
    )
    .unwrap();
    create_payment_with(&mut db, s("o2"), 4, PaymentMethod::Card, s("pay2"), at(739_000, 42_000))
        .unwrap();
    assert_eq!(db.orders[0].status, OrderStatus::Closed);
    assert_eq!(db.orders[1].status, OrderStatus::Open);

    let merged = merge_orders_with(&mut db, s("o2"), s("o1"), at(739_000, 45_000)).unwrap();
    assert_eq!(merged.id, "o1");
    assert_eq!(merged.status, OrderStatus::Closed);
    assert_eq!(merged.total_amount, 20 + 15 + 14);
    let lines: Vec<(&str, i32, i32, bool)> = merged
        .items
        .iter()
        .map(|i| (i.id.as_str(), i.quantity, i.unit_price, i.is_paid))
        .collect();
    assert_eq!(lines, vec![("i1", 2, 10, true), ("i2", 1, 15, true), ("i3", 2, 7, true)]);
    let payments: Vec<(&str, i32)> =
        merged.payments.iter().map(|p| (p.id.as_str(), p.amount)).collect();
    assert_eq!(payments, vec![("pay1", 20), ("pay2", 4)]);
    assert!(fetch_order_full(&db, &s("o2")).is_err());
    assert_eq!(db.orders.len(), 1);
    assert!(totals_hold(&db));
    assert!(db.is_well_formed());
}

#[test]
fn a_closed_tab_takes_an_empty_tab() {
    let mut db = till();
    open_tab(&mut db, "t1", "o1");
    update_order_with(
        &mut db,
        s("o1"),
        UpdateOrderInput { status: Some(OrderStatus::Closed), total_amount: None, is_locked: None },
        at(739_000, 41_000),
    )
    .unwrap();
    open_tab(&mut db, "t1", "o2");
    let merged = merge_orders_with(&mut db, s("o2"), s("o1"), at(739_000, 45_000)).unwrap();
    assert_eq!(merged.id, "o1");
    assert_eq!(merged.total_amount, 0);
    assert!(merged.items.is_empty() && merged.payments.is_empty());
    assert_eq!(db.orders.len(), 1);
    assert!(db.is_well_formed());
}

#[test]
fn a_closed_tab_takes_no_unpaid_lines() {
    let mut db = till();
    open_tab(&mut db, "t1", "o1");
    add(&mut db, "o1", "coffee", 2, "i1");
    create_payment_with(&mut db, s("o1"), 20, PaymentMethod::Cash, s("pay1"), at(739_000, 41_000))
        .unwrap();
    open_tab(&mut db, "t2", "o2");
    add(&mut db, "o2", "cake", 1, "i2");
    add(&mut db, "o2", "tea", 2, "i3");
    mark_items_paid(&mut db, vec![MarkItemPaidInput { id: s("i2"), quantity: 1 }]).unwrap();
    let refused = merge_orders_with(&mut db, s("o2"), s("o1"), at(739_000, 45_000)).unwrap_err();
    assert_eq!(refused.kind(), ErrorKind::Validation);
    assert_eq!(refused.message(), "Cannot add unpaid items to closed order");
    assert_eq!(db.orders.len(), 2);
    assert_eq!(db.items[1].order_id, "o2");
    assert_eq!(db.orders[0].total_amount, 20);
    assert_eq!(db.orders[1].total_amount, 29);
    // The other way round the open tab takes the closed one.
    let merged = merge_orders_with(&mut db, s("o1"), s("o2"), at(739_000, 46_000)).unwrap();
    assert_eq!(merged.id, "o2");
    assert_eq!(merged.status, OrderStatus::Open);
    assert_eq!(merged.total_amount, 49);
    assert_eq!(merged.items.len(), 3);
    assert_eq!(merged.payments.len(), 1);
    assert!(db.is_well_formed());
}

#[test]
fn deleting_a_tab_takes_its_lines_and_payments() {
    let mut db = till();
    open_tab(&mut db, "t1", "o1");
    open_tab(&mut db, "t2", "o2");
    add(&mut db, "o1", "coffee", 2, "i1");
    add(&mut db, "o2", "tea", 1, "i2");
    create_payment_with(&mut db, s("o1"), 5, PaymentMethod::Cash, s("pay1"), at(739_000, 41_000))
        .unwrap();
    delete_order(&mut db, s("o1")).unwrap();
    assert_eq!(db.orders.len(), 1);
    assert_eq!(db.items.len(), 1);
    assert_eq!(db.items[0].id, "i2");
    assert!(db.transactions.is_empty());
    delete_order(&mut db, s("zz")).unwrap();
    assert_eq!(db.orders.len(), 1);
    assert!(db.is_well_formed());
}

#[test]
fn marking_paid_is_all_or_nothing() {
    let mut db = till();
    open_tab(&mut db, "t1", "o1");
    add(&mut db, "o1", "coffee", 2, "i1");
    add(&mut db, "o1", "cake", 1, "i2");
    let refused = mark_items_paid(
        &mut db,
        vec![
            MarkItemPaidInput { id: s("i1"), quantity: 2 },
            MarkItemPaidInput { id: s("zz"), quantity: 1 },
        ],
    )
    .unwrap_err();
    assert_eq!(refused.kind(), ErrorKind::NotFound);
    assert!(db.items.iter().all(|item| !item.is_paid));
    mark_items_paid(&mut db, vec![MarkItemPaidInput { id: s("i2"), quantity: 1 }]).unwrap();
    assert!(!db.items[0].is_paid);
    assert!(db.items[1].is_paid);
    // No payment stands behind the mark, and the tab stays open.
    assert!(db.transactions.is_empty());
    assert_eq!(db.orders[0].status, OrderStatus::Open);
    assert!(db.is_well_formed());
}

#[test]
fn a_tab_is_closed_by_hand_only_when_settled() {
    let mut db = till();
    open_tab(&mut db, "t1", "o1");
    add(&mut db, "o1", "coffee", 1, "i1");
    let close = || UpdateOrderInput {
        status: Some(OrderStatus::Closed),
        total_amount: None,
        is_locked: None,
    };
    let unpaid = update_order_with(&mut db, s("o1"), close(), at(739_000, 41_000)).unwrap_err();
    assert_eq!(unpaid.kind(), ErrorKind::Validation);
    mark_items_paid(&mut db, vec![MarkItemPaidInput { id: s("i1"), quantity: 1 }]).unwrap();
    let uncovered = update_order_with(&mut db, s("o1"), close(), at(739_000, 41_000)).unwrap_err();
    assert_eq!(uncovered.kind(), ErrorKind::Validation);
    assert_eq!(db.orders[0].status, OrderStatus::Open);
    let wrong_total = update_order_with(
        &mut db,
        s("o1"),
        UpdateOrderInput { status: None, total_amount: Some(11), is_locked: None },
        at(739_000, 41_000),
    )
    .unwrap_err();
    assert_eq!(wrong_total.kind(), ErrorKind::Validation);
    let same_total = update_order_with(
        &mut db,
        s("o1"),
        UpdateOrderInput { status: None, total_amount: Some(10), is_locked: Some(true) },
        at(739_000, 42_000),
    )
    .unwrap();
    assert!(same_total.is_locked);
    assert_eq!(same_total.updated_at, at(739_000, 42_000));
}

#[test]
fn a_closed_tab_is_reopened_only_on_a_free_table() {
    let mut db = till();
    open_tab(&mut db, "t1", "o1");
    add(&mut db, "o1", "tea", 1, "i1");
    create_payment_with(&mut db, s("o1"), 7, PaymentMethod::Cash, s("pay1"), at(739_000, 41_000))
        .unwrap();
    open_tab(&mut db, "t1", "o2");
    let reopen = || UpdateOrderInput {
        status: Some(OrderStatus::Open),
        total_amount: None,
        is_locked: None,
    };
    let refused = update_order_with(&mut db, s("o1"), reopen(), at(739_000, 42_000)).unwrap_err();
    assert_eq!(refused.kind(), ErrorKind::Conflict);
    transfer_order(&mut db, s("o2"), s("t2")).unwrap();
    let reopened = update_order_with(&mut db, s("o1"), reopen(), at(739_000, 43_000)).unwrap();
    assert_eq!(reopened.status, OrderStatus::Open);
    assert!(one_open_tab_per_table(&db));
    assert!(db.is_well_formed());
}

#[test]
fn history_pages_through_closed_tabs_latest_first() {
    let mut db = till();
    for (n, (day, second)) in [(739_000, 100), (739_001, 50), (739_000, 900), (739_002, 10)]
        .into_iter()
        .enumerate()
    {
        let id = format!("o{n}");
        create_order_with(&mut db, s("t1"), id.clone(), at(day, second)).unwrap();
        add_order_item_with(&mut db, id.clone(), s("tea"), 1, None, format!("i{n}"), at(day, second))
            .unwrap();
        create_payment_with(&mut db, id, 7, PaymentMethod::Cash, format!("pay{n}"), at(day, second))
            .unwrap();
    }
    open_tab(&mut db, "t2", "open");
    let all = get_order_history(&db, None, None, None).unwrap();
    let ids: Vec<&str> = all.orders.iter().map(|o| o.id.as_str()).collect();
    assert_eq!(ids, vec!["o3", "o1", "o2", "o0"]);
    assert_eq!(all.total_count, 4);
    assert!(!all.has_more);
    let page = get_order_history(&db, None, Some(2), Some(1)).unwrap();
    let ids: Vec<&str> = page.orders.iter().map(|o| o.id.as_str()).collect();
    assert_eq!(ids, vec!["o1", "o2"]);
    assert_eq!(page.total_count, 4);
    assert!(page.has_more);
    let day = get_order_history(&db, Some(739_000), None, None).unwrap();
    let ids: Vec<&str> = day.orders.iter().map(|o| o.id.as_str()).collect();
    assert_eq!(ids, vec!["o2", "o0"]);
    assert_eq!(day.total_count, 2);
    let beyond = get_order_history(&db, None, Some(u64::MAX), Some(u64::MAX)).unwrap();
    assert!(beyond.orders.is_empty());
    assert!(!beyond.has_more);
}

#[test]
fn invariants_hold_through_a_busy_evening() {
    let mut db = till();
    open_tab(&mut db, "t1", "o1");
    open_tab(&mut db, "t2", "o2");
    add(&mut db, "o1", "coffee", 2, "i1");
    add(&mut db, "o2", "cake", 4, "i2");
    add(&mut db, "o1", "tea", 1, "i3");
    assert!(totals_hold(&db) && one_open_tab_per_table(&db) && db.is_well_formed());
    update_order_item_with(&mut db, s("i2"), 1, None, at(739_000, 50_000)).unwrap();
    remove_order_item_with(&mut db, s("i3"), at(739_000, 50_001)).unwrap();
    assert!(totals_hold(&db) && one_open_tab_per_table(&db) && db.is_well_formed());
    create_payment_with(&mut db, s("o1"), 20, PaymentMethod::Card, s("pay1"), at(739_000, 51_000))
        .unwrap();
    open_tab(&mut db, "t1", "o3");
    merge_orders_with(&mut db, s("o2"), s("o3"), at(739_000, 52_000)).unwrap();
    transfer_order(&mut db, s("o3"), s("t3")).unwrap();
    assert!(totals_hold(&db) && one_open_tab_per_table(&db) && db.is_well_formed());
    assert_eq!(fetch_order_full(&db, &s("o3")).unwrap().total_amount, 15);
}
