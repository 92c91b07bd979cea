use caffio::clock::Timestamp;
use caffio::commands::dashboard::{
    dashboard_stats_on, extended_dashboard_stats_on, get_dashboard_stats,
    get_extended_dashboard_stats, get_revenue_trend, revenue_trend_at, revenue_trend_from,
    smart_today, RevenueTrendItem,
};
use caffio::commands::expenses::{create_expense_with, CreateExpenseInput};
use caffio::commands::orders::{add_order_item_with, create_order_with};
use caffio::commands::payments::create_payment_with;
use caffio::commands::products::{create_product_with, CreateProductInput};
use caffio::commands::tables::create_table_with;
use caffio::db::{init_database, Database};
use caffio::entities::category;
use caffio::entities::transaction::PaymentMethod;
use caffio::error::ErrorKind;

fn at(day: i32, second: u32) -> Timestamp {
    Timestamp { day, second }
}

fn s(text: &str) -> String {
    text.to_string()
}

fn till() -> Database {
    let mut db = init_database();
    db.categories.push(category::Model { id: s("c"), name: s("All"), icon: None, is_deleted: false });
    for (id, name) in [("t1", "T1"), ("t2", "T2")] {
        create_table_with(&mut db, s(name), s(id)).unwrap();
    }
    let menu = [
        ("a", "Americano", 10),
        ("b", "Brownie", 15),
        ("c", "Cola", 5),
        ("d", "Donut", 4),
        ("e", "Espresso", 8),
        ("f", "Frappe", 12),
        ("g", "Gelato", 6),
    ];
    for (id, name, price) in menu {
        create_product_with(
            &mut db,
            CreateProductInput { name: s(name), price, category_id: s("c"), is_favorite: false },
            s(id),
        )
        .unwrap();
    }
    db
}

/// A tab with the given lines, paid in full by `method` at `when`.
fn settled(db: &mut Database, n: u32, lines: &[(&str, i32)], method: PaymentMethod, when: Timestamp) {
    let id = format!("o{n}");
    create_order_with(db, s("t1"), id.clone(), when).unwrap();
    let mut total = 0;
    for (k, (product, units)) in lines.iter().enumerate() {
        total = add_order_item_with(db, id.clone(), s(product), *units, None, format!("i{n}-{k}"), when)
            .unwrap()
            .total_amount;
    }
    assert!(create_payment_with(db, id, total, method, format!("pay{n}"), when).unwrap().completed);
}

const DAY: i32 = 739_000;

fn busy_day() -> Database {
    let mut db = till();
    settled(&mut db, 1, &[("a", 2), ("b", 1)], PaymentMethod::Cash, at(DAY, 9 * 3_600));
    settled(&mut db, 2, &[("a", 1), ("c", 4), ("d", 4)], PaymentMethod::Card, at(DAY, 9 * 3_600 + 59));
    settled(&mut db, 3, &[("e", 3), ("f", 5), ("g", 1)], PaymentMethod::Cash, at(DAY, 23 * 3_600));
    settled(&mut db, 4, &[("g", 1)], PaymentMethod::Cash, at(DAY + 1, 2 * 3_600));
    // Another business day.
    settled(&mut db, 5, &[("b", 50)], PaymentMethod::Cash, at(DAY + 1, 6 * 3_600));
    // Still open.
    create_order_with(&mut db, s("t2"), s("open"), at(DAY, 12 * 3_600)).unwrap();
    add_order_item_with(&mut db, s("open"), s("b"), 9, None, s("io"), at(DAY, 12 * 3_600)).unwrap();
    create_expense_with(
        &mut db,
        CreateExpenseInput { description: s("milk"), amount: 11, category: None, payment_method: None },
        s("e1"),
        at(DAY, 10 * 3_600),
    )
    .unwrap();
    db
}

#[test]
fn stats_sum_the_business_day() {
    let db = busy_day();
    let stats = dashboard_stats_on(&db, DAY as i64).unwrap();
    assert_eq!(stats.daily_revenue, 35 + 46 + 90 + 6);
    assert_eq!(stats.total_orders, 4);
    assert_eq!(stats.payment_method_breakdown.cash, 35 + 90 + 6);
    assert_eq!(stats.payment_method_breakdown.card, 46);
    let top: Vec<(&str, &str, i32)> = stats
        .top_products
        .iter()
        .map(|p| (p.product_id.as_str(), p.product_name.as_str(), p.quantity))
        .collect();
    // Most units first; of equal numbers, the product earlier in the catalog.
    assert_eq!(
        top,
        vec![
            ("f", "Frappe", 5),
            ("c", "Cola", 4),
            ("d", "Donut", 4),
            ("a", "Americano", 3),
            ("e", "Espresso", 3)
        ]
    );
}

#[test]
fn stats_of_a_quiet_day_are_empty() {
    let db = busy_day();
    let stats = dashboard_stats_on(&db, DAY as i64 - 1).unwrap();
    assert_eq!((stats.daily_revenue, stats.total_orders), (0, 0));
    assert_eq!(stats.payment_method_breakdown.cash + stats.payment_method_breakdown.card, 0);
    assert!(stats.top_products.is_empty());
    let next = dashboard_stats_on(&db, DAY as i64 + 1).unwrap();
    assert_eq!((next.daily_revenue, next.total_orders), (750, 1));
    assert_eq!(next.top_products.len(), 1);
    assert_eq!(next.top_products[0].quantity, 50);
}

#[test]
fn extended_stats_add_the_room_and_the_hours() {
    let db = busy_day();
    let stats = extended_dashboard_stats_on(&db, DAY as i64).unwrap();
    assert_eq!(stats.daily_revenue, 177);
    assert_eq!(stats.total_orders, 4);
    assert_eq!(stats.top_products.len(), 5);
    assert_eq!(stats.open_tables, 1);
    assert_eq!(stats.pending_orders, 1);
    assert_eq!(stats.daily_expenses, 11);
    assert!(stats.category_breakdown.is_empty());
    assert!(stats.bottom_products.is_empty());
    let hours: Vec<(u32, i32, i32)> =
        stats.hourly_activity.iter().map(|h| (h.hour, h.revenue, h.order_count)).collect();
    assert_eq!(hours, vec![(2, 6, 1), (9, 81, 2), (23, 90, 1)]);
}

#[test]
fn stats_that_do_not_fit_are_refused() {
    let mut db = till();
    create_product_with(
        &mut db,
        CreateProductInput { name: s("Gold"), price: i32::MAX, category_id: s("c"), is_favorite: false },
        s("gold"),
    )
    .unwrap();
    settled(&mut db, 1, &[("gold", 1)], PaymentMethod::Cash, at(DAY, 40_000));
    settled(&mut db, 2, &[("gold", 1)], PaymentMethod::Card, at(DAY, 50_000));
    let refused = dashboard_stats_on(&db, DAY as i64).unwrap_err();
    assert_eq!(refused.kind(), ErrorKind::Validation);
    assert_eq!(refused.message(), "Amount out of range");
    assert_eq!(extended_dashboard_stats_on(&db, DAY as i64).unwrap_err().kind(), ErrorKind::Validation);
    assert_eq!(revenue_trend_from(&db, DAY as i64).unwrap_err().kind(), ErrorKind::Validation);
    assert!(revenue_trend_from(&db, DAY as i64 + 1).unwrap().is_empty());
}

#[test]
fn trend_has_a_row_per_business_day() {
    let db = busy_day();
    let rows = revenue_trend_from(&db, DAY as i64 - 5).unwrap();
    assert_eq!(
        rows,
        vec![
            RevenueTrendItem { date: DAY as i64, revenue: 177, order_count: 4 },
            RevenueTrendItem { date: DAY as i64 + 1, revenue: 750, order_count: 1 },
        ]
    );
    let later = revenue_trend_from(&db, DAY as i64 + 1).unwrap();
    assert_eq!(later.len(), 1);
    assert_eq!(later[0].date, DAY as i64 + 1);
    assert!(revenue_trend_from(&db, DAY as i64 + 2).unwrap().is_empty());
}

#[test]
fn trend_reaches_back_seven_days_by_default() {
    let mut db = till();
    for (n, day) in [DAY - 8, DAY - 7, DAY - 3, DAY].into_iter().enumerate() {
        settled(&mut db, n as u32, &[("c", 1)], PaymentMethod::Cash, at(day, 40_000));
    }
    let now = at(DAY, 60_000);
    let days = |rows: Vec<RevenueTrendItem>| rows.iter().map(|r| r.date).collect::<Vec<_>>();
    assert_eq!(
        days(revenue_trend_at(&db, None, now).unwrap()),
        vec![DAY as i64 - 7, DAY as i64 - 3, DAY as i64]
    );
    assert_eq!(days(revenue_trend_at(&db, Some(3), now).unwrap()), vec![DAY as i64 - 3, DAY as i64]);
    assert_eq!(days(revenue_trend_at(&db, Some(0), now).unwrap()), vec![DAY as i64]);
    assert!(days(revenue_trend_at(&db, Some(-1), now).unwrap()).is_empty());
    // Before five in the morning the business day is still the one before.
    assert_eq!(
        days(revenue_trend_at(&db, Some(0), at(DAY + 1, 17_999)).unwrap()),
        vec![DAY as i64]
    );
}

#[test]
fn figures_through_the_clock_are_those_of_today() {
    let mut db = till();
    let today = smart_today();
    settled(&mut db, 1, &[("a", 2)], PaymentMethod::Card, at(today as i32, 43_200));
    let stats = get_dashboard_stats(&db).unwrap();
    let extended = get_extended_dashboard_stats(&db).unwrap();
    let trend = get_revenue_trend(&db, None).unwrap();
    if smart_today() == today {
        assert_eq!(stats.daily_revenue, 20);
        assert_eq!(stats.payment_method_breakdown.card, 20);
        assert_eq!(extended.total_orders, 1);
        assert_eq!(extended.hourly_activity.len(), 1);
        assert_eq!(extended.hourly_activity[0].hour, 12);
        assert_eq!(trend, vec![RevenueTrendItem { date: today, revenue: 20, order_count: 1 }]);
    }
}
