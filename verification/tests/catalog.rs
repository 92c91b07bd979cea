use caffio::clock::Timestamp;
use caffio::commands::admin::{
    change_pin, check_admin_status, get_recovery_question, reset_pin, set_recovery, verify_pin,
};
use caffio::commands::categories::{
    create_category, create_category_with, delete_category, get_all_categories, update_category,
    UpdateCategoryInput,
};
use caffio::commands::expenses::{
    create_expense, create_expense_with, delete_expense, get_all_expenses, update_expense,
    CreateExpenseInput, UpdateExpenseInput,
};
use caffio::commands::orders::{create_order_with, update_order_with, UpdateOrderInput};
use caffio::commands::products::{
    create_product, create_product_with, delete_product, get_all_products, get_favorite_products,
    get_products_by_category, search_products, update_product, CreateProductInput,
    UpdateProductInput,
};
use caffio::commands::reports::{create_log, create_log_with, get_monthly_reports, get_recent_logs};
use caffio::commands::tables::{
    create_table, create_table_with, delete_table, ensure_unoccupied, get_all_tables,
    get_table_status,
};
use caffio::db::{init_database, run_migrations, AppState, Database};
use caffio::entities::monthly_report;
use caffio::entities::order::OrderStatus;
use caffio::entities::transaction::PaymentMethod;
use caffio::error::{AppError, ErrorKind};

fn at(day: i32, second: u32) -> Timestamp {
    Timestamp { day, second }
}

fn s(text: &str) -> String {
    text.to_string()
}

fn product(name: &str, price: i32, category: &str, favorite: bool) -> CreateProductInput {
    CreateProductInput { name: s(name), price, category_id: s(category), is_favorite: favorite }
}

fn menu() -> Database {
    let mut db = init_database();
    create_category_with(&mut db, s("Drinks"), s("drinks")).unwrap();
    create_category_with(&mut db, s("Food"), s("food")).unwrap();
    create_product_with(&mut db, product("Tea", 7, "drinks", false), s("prod1")).unwrap();
    create_product_with(&mut db, product("Cake", 15, "food", true), s("prod2")).unwrap();
    create_product_with(&mut db, product("Coffee", 10, "drinks", true), s("prod3")).unwrap();
    create_product_with(&mut db, product("Iced Tea", 9, "drinks", false), s("prod4")).unwrap();
    db
}

fn names<T>(list: &[T], name: impl Fn(&T) -> &str) -> Vec<String> {
    list.iter().map(|x| name(x).to_string()).collect()
}

#[test]
fn a_new_till_has_default_settings_only() {
    let state = AppState { db: init_database() };
    let db = state.db;
    assert!(db.is_well_formed());
    assert_eq!(db.settings.len(), 1);
    assert_eq!(db.settings[0].id, "app-settings");
    assert_eq!(db.settings[0].admin_pin, Some(s("1234")));
    assert_eq!(db.settings[0].security_question, None);
    assert!(db.orders.is_empty() && db.tables.is_empty() && db.products.is_empty());
}

#[test]
fn migrations_add_settings_only_when_missing() {
    let mut db = init_database();
    change_pin(&mut db, s("1234"), s("9999")).unwrap();
    run_migrations(&mut db);
    assert_eq!(db.settings.len(), 1);
    assert_eq!(db.settings[0].admin_pin, Some(s("9999")));
    db.settings.clear();
    run_migrations(&mut db);
    assert_eq!(db.settings.len(), 1);
    assert_eq!(db.settings[0].admin_pin, Some(s("1234")));
}

#[test]
fn tables_are_unique_by_name_and_key() {
    let mut db = init_database();
    let made = create_table_with(&mut db, s("T1"), s("a")).unwrap();
    assert_eq!((made.id.as_str(), made.name.as_str()), ("a", "T1"));
    let same_name = create_table_with(&mut db, s("T1"), s("b")).unwrap_err();
    assert_eq!(same_name.kind(), ErrorKind::Database);
    assert_eq!(same_name.message(), "Veritabanı hatası: UNIQUE constraint failed: Table.name");
    let same_key = create_table_with(&mut db, s("T2"), s("a")).unwrap_err();
    assert_eq!(same_key.kind(), ErrorKind::Database);
    assert_eq!(db.tables.len(), 1);
    let drawn = create_table(&mut db, s("T2")).unwrap();
    assert_eq!(drawn.id.len(), 36);
    assert!(db.is_well_formed());
}

#[test]
fn tables_are_listed_by_name() {
    let mut db = init_database();
    for (id, name) in [("1", "Terrace"), ("2", "Bar"), ("3", "bar"), ("4", "Bar 2"), ("5", "")] {
        create_table_with(&mut db, s(name), s(id)).unwrap();
    }
    let listed = get_all_tables(&db).unwrap();
    assert_eq!(names(&listed, |t| &t.name), vec!["", "Bar", "Bar 2", "Terrace", "bar"]);
}

#[test]
fn table_status_tells_what_is_taken_and_locked() {
    let mut db = init_database();
    for (id, name) in [("b", "B"), ("a", "A"), ("c", "C")] {
        create_table_with(&mut db, s(name), s(id)).unwrap();
    }
    create_order_with(&mut db, s("a"), s("o1"), at(739_000, 0)).unwrap();
    create_order_with(&mut db, s("c"), s("o2"), at(739_000, 0)).unwrap();
    update_order_with(
        &mut db,
        s("o2"),
        UpdateOrderInput { status: None, total_amount: None, is_locked: Some(true) },
        at(739_000, 1),
    )
    .unwrap();
    let status = get_table_status(&db).unwrap();
    let seen: Vec<(&str, bool, bool)> =
        status.iter().map(|t| (t.name.as_str(), t.has_open_order, t.is_locked)).collect();
    assert_eq!(seen, vec![("A", true, false), ("B", false, false), ("C", true, true)]);
    assert!(ensure_unoccupied(&db, &s("b")).is_ok());
    assert_eq!(ensure_unoccupied(&db, &s("a")).unwrap_err().kind(), ErrorKind::Conflict);
}

#[test]
fn a_table_in_use_cannot_be_deleted() {
    let mut db = init_database();
    create_table_with(&mut db, s("T1"), s("a")).unwrap();
    create_table_with(&mut db, s("T2"), s("b")).unwrap();
    create_order_with(&mut db, s("a"), s("o1"), at(739_000, 0)).unwrap();
    let refused = delete_table(&mut db, s("a")).unwrap_err();
    assert_eq!(refused.kind(), ErrorKind::Database);
    assert_eq!(db.tables.len(), 2);
    delete_table(&mut db, s("b")).unwrap();
    delete_table(&mut db, s("zz")).unwrap();
    assert_eq!(db.tables.len(), 1);
    assert!(db.is_well_formed());
}

#[test]
fn products_are_listed_by_name() {
    let db = menu();
    let all = get_all_products(&db).unwrap();
    assert_eq!(names(&all, |p| &p.name), vec!["Cake", "Coffee", "Iced Tea", "Tea"]);
    let drinks = get_products_by_category(&db, s("drinks")).unwrap();
    assert_eq!(names(&drinks, |p| &p.name), vec!["Coffee", "Iced Tea", "Tea"]);
    let favorites = get_favorite_products(&db).unwrap();
    assert_eq!(names(&favorites, |p| &p.name), vec!["Cake", "Coffee"]);
    let tea = search_products(&db, s("Tea")).unwrap();
    assert_eq!(names(&tea, |p| &p.name), vec!["Iced Tea", "Tea"]);
    assert_eq!(search_products(&db, s("")).unwrap().len(), 4);
    assert!(search_products(&db, s("tea")).unwrap().is_empty());
    assert!(search_products(&db, s("Iced Teas")).unwrap().is_empty());
}

#[test]
fn removed_products_leave_the_lists_but_are_kept() {
    let mut db = menu();
    delete_product(&mut db, s("prod3")).unwrap();
    delete_product(&mut db, s("zz")).unwrap();
    assert_eq!(db.products.len(), 4);
    assert!(db.products[2].is_deleted);
    let all = get_all_products(&db).unwrap();
    assert_eq!(names(&all, |p| &p.name), vec!["Cake", "Iced Tea", "Tea"]);
    assert_eq!(names(&get_favorite_products(&db).unwrap(), |p| &p.name), vec!["Cake"]);
}

#[test]
fn products_need_a_category_and_a_free_key() {
    let mut db = menu();
    let orphan = create_product_with(&mut db, product("X", 1, "nope", false), s("prod9")).unwrap_err();
    assert_eq!(orphan.kind(), ErrorKind::Database);
    let taken = create_product_with(&mut db, product("X", 1, "food", false), s("prod1")).unwrap_err();
    assert_eq!(taken.kind(), ErrorKind::Database);
    assert_eq!(db.products.len(), 4);
    let drawn = create_product(&mut db, product("Juice", 8, "drinks", false)).unwrap();
    assert_eq!(drawn.id.len(), 36);
    assert_eq!((drawn.price, drawn.is_deleted), (8, false));
}

#[test]
fn products_are_changed_field_by_field() {
    let mut db = menu();
    let changed = update_product(
        &mut db,
        s("prod1"),
        UpdateProductInput { name: Some(s("Green Tea")), price: None, is_favorite: Some(true) },
    )
    .unwrap();
    assert_eq!(changed.name, "Green Tea");
    assert_eq!(changed.price, 7);
    assert!(changed.is_favorite);
    assert_eq!(changed.category_id, "drinks");
    let missing = update_product(
        &mut db,
        s("zz"),
        UpdateProductInput { name: None, price: Some(1), is_favorite: None },
    )
    .unwrap_err();
    assert_eq!(missing.kind(), ErrorKind::NotFound);
    assert_eq!(missing.message(), "Ürün bulunamadı");
}

#[test]
fn categories_are_created_changed_and_removed() {
    let mut db = menu();
    let made = create_category_with(&mut db, s("Dessert"), s("dessert")).unwrap();
    assert_eq!(made.icon, Some(s("utensils")));
    let taken = create_category_with(&mut db, s("Other"), s("food")).unwrap_err();
    assert_eq!(taken.kind(), ErrorKind::Database);
    let changed = update_category(
        &mut db,
        s("food"),
        UpdateCategoryInput { name: Some(s("Bites")), icon: Some(s("fork")) },
    )
    .unwrap();
    assert_eq!((changed.name.as_str(), changed.icon.as_deref()), ("Bites", Some("fork")));
    let kept = update_category(&mut db, s("food"), UpdateCategoryInput { name: None, icon: None })
        .unwrap();
    assert_eq!((kept.name.as_str(), kept.icon.as_deref()), ("Bites", Some("fork")));
    let missing =
        update_category(&mut db, s("zz"), UpdateCategoryInput { name: None, icon: None })
            .unwrap_err();
    assert_eq!(missing.message(), "Kategori bulunamadı");
    let listed = get_all_categories(&db).unwrap();
    assert_eq!(names(&listed, |c| &c.name), vec!["Bites", "Dessert", "Drinks"]);

    delete_category(&mut db, s("drinks")).unwrap();
    let listed = get_all_categories(&db).unwrap();
    assert_eq!(names(&listed, |c| &c.name), vec!["Bites", "Dessert"]);
    assert_eq!(db.categories.len(), 3);
    // Its products went with it.
    assert_eq!(names(&get_all_products(&db).unwrap(), |p| &p.name), vec!["Cake"]);
    assert_eq!(create_category(&mut db, s("New")).unwrap().id.len(), 36);
    assert!(db.is_well_formed());
}

fn spend(description: &str, amount: i32, method: Option<&str>) -> CreateExpenseInput {
    CreateExpenseInput {
        description: s(description),
        amount,
        category: None,
        payment_method: method.map(s),
    }
}

#[test]
fn expenses_default_to_cash_and_list_latest_first() {
    let mut db = init_database();
    let milk = create_expense_with(&mut db, spend("milk", 12, None), s("e1"), at(739_000, 100))
        .unwrap();
    assert_eq!(milk.payment_method, Some(s("CASH")));
    assert_eq!(milk.created_at, at(739_000, 100));
    let rent = create_expense_with(&mut db, spend("rent", 900, Some("CARD")), s("e2"), at(739_002, 5))
        .unwrap();
    assert_eq!(rent.payment_method, Some(s("CARD")));
    create_expense_with(&mut db, spend("ice", 3, None), s("e3"), at(739_000, 200)).unwrap();
    let taken = create_expense_with(&mut db, spend("x", 1, None), s("e1"), at(739_000, 0))
        .unwrap_err();
    assert_eq!(taken.kind(), ErrorKind::Database);
    let listed = get_all_expenses(&db).unwrap();
    assert_eq!(names(&listed, |e| &e.description), vec!["rent", "ice", "milk"]);

    let changed = update_expense(
        &mut db,
        s("e1"),
        UpdateExpenseInput {
            description: None,
            amount: Some(13),
            category: Some(s("dairy")),
            payment_method: None,
        },
    )
    .unwrap();
    assert_eq!(changed.amount, 13);
    assert_eq!(changed.category, Some(s("dairy")));
    assert_eq!(changed.description, "milk");
    assert_eq!(changed.payment_method, Some(s("CASH")));
    let missing = update_expense(
        &mut db,
        s("zz"),
        UpdateExpenseInput { description: None, amount: None, category: None, payment_method: None },
    )
    .unwrap_err();
    assert_eq!(missing.message(), "Gider bulunamadı");
    delete_expense(&mut db, s("e2")).unwrap();
    delete_expense(&mut db, s("zz")).unwrap();
    assert_eq!(db.expenses.len(), 2);
    let drawn = create_expense(&mut db, spend("tips", 1, None)).unwrap();
    assert!(drawn.created_at.second < 86_400);
    assert!(db.is_well_formed());
}

#[test]
fn the_pin_guards_the_settings() {
    let mut db = init_database();
    assert!(check_admin_status(&db).required);
    let right = verify_pin(&db, s("1234"));
    assert!(right.valid && right.required);
    assert!(!verify_pin(&db, s("0000")).valid);

    let wrong = change_pin(&mut db, s("0000"), s("4321")).unwrap_err();
    assert_eq!(wrong.kind(), ErrorKind::Validation);
    assert_eq!(wrong.message(), "Mevcut PIN yanlış");
    change_pin(&mut db, s("1234"), s("4321")).unwrap();
    assert!(verify_pin(&db, s("4321")).valid);
    assert!(!verify_pin(&db, s("1234")).valid);

    assert_eq!(get_recovery_question(&db), None);
    let wrong = set_recovery(&mut db, s("1234"), s("Pet?"), s("Rex")).unwrap_err();
    assert_eq!(wrong.kind(), ErrorKind::Validation);
    set_recovery(&mut db, s("4321"), s("Pet?"), s("Rex")).unwrap();
    assert_eq!(get_recovery_question(&db), Some(s("Pet?")));

    let wrong = reset_pin(&mut db, s("Max")).unwrap_err();
    assert_eq!(wrong.kind(), ErrorKind::Validation);
    assert_eq!(wrong.message(), "Güvenlik cevabı yanlış");
    assert!(verify_pin(&db, s("4321")).valid);
    reset_pin(&mut db, s("Rex")).unwrap();
    assert!(verify_pin(&db, s("1234")).valid);
    assert_eq!(get_recovery_question(&db), Some(s("Pet?")));
    assert!(db.is_well_formed());
}

#[test]
fn a_till_without_settings_asks_for_no_pin() {
    let mut db = init_database();
    db.settings.clear();
    let check = verify_pin(&db, s("anything"));
    assert!(check.valid && !check.required);
    assert!(!check_admin_status(&db).required);
    assert_eq!(get_recovery_question(&db), None);
    let missing = change_pin(&mut db, s("1234"), s("1")).unwrap_err();
    assert_eq!(missing.kind(), ErrorKind::NotFound);
    assert_eq!(missing.message(), "Ayarlar bulunamadı");
    assert_eq!(reset_pin(&mut db, s("x")).unwrap_err().kind(), ErrorKind::NotFound);
    assert_eq!(set_recovery(&mut db, s("1"), s("q"), s("a")).unwrap_err().kind(), ErrorKind::NotFound);
}

#[test]
fn a_reset_needs_an_answer_on_file() {
    let mut db = init_database();
    assert_eq!(reset_pin(&mut db, s("")).unwrap_err().kind(), ErrorKind::Validation);
    db.settings[0].admin_pin = None;
    assert!(!check_admin_status(&db).required);
    assert!(!verify_pin(&db, s("")).valid);
}

#[test]
fn the_trail_is_searched_and_paged_latest_first() {
    let mut db = init_database();
    let entries = [
        ("l1", "ORDER_CREATED", Some("T1"), None, 739_000, 100),
        ("l2", "PAYMENT", Some("T2"), Some("cash 35"), 739_001, 50),
        ("l3", "ORDER_CREATED", Some("T2"), Some("walk-in"), 739_002, 10),
        ("l4", "LOGIN", None, None, 739_002, 20),
    ];
    for (id, action, table, details, day, second) in entries {
        let made = create_log_with(
            &mut db,
            s(action),
            table.map(s),
            Some(s("ana")),
            details.map(s),
            s(id),
            at(day, second),
        )
        .unwrap();
        assert_eq!(made.action, action);
        assert_eq!(made.created_at, at(day, second));
    }
    let ids = |db: &Database, limit, start, end, offset, search: Option<&str>| {
        names(&get_recent_logs(db, limit, start, end, offset, search.map(s)).unwrap(), |l| &l.id)
    };
    assert_eq!(ids(&db, None, None, None, None, None), vec!["l4", "l3", "l2", "l1"]);
    assert_eq!(ids(&db, Some(2), None, None, Some(1), None), vec!["l3", "l2"]);
    assert_eq!(ids(&db, None, Some(739_001), None, None, None), vec!["l4", "l3", "l2"]);
    assert_eq!(ids(&db, None, Some(739_001), Some(739_001), None, None), vec!["l2"]);
    assert_eq!(ids(&db, None, None, None, None, Some("T2")), vec!["l3", "l2"]);
    assert_eq!(ids(&db, None, None, None, None, Some("ORDER")), vec!["l3", "l1"]);
    assert_eq!(ids(&db, None, None, None, None, Some("cash")), vec!["l2"]);
    assert!(ids(&db, None, None, None, None, Some("ana")).is_empty());
    let taken = create_log_with(&mut db, s("X"), None, None, None, s("l1"), at(1, 1)).unwrap_err();
    assert_eq!(taken.kind(), ErrorKind::Database);
    let drawn = create_log(&mut db, s("LOGOUT"), None, None, None).unwrap();
    assert_eq!(drawn.id.len(), 36);
    assert!(db.is_well_formed());
}

#[test]
fn monthly_reports_are_listed_latest_month_first() {
    let mut db = init_database();
    for (id, month) in [("m1", "2024-02"), ("m2", "2023-12"), ("m3", "2024-10"), ("m4", "2024-03")] {
        db.monthly_reports.push(monthly_report::Model {
            id: s(id),
            month_date: s(month),
            total_revenue: 100,
            total_expenses: 40,
            net_profit: 60,
            order_count: 5,
            updated_at: at(739_000, 0),
        });
    }
    let listed = get_monthly_reports(&db, None).unwrap();
    assert_eq!(
        names(&listed, |m| &m.month_date),
        vec!["2024-10", "2024-03", "2024-02", "2023-12"]
    );
    assert_eq!(listed[0].net_profit, 60);
    let two = get_monthly_reports(&db, Some(2)).unwrap();
    assert_eq!(names(&two, |m| &m.month_date), vec!["2024-10", "2024-03"]);
}

#[test]
fn names_of_states_and_methods_round_trip() {
    for status in [OrderStatus::Open, OrderStatus::Closed] {
        assert_eq!(OrderStatus::from_name(&status.name()), Some(status));
    }
    assert_eq!(OrderStatus::Open.name(), "OPEN");
    assert_eq!(OrderStatus::Closed.name(), "CLOSED");
    assert_eq!(OrderStatus::from_name("open"), None);
    assert_eq!(OrderStatus::from_name("CANCELLED"), None);
    for method in [PaymentMethod::Cash, PaymentMethod::Card] {
        assert_eq!(PaymentMethod::from_name(&method.name()), Some(method));
    }
    assert_eq!(PaymentMethod::Cash.name(), "CASH");
    assert_eq!(PaymentMethod::Card.name(), "CARD");
    assert_eq!(PaymentMethod::from_name(""), None);
}

#[test]
fn failures_show_their_text() {
    assert_eq!(AppError::not_found("a").message(), "a");
    assert_eq!(AppError::validation("b").message(), "b");
    assert_eq!(AppError::conflict("c").message(), "c");
    assert_eq!(AppError::database("d").message(), "Veritabanı hatası: d");
    assert_eq!(AppError::Conflict(s("x")).kind(), ErrorKind::Conflict);
    assert_eq!(AppError::Database(s("x")).kind(), ErrorKind::Database);
}
