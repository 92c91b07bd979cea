use caffio::clock::{business_date, cutoff_date, Timestamp};
use caffio::commands::expenses::{create_expense_with, CreateExpenseInput};
use caffio::commands::maintenance::{
    archive_old_data, archive_old_data_with, backup_outcome, check_end_of_day, end_of_day_next,
    execute_end_of_day, execute_end_of_day_with, export_outcome, import_outcome, is_backup,
    rotation_outcome, rotation_victims, seed_category, seed_database, seed_table, system_check,
    BackupEntry, BackupResult, EndOfDayAction, EndOfDayEvent, EndOfDayState, ImportStep,
};
use caffio::commands::orders::{add_order_item_with, create_order_with};
use caffio::commands::payments::create_payment_with;
use caffio::commands::products::{create_product_with, delete_product, CreateProductInput};
use caffio::commands::reports::{
    generate_zreport, generate_zreport_with, get_zreport_history, DailySummaryResponse,
};
use caffio::commands::tables::create_table_with;
use caffio::db::{init_database, Database};
use caffio::entities::category;
use caffio::entities::daily_summary;
use caffio::entities::order::OrderStatus;
use caffio::entities::transaction::PaymentMethod;
use caffio::error::ErrorKind;

fn at(day: i32, second: u32) -> Timestamp {
    Timestamp { day, second }
}

fn s(text: &str) -> String {
    text.to_string()
}

fn till() -> Database {
    let mut db = init_database();
    db.categories.push(category::Model { id: s("c"), name: s("All"), icon: None, is_deleted: false });
    for (id, name) in [("t1", "T1"), ("t2", "T2")] {
        create_table_with(&mut db, s(name), s(id)).unwrap();
    }
    for (id, name, price) in [("coffee", "Coffee", 10), ("cake", "Cake", 15)] {
        create_product_with(
            &mut db,
            CreateProductInput { name: s(name), price, category_id: s("c"), is_favorite: false },
            s(id),
        )
        .unwrap();
    }
    db
}

/// A tab of `units` coffees opened and paid in full at `when`.
fn settled_tab(db: &mut Database, n: u32, units: i32, method: PaymentMethod, when: Timestamp) {
    let id = format!("o{n}");
    create_order_with(db, s("t1"), id.clone(), when).unwrap();
    add_order_item_with(db, id.clone(), s("coffee"), units, None, format!("i{n}"), when).unwrap();
    let paid = create_payment_with(db, id, units * 10, method, format!("pay{n}"), when).unwrap();
    assert!(paid.completed);
}

fn expense(db: &mut Database, n: u32, amount: i32, when: Timestamp) {
    create_expense_with(
        db,
        CreateExpenseInput { description: s("milk"), amount, category: None, payment_method: None },
        format!("e{n}"),
        when,
    )
    .unwrap();
}

const NOON: u32 = 43_200;

#[test]
fn business_day_starts_at_five() {
    assert_eq!(business_date(at(739_000, 0)), 738_999);
    assert_eq!(business_date(at(739_000, 17_999)), 738_999);
    assert_eq!(business_date(at(739_000, 18_000)), 739_000);
    assert_eq!(business_date(at(739_000, 86_399)), 739_000);
    assert_eq!(business_date(at(i32::MIN, 0)), i32::MIN as i64 - 1);
    assert_eq!(cutoff_date(at(739_000, NOON), 90), 738_910);
    assert_eq!(cutoff_date(at(i32::MIN, 0), u32::MAX), i32::MIN as i64 - u32::MAX as i64);
}

#[test]
fn report_sums_the_business_day() {
    let mut db = till();
    settled_tab(&mut db, 1, 2, PaymentMethod::Cash, at(739_000, NOON));
    settled_tab(&mut db, 2, 3, PaymentMethod::Card, at(739_000, 80_000));
    // After midnight and before five: still the same business day.
    settled_tab(&mut db, 3, 1, PaymentMethod::Cash, at(739_001, 3_600));
    // The next business day.
    settled_tab(&mut db, 4, 7, PaymentMethod::Cash, at(739_001, 18_000));
    // Before five on the day itself: the business day before.
    settled_tab(&mut db, 5, 9, PaymentMethod::Card, at(739_000, 17_999));
    // An open tab does not count.
    create_order_with(&mut db, s("t2"), s("open"), at(739_000, NOON)).unwrap();
    add_order_item_with(&mut db, s("open"), s("cake"), 1, None, s("io"), at(739_000, NOON)).unwrap();
    create_payment_with(&mut db, s("open"), 5, PaymentMethod::Cash, s("pay-open"), at(739_000, NOON))
        .unwrap();
    expense(&mut db, 1, 12, at(739_000, NOON));
    expense(&mut db, 2, 3, at(739_001, 100));
    expense(&mut db, 3, 100, at(739_001, 20_000));

    let report =
        generate_zreport_with(&mut db, Some(31), s("z1"), at(739_001, 4_000)).unwrap();
    assert_eq!(
        report,
        DailySummaryResponse {
            id: s("z1"),
            date: 739_000,
            total_cash: 30,
            actual_cash: Some(31),
            total_card: 30,
            total_expenses: 15,
            net_profit: 45,
            cancel_count: 0,
            total_vat: 0,
            order_count: 3,
            total_revenue: 60,
            created_at: at(739_001, 4_000),
        }
    );
    assert_eq!(db.summaries.len(), 1);
    assert!(db.is_well_formed());
}

#[test]
fn report_is_made_once_per_day() {
    let mut db = till();
    settled_tab(&mut db, 1, 2, PaymentMethod::Cash, at(739_000, NOON));
    let first = generate_zreport_with(&mut db, Some(20), s("z1"), at(739_000, 80_000)).unwrap();
    // More business on the same day does not change the report.
    settled_tab(&mut db, 2, 5, PaymentMethod::Card, at(739_000, 81_000));
    let second = generate_zreport_with(&mut db, None, s("z2"), at(739_001, 1_000)).unwrap();
    assert_eq!(second, first);
    assert_eq!(second.total_revenue, 20);
    assert_eq!(second.actual_cash, Some(20));
    assert_eq!(db.summaries.len(), 1);
    // The next business day gets its own.
    let next = generate_zreport_with(&mut db, None, s("z3"), at(739_001, 18_000)).unwrap();
    assert_eq!(next.date, 739_001);
    assert_eq!(next.total_revenue, 0);
    assert_eq!(next.net_profit, 0);
    assert_eq!(db.summaries.len(), 2);
    assert!(db.is_well_formed());
}

#[test]
fn report_key_must_be_unused() {
    let mut db = till();
    generate_zreport_with(&mut db, None, s("z1"), at(739_000, NOON)).unwrap();
    let refused = generate_zreport_with(&mut db, None, s("z1"), at(739_001, NOON)).unwrap_err();
    assert_eq!(refused.kind(), ErrorKind::Database);
    assert_eq!(db.summaries.len(), 1);
}

#[test]
fn report_that_does_not_fit_is_refused() {
    let mut db = till();
    expense(&mut db, 1, i32::MAX, at(739_000, NOON));
    expense(&mut db, 2, 1, at(739_000, NOON));
    let refused = generate_zreport_with(&mut db, None, s("z1"), at(739_000, NOON)).unwrap_err();
    assert_eq!(refused.kind(), ErrorKind::Validation);
    assert_eq!(refused.message(), "Amount out of range");
    assert!(db.summaries.is_empty());
}

#[test]
fn report_through_the_clock_is_kept() {
    let mut db = till();
    let first = generate_zreport(&mut db, Some(5)).unwrap();
    assert_eq!(first.id.len(), 36);
    assert_eq!(first.date, business_date(first.created_at));
    let second = generate_zreport(&mut db, Some(9)).unwrap();
    if second.date == first.date {
        assert_eq!(second, first);
        assert_eq!(db.summaries.len(), 1);
    }
}

#[test]
fn report_history_is_latest_day_first() {
    let mut db = till();
    for (n, day) in [739_000, 739_005, 739_002, 739_001].into_iter().enumerate() {
        generate_zreport_with(&mut db, None, format!("z{n}"), at(day, NOON)).unwrap();
    }
    let days = |list: Vec<DailySummaryResponse>| list.iter().map(|r| r.date).collect::<Vec<_>>();
    assert_eq!(
        days(get_zreport_history(&db, None, None, None).unwrap()),
        vec![739_005, 739_002, 739_001, 739_000]
    );
    assert_eq!(
        days(get_zreport_history(&db, Some(2), None, None).unwrap()),
        vec![739_005, 739_002]
    );
    assert_eq!(
        days(get_zreport_history(&db, None, Some(739_001), Some(739_002)).unwrap()),
        vec![739_002, 739_001]
    );
    assert!(get_zreport_history(&db, Some(0), None, None).unwrap().is_empty());
}

#[test]
fn sweep_spares_what_is_recent_or_open() {
    let mut db = till();
    let now = at(739_000, NOON);
    // Cutoff day: 738_910.
    settled_tab(&mut db, 1, 1, PaymentMethod::Cash, at(738_909, 86_399));
    settled_tab(&mut db, 2, 2, PaymentMethod::Cash, at(738_910, 0));
    settled_tab(&mut db, 3, 3, PaymentMethod::Card, at(738_000, NOON));
    create_order_with(&mut db, s("t2"), s("old-open"), at(738_000, NOON)).unwrap();
    add_order_item_with(&mut db, s("old-open"), s("cake"), 1, None, s("io"), at(738_000, NOON))
        .unwrap();
    expense(&mut db, 1, 5, at(738_909, NOON));
    expense(&mut db, 2, 5, at(738_910, NOON));
    for (id, date) in [("z-old", 738_634), ("z-edge", 738_635), ("z-new", 738_999)] {
        db.summaries.push(daily_summary::Model {
            id: s(id),
            date,
            total_cash: 0,
            actual_cash: None,
            total_card: 0,
            total_expenses: 0,
            net_profit: 0,
            cancel_count: 0,
            total_vat: 0,
            order_count: 0,
            total_revenue: 0,
            created_at: at(date as i32, NOON),
        });
    }
    assert!(db.is_well_formed());

    let counts = archive_old_data_with(&mut db, now).unwrap();
    assert_eq!(counts.deleted_orders, 2);
    assert_eq!(counts.deleted_items, 2);
    assert_eq!(counts.deleted_transactions, 2);
    assert_eq!(counts.deleted_expenses, 1);
    assert_eq!(counts.deleted_summaries, 1);

    let left: Vec<&str> = db.orders.iter().map(|o| o.id.as_str()).collect();
    assert_eq!(left, vec!["o2", "old-open"]);
    // No line or payment is left behind without its tab.
    assert!(db.items.iter().all(|i| db.orders.iter().any(|o| o.id == i.order_id)));
    assert!(db.transactions.iter().all(|p| db.orders.iter().any(|o| o.id == p.order_id)));
    assert_eq!(db.items.len(), 2);
    assert_eq!(db.transactions.len(), 1);
    assert_eq!(db.expenses.len(), 1);
    assert_eq!(db.expenses[0].id, "e2");
    let days: Vec<i64> = db.summaries.iter().map(|z| z.date).collect();
    assert_eq!(days, vec![738_635, 738_999]);
    assert!(db.is_well_formed());

    // A second sweep finds nothing.
    let again = archive_old_data_with(&mut db, now).unwrap();
    assert_eq!(again.deleted_orders + again.deleted_items + again.deleted_transactions, 0);
    assert_eq!(again.deleted_expenses + again.deleted_summaries, 0);
}

#[test]
fn sweep_through_the_clock_spares_the_present() {
    let mut db = till();
    settled_tab(&mut db, 1, 1, PaymentMethod::Cash, at(1, 0));
    let today = caffio::commands::dashboard::smart_today() as i32;
    settled_tab(&mut db, 2, 1, PaymentMethod::Cash, at(today, NOON));
    let counts = archive_old_data(&mut db).unwrap();
    assert_eq!(counts.deleted_orders, 1);
    assert_eq!(db.orders.len(), 1);
    assert_eq!(db.orders[0].id, "o2");
}

#[test]
fn day_cannot_be_closed_with_open_tabs() {
    let mut db = till();
    assert!(check_end_of_day(&db).can_proceed);
    settled_tab(&mut db, 1, 1, PaymentMethod::Cash, at(739_000, NOON));
    assert!(check_end_of_day(&db).can_proceed);
    create_order_with(&mut db, s("t2"), s("open"), at(739_000, NOON)).unwrap();
    add_order_item_with(&mut db, s("open"), s("cake"), 2, None, s("io"), at(739_000, NOON)).unwrap();
    let check = check_end_of_day(&db);
    assert!(!check.can_proceed);
    assert_eq!(check.open_tables.len(), 1);
    assert_eq!(check.open_tables[0].table_id, "t2");
    assert_eq!(check.open_tables[0].table_name, "T2");
    assert_eq!(check.open_tables[0].order_id, "open");
    assert_eq!(check.open_tables[0].total_amount, 30);
    // Nothing was closed by force.
    assert_eq!(db.orders[1].status, OrderStatus::Open);
}

fn entry(name: &str, modified: Option<u64>) -> BackupEntry {
    BackupEntry { name: s(name), modified }
}

#[test]
fn backup_names_are_recognised() {
    assert!(is_backup("backup_2024-01-01_10-00-00.db"));
    assert!(is_backup("backup_.db"));
    assert!(is_backup("backup_ö.db"));
    assert!(!is_backup("backup_2024.db.tmp"));
    assert!(!is_backup("backup_2024"));
    assert!(!is_backup("Backup_2024.db"));
    assert!(!is_backup("caffio.db"));
    assert!(!is_backup("backup.db"));
    assert!(!is_backup(""));
}

#[test]
fn rotation_evicts_the_oldest_over_the_limit() {
    let entries = vec![
        entry("backup_c.db", Some(300)),
        entry("notes.txt", Some(1)),
        entry("backup_a.db", Some(100)),
        entry("backup_e.db", Some(500)),
        entry("backup_b.db", Some(200)),
        entry("caffio.db", Some(2)),
        entry("backup_d.db", Some(400)),
    ];
    // Five backups, limit three: the two oldest go, oldest first.
    assert_eq!(rotation_victims(&entries, Some(3)), vec![2, 4]);
    assert_eq!(rotation_victims(&entries, Some(5)), Vec::<usize>::new());
    assert_eq!(rotation_victims(&entries, Some(9)), Vec::<usize>::new());
    assert_eq!(rotation_victims(&entries, Some(0)), vec![2, 4, 0, 6, 3]);
    assert_eq!(rotation_victims(&entries, None), Vec::<usize>::new());
}

#[test]
fn rotation_keeps_thirty_by_default() {
    let entries: Vec<BackupEntry> =
        (0..33u64).map(|n| entry(&format!("backup_{n}.db"), Some(1_000 - n))).collect();
    assert_eq!(rotation_victims(&entries, None), vec![32, 31, 30]);
    assert_eq!(rotation_victims(&entries, Some(30)), vec![32, 31, 30]);
}

#[test]
fn rotation_breaks_ties_by_position_and_puts_the_timeless_first() {
    let entries = vec![
        entry("backup_a.db", Some(5)),
        entry("backup_b.db", None),
        entry("backup_c.db", Some(5)),
        entry("backup_d.db", Some(0)),
        entry("backup_e.db", None),
    ];
    assert_eq!(rotation_victims(&entries, Some(0)), vec![1, 4, 3, 0, 2]);
    assert_eq!(rotation_victims(&entries, Some(2)), vec![1, 4, 3]);
    let latest = vec![entry("backup_z.db", Some(u64::MAX)), entry("backup_y.db", Some(u64::MAX - 1))];
    assert_eq!(rotation_victims(&latest, Some(1)), vec![1]);
}

#[test]
fn backup_outcomes_count_what_stays() {
    assert_eq!(
        backup_outcome(s("/data/backups/backup_x.db")),
        BackupResult {
            success: true,
            path: s("/data/backups/backup_x.db"),
            deleted_count: 0,
            total_backups: 1
        }
    );
    assert_eq!(
        rotation_outcome(s("p"), 33, 3),
        BackupResult { success: true, path: s("p"), deleted_count: 3, total_backups: 30 }
    );
}

#[test]
fn closing_runs_report_then_backup_then_compaction() {
    let mut db = till();
    settled_tab(&mut db, 1, 2, PaymentMethod::Cash, at(739_000, NOON));
    let (state, action) = execute_end_of_day_with(&mut db, Some(20), s("z1"), at(739_000, 80_000));
    assert_eq!(state, EndOfDayState::AwaitingBackup { z_report_id: s("z1") });
    assert!(matches!(action, EndOfDayAction::BackUp { max_backups: 30 }));
    assert_eq!(db.summaries.len(), 1);

    let (state, action) =
        end_of_day_next(state, EndOfDayEvent::BackupDone(rotation_outcome(s("b.db"), 31, 1)));
    assert_eq!(
        state,
        EndOfDayState::AwaitingVacuum { z_report_id: s("z1"), backup_path: s("b.db") }
    );
    assert!(matches!(action, EndOfDayAction::Vacuum));

    let (state, action) = end_of_day_next(state, EndOfDayEvent::VacuumDone);
    assert_eq!(state, EndOfDayState::Finished);
    match action {
        EndOfDayAction::Succeed(done) => {
            assert_eq!(done.z_report_id, Some(s("z1")));
            assert_eq!(done.backup_path, "b.db");
            assert!(done.vacuum_success);
        }
        other => panic!("unexpected {other:?}"),
    }
}

#[test]
fn closing_again_reuses_the_report() {
    let mut db = till();
    execute_end_of_day_with(&mut db, None, s("z1"), at(739_000, 80_000));
    let (state, _) = execute_end_of_day_with(&mut db, None, s("z2"), at(739_000, 81_000));
    assert_eq!(state, EndOfDayState::AwaitingBackup { z_report_id: s("z1") });
    assert_eq!(db.summaries.len(), 1);
}

#[test]
fn a_failed_step_stops_the_closing_and_keeps_the_report() {
    let mut db = till();
    let (state, _) = execute_end_of_day_with(&mut db, None, s("z1"), at(739_000, 80_000));
    let (state, action) = end_of_day_next(state, EndOfDayEvent::BackupFailed(s("disk full")));
    assert_eq!(state, EndOfDayState::Finished);
    match action {
        EndOfDayAction::Fail(e) => {
            assert_eq!(e.kind(), ErrorKind::Database);
            assert_eq!(e.message(), "Veritabanı hatası: disk full");
        }
        other => panic!("unexpected {other:?}"),
    }
    assert_eq!(db.summaries.len(), 1);

    let waiting = EndOfDayState::AwaitingVacuum { z_report_id: s("z1"), backup_path: s("b") };
    let (state, action) = end_of_day_next(waiting, EndOfDayEvent::VacuumFailed(s("locked")));
    assert_eq!(state, EndOfDayState::Finished);
    assert!(matches!(action, EndOfDayAction::Fail(_)));
}

#[test]
fn events_out_of_turn_stop_the_closing() {
    let steps = [
        (EndOfDayState::AwaitingBackup { z_report_id: s("z") }, EndOfDayEvent::VacuumDone),
        (
            EndOfDayState::AwaitingVacuum { z_report_id: s("z"), backup_path: s("b") },
            EndOfDayEvent::BackupFailed(s("x")),
        ),
        (EndOfDayState::Finished, EndOfDayEvent::VacuumDone),
    ];
    for (state, event) in steps {
        let (next, action) = end_of_day_next(state, event);
        assert_eq!(next, EndOfDayState::Finished);
        match action {
            EndOfDayAction::Fail(e) => {
                assert_eq!(e.kind(), ErrorKind::Validation);
                assert_eq!(e.message(), "Unexpected event");
            }
            other => panic!("unexpected {other:?}"),
        }
    }
}

#[test]
fn a_report_that_fails_stops_the_closing_at_once() {
    let mut db = till();
    expense(&mut db, 1, i32::MAX, at(739_000, NOON));
    expense(&mut db, 2, 1, at(739_000, NOON));
    let (state, action) = execute_end_of_day_with(&mut db, None, s("z1"), at(739_000, 80_000));
    assert_eq!(state, EndOfDayState::Finished);
    assert!(matches!(action, EndOfDayAction::Fail(_)));
}

#[test]
fn closing_through_the_clock_asks_for_the_backup() {
    let mut db = till();
    let (state, action) = execute_end_of_day(&mut db, None);
    match state {
        EndOfDayState::AwaitingBackup { z_report_id } => {
            assert_eq!(z_report_id, db.summaries[0].id)
        }
        other => panic!("unexpected {other:?}"),
    }
    assert!(matches!(action, EndOfDayAction::BackUp { max_backups: 30 }));
}

#[test]
fn set_up_creates_what_is_missing() {
    let mut db = init_database();
    create_table_with(&mut db, s("T3"), s("mine")).unwrap();
    let seeded = seed_database(&mut db).unwrap();
    assert_eq!(seeded.tables, 4);
    assert_eq!(seeded.categories, 3);
    assert_eq!(seeded.products, 0);
    let mut names: Vec<&str> = db.tables.iter().map(|t| t.name.as_str()).collect();
    names.sort();
    assert_eq!(names, vec!["T1", "T2", "T3", "T4", "T5"]);
    assert_eq!(db.tables[0].id, "mine");
    let cats: Vec<&str> = db.categories.iter().map(|c| c.name.as_str()).collect();
    assert_eq!(cats, vec!["Drinks", "Food", "Dessert"]);
    assert_eq!(db.categories[0].icon, Some(s("utensils")));
    let ids: Vec<String> = db.tables.iter().map(|t| t.id.clone()).collect();
    let again = seed_database(&mut db).unwrap();
    assert_eq!((again.tables, again.categories, again.products), (0, 0, 0));
    assert_eq!(db.tables.len(), 5);
    assert_eq!(db.categories.len(), 3);
    assert_eq!(db.tables.iter().map(|t| t.id.clone()).collect::<Vec<_>>(), ids);
    assert!(db.is_well_formed());
}

#[test]
fn set_up_steps_tell_what_they_did() {
    let mut db = init_database();
    assert_eq!(seed_table(&mut db, s("T1"), s("a")).unwrap(), true);
    assert_eq!(seed_table(&mut db, s("T1"), s("b")).unwrap(), false);
    assert_eq!(seed_table(&mut db, s("T2"), s("a")).unwrap_err().kind(), ErrorKind::Database);
    assert_eq!(seed_category(&mut db, s("Food"), s("a")).unwrap(), true);
    assert_eq!(seed_category(&mut db, s("Food"), s("b")).unwrap(), false);
    assert_eq!(seed_category(&mut db, s("Tea"), s("a")).unwrap_err().kind(), ErrorKind::Database);
    assert_eq!((db.tables.len(), db.categories.len()), (1, 1));
}

#[test]
fn system_check_counts_tables_and_live_products() {
    let mut db = till();
    let check = system_check(&db);
    assert!(check.db_connected);
    assert_eq!((check.table_count, check.product_count), (2, 2));
    delete_product(&mut db, s("cake")).unwrap();
    assert_eq!(system_check(&db).product_count, 1);
}

#[test]
fn export_counts_the_tabs() {
    let mut db = till();
    settled_tab(&mut db, 1, 1, PaymentMethod::Cash, at(739_000, NOON));
    let done = export_outcome(&db, s("/data/export.json"));
    assert_eq!(done.filepath, "/data/export.json");
    assert_eq!(done.count, 1);
}

#[test]
fn import_is_summed_up() {
    let steps = vec![
        ImportStep { table: s("Category"), outcome: Ok(4) },
        ImportStep { table: s("Product"), outcome: Ok(0) },
        ImportStep { table: s("\"Order\""), outcome: Err(s("no such table")) },
        ImportStep { table: s("Expense"), outcome: Ok(1) },
    ];
    let done = import_outcome(&steps);
    assert!(done.success);
    assert_eq!(done.tables_processed, 2);
    assert_eq!(done.message, "2 tablo işlem gördü.");
    assert_eq!(done.errors, vec![s("Error importing \"Order\": no such table")]);
    let nothing = import_outcome(&Vec::new());
    assert!(!nothing.success);
    assert_eq!(nothing.message, "0 tablo işlem gördü.");
    assert!(nothing.errors.is_empty());
    let twelve: Vec<ImportStep> =
        (0..12).map(|n| ImportStep { table: format!("t{n}"), outcome: Ok(1) }).collect();
    assert_eq!(import_outcome(&twelve).message, "12 tablo işlem gördü.");
}
