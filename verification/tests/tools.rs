use caffio::clock::{newest_first_rank, stamp_rank, Timestamp};
use caffio::db::init_database;
use caffio::entities::order;
use caffio::entities::order::OrderStatus;
use caffio::entities::order_item;
use caffio::entities::table;
use caffio::entities::transaction;
use caffio::entities::transaction::PaymentMethod;
use caffio::integrity::keys_are_unique;
use caffio::listing::{pick_positions, select_by_text, select_ranked};
use caffio::record::{collect_for, discard_for, discard_key, position, sum_for, Entry, Record};
use caffio::sorting::{rank, rank_texts};
use caffio::text::{comes_before, contains, decimal, ends_with, starts_with};

fn at(day: i32, second: u32) -> Timestamp {
    Timestamp { day, second }
}

fn s(text: &str) -> String {
    text.to_string()
}

fn line(id: &str, order: &str, quantity: i32, price: i32) -> order_item::Model {
    order_item::Model {
        id: s(id),
        order_id: s(order),
        product_id: s("pay"),
        quantity,
        unit_price: price,
        is_paid: false,
    }
}

#[test]
fn ranking_is_stable_and_complete() {
    assert_eq!(rank(&vec![]), Vec::<usize>::new());
    assert_eq!(rank(&vec![5, 1, 3, 1, 9, 0]), vec![5, 1, 3, 2, 0, 4]);
    assert_eq!(rank(&vec![7, 7, 7]), vec![0, 1, 2]);
    assert_eq!(rank(&vec![u128::MAX, 0]), vec![1, 0]);
    let texts: Vec<String> = ["b", "a", "", "ab", "B", "a"].iter().map(|t| s(t)).collect();
    assert_eq!(rank_texts(&texts), vec![2, 4, 1, 5, 3, 0]);
}

#[test]
fn texts_compare_as_in_a_dictionary() {
    assert!(comes_before("", ""));
    assert!(comes_before("", "a"));
    assert!(!comes_before("a", ""));
    assert!(comes_before("abc", "abc"));
    assert!(comes_before("abc", "abd"));
    assert!(!comes_before("abd", "abc"));
    assert!(comes_before("ab", "abc"));
    assert!(!comes_before("abc", "ab"));
    assert!(comes_before("Z", "a"));
    assert!(comes_before("z", "ç"));
    let mut words = vec!["pear", "Apple", "apple", "", "pea", "çay", "zebra"];
    let byte_order = {
        let mut sorted = words.clone();
        sorted.sort();
        sorted
    };
    words.sort_by(|a, b| {
        if a == b {
            std::cmp::Ordering::Equal
        } else if comes_before(a, b) {
            std::cmp::Ordering::Less
        } else {
            std::cmp::Ordering::Greater
        }
    });
    assert_eq!(words, byte_order);
}

#[test]
fn texts_are_searched_by_part() {
    assert!(starts_with("backup_1", "backup_"));
    assert!(starts_with("x", ""));
    assert!(!starts_with("back", "backup_"));
    assert!(!starts_with("xbackup_", "backup_"));
    assert!(ends_with("a.db", ".db"));
    assert!(ends_with(".db", ".db"));
    assert!(!ends_with("db", ".db"));
    assert!(!ends_with("a.dbx", ".db"));
    assert!(contains("Iced Tea", "Tea"));
    assert!(contains("Iced Tea", "Iced"));
    assert!(contains("Iced Tea", "d T"));
    assert!(contains("Iced Tea", ""));
    assert!(contains("", ""));
    assert!(!contains("Iced Tea", "tea"));
    assert!(!contains("Tea", "Teas"));
    assert!(contains("çay bahçesi", "bahçe"));
}

#[test]
fn numbers_are_written_in_decimal() {
    assert_eq!(decimal(0), "0");
    assert_eq!(decimal(7), "7");
    assert_eq!(decimal(10), "10");
    assert_eq!(decimal(1_234_567_890), "1234567890");
    assert_eq!(decimal(u64::MAX), u64::MAX.to_string());
    for n in (0..2_000u64).chain([9_999, 10_000, 99_999, 100_000, 1 << 40]) {
        assert_eq!(decimal(n), n.to_string());
    }
}

#[test]
fn instants_rank_by_day_then_second() {
    let early = at(739_000, 86_399);
    let late = at(739_001, 0);
    assert!(stamp_rank(early) < stamp_rank(late));
    assert!(newest_first_rank(late) < newest_first_rank(early));
    assert!(stamp_rank(at(-5, 10)) < stamp_rank(at(-5, 11)));
    assert!(stamp_rank(at(i32::MIN, 0)) < stamp_rank(at(i32::MIN, 1)));
    assert!(stamp_rank(at(i32::MIN, u32::MAX)) < stamp_rank(at(i32::MIN + 1, 0)));
    assert_eq!(stamp_rank(at(i32::MIN, 0)), 0);
    assert_eq!(stamp_rank(at(0, 7)), (1u128 << 31) * (1u128 << 32) + 7);
    assert_eq!(newest_first_rank(at(i32::MAX, u32::MAX)), 0);
}

#[test]
fn picked_positions_are_ranked_by_their_keys() {
    let marks = vec![true, false, true, true, false, true];
    assert_eq!(pick_positions(&marks), vec![0, 2, 3, 5]);
    let keys = vec![9, 0, 4, 9, 1, 4];
    assert_eq!(select_ranked(&marks, &keys), vec![2, 5, 0, 3]);
    let texts: Vec<String> = ["d", "a", "c", "d", "b", ""].iter().map(|t| s(t)).collect();
    assert_eq!(select_by_text(&marks, &texts), vec![5, 2, 0, 3]);
    assert!(select_ranked(&vec![false, false], &vec![1, 2]).is_empty());
}

#[test]
fn sums_go_by_owner() {
    let lines = vec![
        line("1", "a", 2, 10),
        line("2", "b", 1, 7),
        line("3", "a", 3, 5),
        line("4", "a", i32::MAX, i32::MAX),
        line("5", "c", i32::MIN, i32::MIN),
        line("6", "d", i32::MIN, i32::MAX),
    ];
    assert_eq!(sum_for(&lines, &s("b")), 7);
    assert_eq!(sum_for(&lines, &s("a")), 35 + (i32::MAX as i128) * (i32::MAX as i128));
    assert_eq!(sum_for(&lines, &s("c")), 1i128 << 62);
    assert_eq!(sum_for(&lines, &s("d")), (i32::MIN as i128) * (i32::MAX as i128));
    assert_eq!(sum_for(&lines, &s("zz")), 0);
    assert_eq!(lines[0].amount(), 20);
    assert_eq!(lines[0].owner_id(), "a");
    assert_eq!(lines[0].id(), "1");
    let payment = transaction::Model {
        id: s("pay"),
        order_id: s("a"),
        amount: 12,
        payment_method: PaymentMethod::Card,
        created_at: at(1, 1),
    };
    assert_eq!(payment.amount(), 12);
    assert_eq!(payment.duplicate(), payment);
}

#[test]
fn records_are_found_and_dropped_by_key_and_owner() {
    let lines = vec![line("1", "a", 1, 1), line("2", "b", 1, 1), line("3", "a", 1, 1)];
    assert_eq!(position(&lines, &s("2")), Some(1));
    assert_eq!(position(&lines, &s("9")), None);
    let ids = |v: Vec<order_item::Model>| v.iter().map(|l| l.id.clone()).collect::<Vec<_>>();
    assert_eq!(ids(collect_for(&lines, &s("a"))), vec!["1", "3"]);
    assert_eq!(ids(discard_for(&lines, &s("a"))), vec!["2"]);
    assert_eq!(ids(discard_key(&lines, &s("1"))), vec!["2", "3"]);
    assert!(keys_are_unique(&lines));
    let mut twice = lines.clone();
    twice.push(line("1", "c", 1, 1));
    assert!(!keys_are_unique(&twice));
}

fn tab(id: &str, table: &str, status: OrderStatus, total: i32) -> order::Model {
    order::Model {
        id: s(id),
        table_id: s(table),
        status,
        total_amount: total,
        is_locked: false,
        created_at: at(739_000, 0),
        updated_at: at(739_000, 0),
    }
}

#[test]
fn records_from_outside_are_checked() {
    let sound = || {
        let mut db = init_database();
        db.tables.push(table::Model { id: s("t1"), name: s("T1") });
        db.tables.push(table::Model { id: s("t2"), name: s("T2") });
        db.orders.push(tab("o1", "t1", OrderStatus::Open, 20));
        db.orders.push(tab("o2", "t1", OrderStatus::Closed, 5));
        db.items.push(line("i1", "o1", 2, 10));
        db.items.push(order_item::Model { is_paid: true, ..line("i2", "o2", 1, 5) });
        db.transactions.push(transaction::Model {
            id: s("pay1"),
            order_id: s("o2"),
            amount: 5,
            payment_method: PaymentMethod::Cash,
            created_at: at(739_000, 0),
        });
        db
    };
    assert!(sound().is_well_formed());

    let mut wrong_total = sound();
    wrong_total.orders[0].total_amount = 21;
    assert!(!wrong_total.is_well_formed());

    let mut two_open = sound();
    two_open.orders[1].status = OrderStatus::Open;
    assert!(!two_open.is_well_formed());

    let mut closed_unpaid = sound();
    closed_unpaid.items[1].is_paid = false;
    assert!(!closed_unpaid.is_well_formed());

    let mut orphan_line = sound();
    orphan_line.items.push(line("i3", "gone", 1, 1));
    assert!(!orphan_line.is_well_formed());

    let mut orphan_payment = sound();
    orphan_payment.transactions[0].order_id = s("gone");
    assert!(!orphan_payment.is_well_formed());

    let mut no_table = sound();
    no_table.orders[0].table_id = s("t9");
    assert!(!no_table.is_well_formed());

    let mut same_key = sound();
    same_key.orders[1].id = s("o1");
    assert!(!same_key.is_well_formed());

    let mut same_name = sound();
    same_name.tables[1].name = s("T1");
    assert!(!same_name.is_well_formed());

    let mut no_units = sound();
    no_units.items[0].quantity = 0;
    no_units.orders[0].total_amount = 0;
    assert!(!no_units.is_well_formed());

    let mut no_money = sound();
    no_money.transactions[0].amount = 0;
    assert!(!no_money.is_well_formed());

    let mut two_summaries = sound();
    for id in ["z1", "z2"] {
        two_summaries.summaries.push(caffio::entities::daily_summary::Model {
            id: s(id),
            date: 739_000,
            total_cash: 0,
            actual_cash: None,
            total_card: 0,
            total_expenses: 0,
            net_profit: 0,
            cancel_count: 0,
            total_vat: 0,
            order_count: 0,
            total_revenue: 0,
            created_at: at(739_000, 0),
        });
    }
    assert!(!two_summaries.is_well_formed());
}
