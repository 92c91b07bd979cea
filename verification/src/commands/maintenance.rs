//! The end of the day: what must be settled first, what is swept out, and
//! the order in which the closing steps run.

use crate::clock::SECONDS_PER_DAY;
use crate::clock::Timestamp;
use crate::clock::cutoff_date;
use crate::clock::local_now;
use crate::commands::categories::CategoryResponse;
use crate::commands::categories::category_created;
use crate::commands::categories::create_category_with;
use crate::commands::categories::default_icon;
use crate::commands::reports::DailySummaryResponse;
use crate::commands::reports::generate_zreport_with;
use crate::commands::reports::report_made;
use crate::commands::tables::create_table_with;
use crate::commands::tables::name_position;
use crate::db::Database;
use crate::db::Records;
use crate::db::has_name;
use crate::db::lemma_filter_days;
use crate::db::lemma_orders_dropped;
use crate::db::without_orders;
use crate::entities::category;
use crate::entities::daily_summary;
use crate::entities::expense;
use crate::entities::order::OrderStatus;
use crate::entities::order;
use crate::entities::order_item;
use crate::entities::product;
use crate::entities::table;
use crate::entities::transaction;
use crate::error::AppError;
use crate::error::ErrorKind;
use crate::error::refused;
use crate::ident::random_id;
use crate::ident::time_ordered_id;
use crate::record::Entry;
use crate::record::Record;
use crate::record::attached;
use crate::record::has_key;
use crate::record::key_stays;
use crate::record::lemma_filter_keeps;
use crate::record::lemma_filter_source;
use crate::record::lemma_filter_step;
use crate::record::lemma_filter_unique;
use crate::record::lemma_unique_index;
use crate::record::owner_stays;
use crate::record::position;
use crate::record::record_of;
use crate::sorting::is_ranking;
use crate::sorting::precedes;
use crate::sorting::rank;
use crate::tally::count_where;
use crate::tally::lemma_sum_step;
use crate::tally::unit;
use crate::text::decimal;
use crate::text::decimal_text;
use crate::text::ends_with;
use crate::text::has_prefix;
use crate::text::has_suffix;
use crate::text::starts_with;
use vstd::prelude::*;

verus! {

/// Days after which closed tabs and expenses are swept out.
pub const ORDER_RETENTION_DAYS: u32 = 90;

/// Days after which daily summaries are swept out.
pub const SUMMARY_RETENTION_DAYS: u32 = 365;

/// How many records a sweep removed, by kind.
#[derive(Debug, PartialEq, Eq)]
pub struct ArchiveResult {
    pub deleted_orders: usize,
    pub deleted_items: usize,
    pub deleted_transactions: usize,
    pub deleted_expenses: usize,
    pub deleted_summaries: usize,
}

impl ArchiveResult {
    /// Whether these are the numbers of records of `pre` that `post` no
    /// longer has.
    pub open spec fn tells(&self, pre: Records, post: Records) -> bool {
        &&& self.deleted_orders == pre.orders.len() - post.orders.len()
        &&& self.deleted_items == pre.items.len() - post.items.len()
        &&& self.deleted_transactions == pre.transactions.len() - post.transactions.len()
        &&& self.deleted_expenses == pre.expenses.len() - post.expenses.len()
        &&& self.deleted_summaries == pre.summaries.len() - post.summaries.len()
    }
}

/// Whether the tab `order` is swept out at the cutoff day `cutoff`: it is
/// closed and was created before that day.
pub open spec fn is_stale(order: order::Model, cutoff: int) -> bool {
    order.status == OrderStatus::Closed && order.created_at.day < cutoff
}

/// The test for the keys of the tabs that are swept out at `cutoff`.
pub open spec fn stale_keys(orders: Seq<order::Model>, cutoff: int) -> spec_fn(Seq<char>) -> bool {
    |key: Seq<char>| has_key(orders, key) && is_stale(record_of(orders, key), cutoff)
}

/// The test for the expenses that stay at the cutoff day `cutoff`.
pub open spec fn expense_stays(cutoff: int) -> spec_fn(expense::Model) -> bool {
    |e: expense::Model| e.created_at.day >= cutoff
}

/// The test for the summaries that stay at the cutoff day `cutoff`.
pub open spec fn summary_stays(cutoff: int) -> spec_fn(daily_summary::Model) -> bool {
    |s: daily_summary::Model| s.date >= cutoff
}

/// The records after the sweep at the instant `now`: closed tabs created
/// more than 90 days back are gone with their lines and payments, expenses
/// made more than 90 days back are gone, and summaries of days more than
/// 365 days back are gone. Everything else stays as it is.
pub open spec fn archived_records(pre: Records, now: Timestamp) -> Records {
    let swept = without_orders(
        pre,
        stale_keys(pre.orders, now.days_back(ORDER_RETENTION_DAYS as int)),
    );
    Records {
        expenses: pre.expenses.filter(expense_stays(now.days_back(ORDER_RETENTION_DAYS as int))),
        summaries: pre.summaries.filter(
            summary_stays(now.days_back(SUMMARY_RETENTION_DAYS as int)),
        ),
        ..swept
    }
}

/// The sweep keeps the records well-formed and spares every tab that is
/// open or was created on or after the cutoff day. Of a tab that it takes
/// it takes every line and every payment, so that none is left behind
/// without its tab, and of a tab that stays every line and payment stays.
pub proof fn lemma_archive_spares(pre: Records, now: Timestamp)
    requires
        pre.wf(),
    ensures
        archived_records(pre, now).wf(),
        forall|i: int|
            0 <= i < pre.orders.len() && !is_stale(
                #[trigger] pre.orders[i],
                now.days_back(ORDER_RETENTION_DAYS as int),
            ) ==> archived_records(pre, now).orders.contains(pre.orders[i]),
        forall|i: int|
            0 <= i < archived_records(pre, now).orders.len() ==> !is_stale(
                #[trigger] archived_records(pre, now).orders[i],
                now.days_back(ORDER_RETENTION_DAYS as int),
            ) && pre.orders.contains(archived_records(pre, now).orders[i]),
        attached(archived_records(pre, now).items, archived_records(pre, now).orders),
        attached(archived_records(pre, now).transactions, archived_records(pre, now).orders),
        forall|k: int|
            0 <= k < archived_records(pre, now).items.len() ==> !stale_keys(
                pre.orders,
                now.days_back(ORDER_RETENTION_DAYS as int),
            )((#[trigger] archived_records(pre, now).items[k]).owner()),
        forall|k: int|
            0 <= k < archived_records(pre, now).transactions.len() ==> !stale_keys(
                pre.orders,
                now.days_back(ORDER_RETENTION_DAYS as int),
            )((#[trigger] archived_records(pre, now).transactions[k]).owner()),
        forall|k: int|
            0 <= k < pre.items.len() && has_key(
                archived_records(pre, now).orders,
                (#[trigger] pre.items[k]).owner(),
            ) ==> archived_records(pre, now).items.contains(pre.items[k]),
        forall|k: int|
            0 <= k < pre.transactions.len() && has_key(
                archived_records(pre, now).orders,
                (#[trigger] pre.transactions[k]).owner(),
            ) ==> archived_records(pre, now).transactions.contains(pre.transactions[k]),
{
    let cutoff = now.days_back(ORDER_RETENTION_DAYS as int);
    let gone = stale_keys(pre.orders, cutoff);
    let post = archived_records(pre, now);
    lemma_orders_dropped(pre, gone);
    lemma_filter_unique(pre.expenses, expense_stays(cutoff));
    lemma_filter_unique(
        pre.summaries,
        summary_stays(now.days_back(SUMMARY_RETENTION_DAYS as int)),
    );
    lemma_filter_days(pre.summaries, summary_stays(now.days_back(SUMMARY_RETENTION_DAYS as int)));
    assert forall|i: int|
        0 <= i < pre.orders.len() && !is_stale(#[trigger] pre.orders[i], cutoff) implies post.orders.contains(
        pre.orders[i],
    ) by {
        lemma_unique_index(pre.orders, i);
        lemma_filter_keeps(pre.orders, key_stays(gone), i);
    }
    assert forall|i: int| 0 <= i < post.orders.len() implies !is_stale(
        #[trigger] post.orders[i],
        cutoff,
    ) && pre.orders.contains(post.orders[i]) by {
        lemma_filter_source(pre.orders, key_stays(gone), i);
        let j = choose|j: int| 0 <= j < pre.orders.len() && #[trigger] pre.orders[j] == post.orders[i];
        lemma_unique_index(pre.orders, j);
    }
    assert forall|k: int| 0 <= k < post.items.len() implies !gone(
        (#[trigger] post.items[k]).owner(),
    ) by {
        lemma_filter_source(pre.items, owner_stays(gone), k);
    }
    assert forall|k: int| 0 <= k < post.transactions.len() implies !gone(
        (#[trigger] post.transactions[k]).owner(),
    ) by {
        lemma_filter_source(pre.transactions, owner_stays(gone), k);
    }
    assert forall|k: int|
        0 <= k < pre.items.len() && has_key(
            post.orders,
            (#[trigger] pre.items[k]).owner(),
        ) implies post.items.contains(pre.items[k]) by {
        let i = choose|i: int|
            0 <= i < post.orders.len() && (#[trigger] post.orders[i]).key() == pre.items[k].owner();
        lemma_filter_source(pre.orders, key_stays(gone), i);
        lemma_filter_keeps(pre.items, owner_stays(gone), k);
    }
    assert forall|k: int|
        0 <= k < pre.transactions.len() && has_key(
            post.orders,
            (#[trigger] pre.transactions[k]).owner(),
        ) implies post.transactions.contains(pre.transactions[k]) by {
        let i = choose|i: int|
            0 <= i < post.orders.len() && (#[trigger] post.orders[i]).key()
                == pre.transactions[k].owner();
        lemma_filter_source(pre.orders, key_stays(gone), i);
        lemma_filter_keeps(pre.transactions, owner_stays(gone), k);
    }
}

/// Whether the tab with the key `owner` is swept out at `cutoff`.
fn owner_is_stale(orders: &Vec<order::Model>, owner: &String, cutoff: i64) -> (stale: bool)
    ensures
        stale == stale_keys(orders@, cutoff as int)(owner@),
{
    match position(orders, owner) {
        Some(at) => orders[at].status == OrderStatus::Closed && (orders[at].created_at.day as i64)
            < cutoff,
        None => false,
    }
}

/// Sweeps out what is past its retention at the instant `now` and counts
/// what was removed.
pub fn archive_old_data_with(db: &mut Database, now: Timestamp) -> (out: Result<
    ArchiveResult,
    AppError,
>)
    requires
        old(db).wf(),
    ensures
        final(db).wf(),
        final(db)@ == archived_records(old(db)@, now),
        out matches Ok(counts) && counts.tells(old(db)@, final(db)@),
{
    let cutoff = cutoff_date(now, ORDER_RETENTION_DAYS);
    let summary_cutoff = cutoff_date(now, SUMMARY_RETENTION_DAYS);
    let ghost pre = db@;
    let ghost gone = stale_keys(pre.orders, cutoff as int);
    proof {
        lemma_archive_spares(pre, now);
        reveal(Seq::filter);
    }

    let mut items: Vec<order_item::Model> = Vec::new();
    let mut i: usize = 0;
    while i < db.items.len()
        invariant
            i <= db.items.len(),
            db@ == pre,
            gone == stale_keys(pre.orders, cutoff as int),
            items@ == pre.items.take(i as int).filter(owner_stays(gone)),
            items@.len() <= i,
        decreases db.items.len() - i,
    {
        proof {
            lemma_filter_step(pre.items, i as int, owner_stays(gone));
        }
        if !owner_is_stale(&db.orders, &db.items[i].order_id, cutoff) {
            items.push(db.items[i].clone());
        }
        i += 1;
    }
    let mut payments: Vec<transaction::Model> = Vec::new();
    let mut i: usize = 0;
    while i < db.transactions.len()
        invariant
            i <= db.transactions.len(),
            db@ == pre,
            gone == stale_keys(pre.orders, cutoff as int),
            payments@ == pre.transactions.take(i as int).filter(owner_stays(gone)),
            payments@.len() <= i,
        decreases db.transactions.len() - i,
    {
        proof {
            lemma_filter_step(pre.transactions, i as int, owner_stays(gone));
        }
        if !owner_is_stale(&db.orders, &db.transactions[i].order_id, cutoff) {
            payments.push(db.transactions[i].clone());
        }
        i += 1;
    }
    let mut orders: Vec<order::Model> = Vec::new();
    let mut i: usize = 0;
    while i < db.orders.len()
        invariant
            i <= db.orders.len(),
            db@ == pre,
            pre.wf(),
            gone == stale_keys(pre.orders, cutoff as int),
            orders@ == pre.orders.take(i as int).filter(key_stays(gone)),
            orders@.len() <= i,
        decreases db.orders.len() - i,
    {
        proof {
            lemma_filter_step(pre.orders, i as int, key_stays(gone));
            lemma_unique_index(pre.orders, i as int);
        }
        if !(db.orders[i].status == OrderStatus::Closed && (db.orders[i].created_at.day as i64)
            < cutoff) {
            orders.push(db.orders[i].clone());
        }
        i += 1;
    }
    let mut expenses: Vec<expense::Model> = Vec::new();
    let mut i: usize = 0;
    while i < db.expenses.len()
        invariant
            i <= db.expenses.len(),
            db@ == pre,
            expenses@ == pre.expenses.take(i as int).filter(expense_stays(cutoff as int)),
            expenses@.len() <= i,
        decreases db.expenses.len() - i,
    {
        proof {
            lemma_filter_step(pre.expenses, i as int, expense_stays(cutoff as int));
        }
        if (db.expenses[i].created_at.day as i64) >= cutoff {
            expenses.push(db.expenses[i].clone());
        }
        i += 1;
    }
    let mut summaries: Vec<daily_summary::Model> = Vec::new();
    let mut i: usize = 0;
    while i < db.summaries.len()
        invariant
            i <= db.summaries.len(),
            db@ == pre,
            summaries@ == pre.summaries.take(i as int).filter(summary_stays(summary_cutoff as int)),
            summaries@.len() <= i,
        decreases db.summaries.len() - i,
    {
        proof {
            lemma_filter_step(pre.summaries, i as int, summary_stays(summary_cutoff as int));
        }
        if db.summaries[i].date >= summary_cutoff {
            summaries.push(db.summaries[i].clone());
        }
        i += 1;
    }
    proof {
        assert(pre.items.take(pre.items.len() as int) =~= pre.items);
        assert(pre.transactions.take(pre.transactions.len() as int) =~= pre.transactions);
        assert(pre.orders.take(pre.orders.len() as int) =~= pre.orders);
        assert(pre.expenses.take(pre.expenses.len() as int) =~= pre.expenses);
        assert(pre.summaries.take(pre.summaries.len() as int) =~= pre.summaries);
    }
    let counts = ArchiveResult {
        deleted_orders: db.orders.len() - orders.len(),
        deleted_items: db.items.len() - items.len(),
        deleted_transactions: db.transactions.len() - payments.len(),
        deleted_expenses: db.expenses.len() - expenses.len(),
        deleted_summaries: db.summaries.len() - summaries.len(),
    };
    db.items = items;
    db.transactions = payments;
    db.orders = orders;
    db.expenses = expenses;
    db.summaries = summaries;
    Ok(counts)
}

/// Sweeps out what is past its retention at the instant read from the
/// clock; whatever that instant is, the outcome is that of
/// `archive_old_data_with` for it.
pub fn archive_old_data(db: &mut Database) -> (out: Result<ArchiveResult, AppError>)
    requires
        old(db).wf(),
    ensures
        final(db).wf(),
        out matches Ok(counts) && counts.tells(old(db)@, final(db)@),
        exists|now: Timestamp|
            now.second < SECONDS_PER_DAY && final(db)@ == archived_records(old(db)@, now),
{
    let now = local_now();
    archive_old_data_with(db, now)
}

/// A table that still has an open tab.
#[derive(Debug, PartialEq, Eq)]
pub struct OpenTableInfo {
    pub table_id: String,
    pub table_name: String,
    pub order_id: String,
    pub total_amount: i32,
}

/// Whether the day can be closed, and the tables that stand in the way.
#[derive(Debug, PartialEq, Eq)]
pub struct EndOfDayCheckResult {
    pub can_proceed: bool,
    pub open_tables: Vec<OpenTableInfo>,
}

/// The test for the open tabs whose table is known.
pub open spec fn is_unsettled(tables: Seq<table::Model>) -> spec_fn(order::Model) -> bool {
    |order: order::Model| order.status == OrderStatus::Open && has_key(tables, order.table_id@)
}

/// An open tab as listed before closing, with its table's name.
pub open spec fn open_info(tables: Seq<table::Model>) -> spec_fn(order::Model) -> OpenTableInfo {
    |order: order::Model|
        OpenTableInfo {
            table_id: order.table_id,
            table_name: record_of(tables, order.table_id@).name,
            order_id: order.id,
            total_amount: order.total_amount,
        }
}

/// The open tabs with their tables, in the order the tabs are kept.
pub open spec fn open_tables(orders: Seq<order::Model>, tables: Seq<table::Model>) -> Seq<
    OpenTableInfo,
> {
    orders.filter(is_unsettled(tables)).map_values(open_info(tables))
}

/// Whether no tab is open.
pub open spec fn all_settled(orders: Seq<order::Model>) -> bool {
    forall|i: int| 0 <= i < orders.len() ==> (#[trigger] orders[i]).status != OrderStatus::Open
}

/// Lists the tables that still have an open tab. The day can be closed
/// when there is none; nothing is closed by force.
pub fn check_end_of_day(db: &Database) -> (check: EndOfDayCheckResult)
    ensures
        check.open_tables@ == open_tables(db@.orders, db@.tables),
        check.can_proceed == (check.open_tables@.len() == 0),
        db.wf() ==> (check.can_proceed <==> all_settled(db@.orders)),
{
    let mut open: Vec<OpenTableInfo> = Vec::new();
    let mut i: usize = 0;
    proof {
        reveal(Seq::filter);
        assert(db@.orders.take(0).filter(is_unsettled(db@.tables)).map_values(
            open_info(db@.tables),
        ) =~= Seq::<OpenTableInfo>::empty());
    }
    while i < db.orders.len()
        invariant
            i <= db.orders.len(),
            open@ == open_tables(db@.orders.take(i as int), db@.tables),
        decreases db.orders.len() - i,
    {
        let ghost kept = db@.orders.take(i as int).filter(is_unsettled(db@.tables));
        proof {
            lemma_filter_step(db@.orders, i as int, is_unsettled(db@.tables));
        }
        let order = &db.orders[i];
        if order.status == OrderStatus::Open {
            if let Some(t) = position(&db.tables, &order.table_id) {
                open.push(
                    OpenTableInfo {
                        table_id: order.table_id.clone(),
                        table_name: db.tables[t].name.clone(),
                        order_id: order.id.clone(),
                        total_amount: order.total_amount,
                    },
                );
                proof {
                    assert(kept.push(db@.orders[i as int]).map_values(open_info(db@.tables))
                        =~= kept.map_values(open_info(db@.tables)).push(
                        open_info(db@.tables)(db@.orders[i as int]),
                    ));
                }
            }
        }
        i += 1;
    }
    proof {
        assert(db@.orders.take(db.orders.len() as int) =~= db@.orders);
        if db.wf() {
            let listed = db@.orders.filter(is_unsettled(db@.tables));
            if listed.len() == 0 {
                assert forall|j: int| 0 <= j < db@.orders.len() implies (
                #[trigger] db@.orders[j]).status != OrderStatus::Open by {
                    if db@.orders[j].status == OrderStatus::Open {
                        assert(has_key(db@.tables, db@.orders[j].table_id@));
                        lemma_filter_keeps(db@.orders, is_unsettled(db@.tables), j);
                    }
                }
            } else {
                lemma_filter_source(db@.orders, is_unsettled(db@.tables), 0);
            }
        }
    }
    EndOfDayCheckResult { can_proceed: open.len() == 0, open_tables: open }
}

/// One file found where the backups are kept.
#[derive(Debug, PartialEq, Eq)]
pub struct BackupEntry {
    pub name: String,
    /// When the file was last written, in nanoseconds since 1970, where
    /// the file system tells.
    pub modified: Option<u64>,
}

/// How a backup went.
#[derive(Debug, PartialEq, Eq)]
pub struct BackupResult {
    pub success: bool,
    pub path: String,
    pub deleted_count: usize,
    pub total_backups: usize,
}

/// Backups kept when the caller names no limit.
pub const DEFAULT_MAX_BACKUPS: usize = 30;

/// Whether `name` is the name of a backup file: it begins with `backup_`
/// and its extension is `db`.
pub open spec fn is_backup_name(name: Seq<char>) -> bool {
    has_prefix(name, "backup_"@) && has_suffix(name, ".db"@)
}

/// The test for the entries that are backups.
pub open spec fn is_backup_entry() -> spec_fn(BackupEntry) -> bool {
    |e: BackupEntry| is_backup_name(e.name@)
}

/// Whether `name` is the name of a backup file.
pub fn is_backup(name: &str) -> (backup: bool)
    ensures
        backup == is_backup_name(name@),
{
    starts_with(name, "backup_") && ends_with(name, ".db")
}

/// The age rank of an entry: entries without a time come first, then the
/// others from the earliest time on.
pub open spec fn age(e: BackupEntry) -> u128 {
    match e.modified {
        None => 0,
        Some(t) => (t + 1) as u128,
    }
}

/// Whether the entry at `a` is evicted before the entry at `b`: the one
/// written earlier, and of two written at the same time the one listed
/// first.
pub open spec fn older(entries: Seq<BackupEntry>, a: int, b: int) -> bool {
    age(entries[a]) < age(entries[b]) || (age(entries[a]) == age(entries[b]) && a < b)
}

/// How many backups are over the limit `max`.
pub open spec fn excess(entries: Seq<BackupEntry>, max: int) -> int {
    if count_where(entries, is_backup_entry()) > max {
        count_where(entries, is_backup_entry()) - max
    } else {
        0
    }
}

/// The limit that `max_backups` stands for.
pub open spec fn limit_of(max_backups: Option<usize>) -> int {
    match max_backups {
        Some(max) => max as int,
        None => DEFAULT_MAX_BACKUPS as int,
    }
}

/// Whether `victims` are the positions of the backups to evict under the
/// limit `max`, in the order of eviction: as many backups as are over the
/// limit, each one older than those evicted after it and than every
/// backup that stays.
pub open spec fn is_rotation(entries: Seq<BackupEntry>, max: int, victims: Seq<usize>) -> bool {
    &&& victims.len() == excess(entries, max)
    &&& forall|v: int|
        0 <= v < victims.len() ==> (#[trigger] victims[v]) < entries.len() && is_backup_name(
            entries[victims[v] as int].name@,
        )
    &&& forall|a: int, b: int|
        0 <= a < b < victims.len() ==> older(
            entries,
            #[trigger] victims[a] as int,
            #[trigger] victims[b] as int,
        )
    &&& forall|v: int, s: int|
        0 <= v < victims.len() && 0 <= s < entries.len() && is_backup_name(
            (#[trigger] entries[s]).name@,
        ) && !victims.contains(s as usize) ==> older(entries, #[trigger] victims[v] as int, s)
}

/// Picks the backups to evict so that at most `max_backups` stay, 30 where
/// no limit is named: the oldest by modification time go first. Files that
/// are not backups are never picked.
pub fn rotation_victims(entries: &Vec<BackupEntry>, max_backups: Option<usize>) -> (victims: Vec<
    usize,
>)
    ensures
        is_rotation(entries@, limit_of(max_backups), victims@),
{
    let max = match max_backups {
        Some(max) => max,
        None => DEFAULT_MAX_BACKUPS,
    };
    let mut found: Vec<usize> = Vec::new();
    let mut keys: Vec<u128> = Vec::new();
    let mut i: usize = 0;
    while i < entries.len()
        invariant
            i <= entries.len(),
            found.len() == keys.len(),
            found.len() == count_where(entries@.take(i as int), is_backup_entry()),
            forall|c: int|
                0 <= c < found.len() ==> (#[trigger] found[c]) < i && is_backup_name(
                    entries[found[c] as int].name@,
                ) && keys[c] == age(entries[found[c] as int]),
            forall|c: int, d: int| 0 <= c < d < found.len() ==> (#[trigger] found[c]) < (
            #[trigger] found[d]),
            forall|s: int|
                0 <= s < i && is_backup_name((#[trigger] entries[s]).name@) ==> found@.contains(
                    s as usize,
                ),
        decreases entries.len() - i,
    {
        proof {
            lemma_sum_step(entries@, i as int, is_backup_entry(), unit());
        }
        if is_backup(entries[i].name.as_str()) {
            let key: u128 = match entries[i].modified {
                Some(t) => t as u128 + 1,
                None => 0,
            };
            let ghost before = found@;
            found.push(i);
            keys.push(key);
            proof {
                assert forall|s: int|
                    0 <= s < i + 1 && is_backup_name(
                        (#[trigger] entries[s]).name@,
                    ) implies found@.contains(s as usize) by {
                    if s < i {
                        assert(before.contains(s as usize));
                        let c = choose|c: int| 0 <= c < before.len() && before[c] == s as usize;
                        assert(found@[c] == s as usize);
                    } else {
                        assert(found@[before.len() as int] == s as usize);
                    }
                }
            }
        }
        i += 1;
    }
    proof {
        assert(entries@.take(entries.len() as int) =~= entries@);
    }
    let order = rank(&keys);
    let total = found.len();
    let mut victims: Vec<usize> = Vec::new();
    if total > max {
        let doomed = total - max;
        let mut v: usize = 0;
        while v < doomed
            invariant
                v <= doomed,
                doomed <= total,
                total == found.len(),
                is_ranking(keys@, order@),
                found.len() == keys.len(),
                victims.len() == v,
                forall|c: int| 0 <= c < found.len() ==> (#[trigger] found[c]) < entries.len(),
                forall|x: int| 0 <= x < v ==> #[trigger] victims[x] == found[order[x] as int],
            decreases doomed - v,
        {
            victims.push(found[order[v]]);
            v += 1;
        }
        proof {
            let e = entries@;
            assert forall|a: int, b: int| 0 <= a < b < victims.len() implies older(
                e,
                #[trigger] victims[a] as int,
                #[trigger] victims[b] as int,
            ) by {
                assert(precedes(keys@, order[a] as int, order[b] as int));
                if order[a] < order[b] {
                    assert(found[order[a] as int] < found[order[b] as int]);
                } else if order[b] < order[a] {
                    assert(found[order[b] as int] < found[order[a] as int]);
                }
            }
            assert forall|x: int, s: int|
                0 <= x < victims.len() && 0 <= s < e.len() && is_backup_name(
                    (#[trigger] e[s]).name@,
                ) && !victims@.contains(s as usize) implies older(
                e,
                #[trigger] victims[x] as int,
                s,
            ) by {
                assert(found@.contains(s as usize));
                let c = choose|c: int| 0 <= c < found.len() && found[c] == s as usize;
                assert(order@.contains(c as usize));
                let j = choose|j: int| 0 <= j < order.len() && order[j] == c as usize;
                if j < doomed {
                    assert(victims[j] == s as usize);
                }
                assert(precedes(keys@, order[x] as int, order[j] as int));
                if order[x] < order[j] {
                    assert(found[order[x] as int] < found[order[j] as int]);
                } else if order[j] < order[x] {
                    assert(found[order[j] as int] < found[order[x] as int]);
                }
            }
        }
    }
    victims
}

/// The outcome of a backup that was written to `path`, before any
/// rotation.
pub fn backup_outcome(path: String) -> (done: BackupResult)
    ensures
        done == (BackupResult { success: true, path, deleted_count: 0, total_backups: 1 }),
{
    BackupResult { success: true, path, deleted_count: 0, total_backups: 1 }
}

/// The outcome of a backup written to `path` after which `deleted` of the
/// `total` backups found were evicted.
pub fn rotation_outcome(path: String, total: usize, deleted: usize) -> (done: BackupResult)
    requires
        deleted <= total,
    ensures
        done == (BackupResult {
            success: true,
            path,
            deleted_count: deleted,
            total_backups: (total - deleted) as usize,
        }),
{
    BackupResult { success: true, path, deleted_count: deleted, total_backups: total - deleted }
}

/// What a completed closing procedure reports.
#[derive(Debug, PartialEq, Eq)]
pub struct EndOfDayExecutionResult {
    pub z_report_id: Option<String>,
    pub backup_path: String,
    pub vacuum_success: bool,
}

/// Where the closing procedure stands. The steps run in one fixed order:
/// the report, then the backup, then the compaction.
#[derive(Debug, PartialEq, Eq)]
pub enum EndOfDayState {
    /// The report is kept; the backup has been asked for.
    AwaitingBackup { z_report_id: String },
    /// The backup is written; the compaction has been asked for.
    AwaitingVacuum { z_report_id: String, backup_path: String },
    /// Nothing more will be asked for.
    Finished,
}

/// What happened to the step that was asked for last.
#[derive(Debug, PartialEq, Eq)]
pub enum EndOfDayEvent {
    BackupDone(BackupResult),
    BackupFailed(String),
    VacuumDone,
    VacuumFailed(String),
}

/// What the caller is to do next.
#[derive(Debug)]
pub enum EndOfDayAction {
    /// Back up the storage file, keeping at most `max_backups` backups.
    BackUp { max_backups: usize },
    /// Compact the storage file.
    Vacuum,
    /// The procedure is complete.
    Succeed(EndOfDayExecutionResult),
    /// The procedure stops here. What earlier steps did stays done.
    Fail(AppError),
}

/// The first move of the closing procedure, given how the report went: a
/// report that was made or found asks for the backup, and one that failed
/// stops the procedure.
pub open spec fn first_move(report: Result<DailySummaryResponse, AppError>) -> (
    EndOfDayState,
    EndOfDayAction,
) {
    match report {
        Ok(summary) => (
            EndOfDayState::AwaitingBackup { z_report_id: summary.id },
            EndOfDayAction::BackUp { max_backups: DEFAULT_MAX_BACKUPS },
        ),
        Err(e) => (EndOfDayState::Finished, EndOfDayAction::Fail(e)),
    }
}

/// The text of the failure that answers an event nobody asked for.
pub open spec fn unexpected_event() -> Seq<char> {
    "Unexpected event"@
}

/// Whether the move `(next, action)` answers `event` in the state
/// `state`: a finished backup asks for the compaction, a finished
/// compaction completes the procedure, a failed step stops it with the
/// failure's text, and an event that was not asked for stops it as well.
pub open spec fn is_next_move(
    state: EndOfDayState,
    event: EndOfDayEvent,
    next: EndOfDayState,
    action: EndOfDayAction,
) -> bool {
    match (state, event) {
        (EndOfDayState::AwaitingBackup { z_report_id }, EndOfDayEvent::BackupDone(done)) => {
            &&& next == (EndOfDayState::AwaitingVacuum { z_report_id, backup_path: done.path })
            &&& action == EndOfDayAction::Vacuum
        },
        (EndOfDayState::AwaitingBackup { .. }, EndOfDayEvent::BackupFailed(text)) => {
            &&& next == EndOfDayState::Finished
            &&& action == EndOfDayAction::Fail(AppError::Database(text))
        },
        (EndOfDayState::AwaitingVacuum { z_report_id, backup_path }, EndOfDayEvent::VacuumDone) => {
            &&& next == EndOfDayState::Finished
            &&& action == EndOfDayAction::Succeed(
                EndOfDayExecutionResult {
                    z_report_id: Some(z_report_id),
                    backup_path,
                    vacuum_success: true,
                },
            )
        },
        (EndOfDayState::AwaitingVacuum { .. }, EndOfDayEvent::VacuumFailed(text)) => {
            &&& next == EndOfDayState::Finished
            &&& action == EndOfDayAction::Fail(AppError::Database(text))
        },
        _ => {
            &&& next == EndOfDayState::Finished
            &&& action matches EndOfDayAction::Fail(e) && e.says(
                ErrorKind::Validation,
                unexpected_event(),
            )
        },
    }
}

/// Starts the closing procedure at the instant `now`: closes out the
/// business day as `generate_zreport_with` does, and asks for the backup
/// if that went well.
pub fn execute_end_of_day_with(
    db: &mut Database,
    actual_cash: Option<i32>,
    id: String,
    now: Timestamp,
) -> (out: (EndOfDayState, EndOfDayAction))
    requires
        old(db).wf(),
    ensures
        final(db).wf(),
        exists|report: Result<DailySummaryResponse, AppError>|
            report_made(old(db)@, final(db)@, actual_cash, id, now, report) && out == first_move(
                report,
            ),
{
    let report = generate_zreport_with(db, actual_cash, id, now);
    let ghost made = report;
    let out = match report {
        Ok(summary) => (
            EndOfDayState::AwaitingBackup { z_report_id: summary.id },
            EndOfDayAction::BackUp { max_backups: DEFAULT_MAX_BACKUPS },
        ),
        Err(e) => (EndOfDayState::Finished, EndOfDayAction::Fail(e)),
    };
    proof {
        assert(report_made(old(db)@, db@, actual_cash, id, now, made) && out == first_move(made));
    }
    out
}

/// Starts the closing procedure. The key of a new summary and the instant
/// are drawn here; whatever they are, the outcome is that of
/// `execute_end_of_day_with` for them.
pub fn execute_end_of_day(db: &mut Database, actual_cash: Option<i32>) -> (out: (
    EndOfDayState,
    EndOfDayAction,
))
    requires
        old(db).wf(),
    ensures
        final(db).wf(),
        exists|id: String, now: Timestamp, report: Result<DailySummaryResponse, AppError>|
            now.second < SECONDS_PER_DAY && report_made(
                old(db)@,
                final(db)@,
                actual_cash,
                id,
                now,
                report,
            ) && out == first_move(report),
{
    let id = random_id();
    let now = local_now();
    let out = execute_end_of_day_with(db, actual_cash, id, now);
    proof {
        let report = choose|report: Result<DailySummaryResponse, AppError>|
            report_made(old(db)@, db@, actual_cash, id, now, report) && out == first_move(report);
        assert(report_made(old(db)@, db@, actual_cash, id, now, report) && out == first_move(
            report,
        ));
    }
    out
}

/// Moves the closing procedure on by one event. The records are not
/// touched: what the report step kept stays, whatever happens later.
pub fn end_of_day_next(state: EndOfDayState, event: EndOfDayEvent) -> (out: (
    EndOfDayState,
    EndOfDayAction,
))
    ensures
        is_next_move(state, event, out.0, out.1),
{
    match state {
        EndOfDayState::AwaitingBackup { z_report_id } => match event {
            EndOfDayEvent::BackupDone(done) => (
                EndOfDayState::AwaitingVacuum { z_report_id, backup_path: done.path },
                EndOfDayAction::Vacuum,
            ),
            EndOfDayEvent::BackupFailed(text) => (
                EndOfDayState::Finished,
                EndOfDayAction::Fail(AppError::Database(text)),
            ),
            _ => (
                EndOfDayState::Finished,
                EndOfDayAction::Fail(AppError::validation("Unexpected event")),
            ),
        },
        EndOfDayState::AwaitingVacuum { z_report_id, backup_path } => match event {
            EndOfDayEvent::VacuumDone => (
                EndOfDayState::Finished,
                EndOfDayAction::Succeed(
                    EndOfDayExecutionResult {
                        z_report_id: Some(z_report_id),
                        backup_path,
                        vacuum_success: true,
                    },
                ),
            ),
            EndOfDayEvent::VacuumFailed(text) => (
                EndOfDayState::Finished,
                EndOfDayAction::Fail(AppError::Database(text)),
            ),
            _ => (
                EndOfDayState::Finished,
                EndOfDayAction::Fail(AppError::validation("Unexpected event")),
            ),
        },
        EndOfDayState::Finished => (
            EndOfDayState::Finished,
            EndOfDayAction::Fail(AppError::validation("Unexpected event")),
        ),
    }
}

/// What the till can tell about itself.
#[derive(Debug, PartialEq, Eq)]
pub struct SystemCheck {
    pub db_connected: bool,
    pub table_count: usize,
    pub product_count: usize,
}

/// The test for the products that are still in the catalog.
pub open spec fn in_catalog() -> spec_fn(product::Model) -> bool {
    |p: product::Model| !p.is_deleted
}

/// Counts the tables and the products that are still in the catalog.
pub fn system_check(db: &Database) -> (check: SystemCheck)
    ensures
        check.db_connected,
        check.table_count == db@.tables.len(),
        check.product_count == count_where(db@.products, in_catalog()),
{
    let mut count: usize = 0;
    let mut i: usize = 0;
    while i < db.products.len()
        invariant
            i <= db.products.len(),
            count <= i,
            count == count_where(db@.products.take(i as int), in_catalog()),
        decreases db.products.len() - i,
    {
        proof {
            lemma_sum_step(db@.products, i as int, in_catalog(), unit());
        }
        if !db.products[i].is_deleted {
            count += 1;
        }
        i += 1;
    }
    proof {
        assert(db@.products.take(db.products.len() as int) =~= db@.products);
    }
    SystemCheck { db_connected: true, table_count: db.tables.len(), product_count: count }
}

/// How many records the first set-up added, by kind.
#[derive(Debug, PartialEq, Eq)]
pub struct SeedResult {
    pub categories: usize,
    pub products: usize,
    pub tables: usize,
}

/// Whether some category carries the name `name`.
pub open spec fn has_category_named(categories: Seq<category::Model>, name: Seq<char>) -> bool {
    exists|i: int| 0 <= i < categories.len() && (#[trigger] categories[i]).name@ == name
}

/// Whether some category carries the name `name`.
fn category_is_named(categories: &Vec<category::Model>, name: &String) -> (found: bool)
    ensures
        found == has_category_named(categories@, name@),
{
    let mut i: usize = 0;
    while i < categories.len()
        invariant
            i <= categories.len(),
            forall|j: int| 0 <= j < i ==> (#[trigger] categories[j]).name@ != name@,
        decreases categories.len() - i,
    {
        if categories[i].name == *name {
            return true;
        }
        i += 1;
    }
    false
}

/// What making sure that a table named `name` exists does, given the key
/// `id` for a new one: a name that is taken changes nothing, and a free
/// one is created as `create_table_with` creates it.
pub open spec fn table_seeded(
    pre: Records,
    post: Records,
    name: String,
    id: String,
    out: Result<bool, AppError>,
) -> bool {
    if has_name(pre.tables, name@) {
        post == pre && out == Ok::<bool, AppError>(false)
    } else if has_key(pre.tables, id@) {
        post == pre && refused(out, ErrorKind::Database, "UNIQUE constraint failed: Table.id"@)
    } else {
        &&& post == (Records { tables: pre.tables.push(table::Model { id, name }), ..pre })
        &&& out == Ok::<bool, AppError>(true)
    }
}

/// Makes sure that a table named `name` exists, creating it under the key
/// `id` if none does. Answers whether it was created.
pub fn seed_table(db: &mut Database, name: String, id: String) -> (out: Result<bool, AppError>)
    requires
        old(db).wf(),
    ensures
        final(db).wf(),
        table_seeded(old(db)@, final(db)@, name, id, out),
{
    if name_position(&db.tables, &name).is_some() {
        return Ok(false);
    }
    match create_table_with(db, name, id) {
        Ok(_) => Ok(true),
        Err(e) => Err(e),
    }
}

/// What making sure that a category named `name` exists does, given the
/// key `id` for a new one: a name that is taken changes nothing, and a
/// free one is created as `create_category_with` creates it.
pub open spec fn category_seeded(
    pre: Records,
    post: Records,
    name: String,
    id: String,
    out: Result<bool, AppError>,
) -> bool {
    if has_category_named(pre.categories, name@) {
        post == pre && out == Ok::<bool, AppError>(false)
    } else {
        exists|made: Result<CategoryResponse, AppError>|
            category_created(pre, post, name, id, made) && out == (match made {
                Ok(_) => Ok::<bool, AppError>(true),
                Err(e) => Err::<bool, AppError>(e),
            })
    }
}

/// Makes sure that a category named `name` exists, creating it under the
/// key `id` if none does. Answers whether it was created.
pub fn seed_category(db: &mut Database, name: String, id: String) -> (out: Result<bool, AppError>)
    requires
        old(db).wf(),
    ensures
        final(db).wf(),
        category_seeded(old(db)@, final(db)@, name, id, out),
{
    if category_is_named(&db.categories, &name) {
        return Ok(false);
    }
    let made = create_category_with(db, name, id);
    let ghost witness = made;
    let out = match made {
        Ok(_) => Ok(true),
        Err(e) => Err(e),
    };
    proof {
        assert(category_created(old(db)@, db@, name, id, witness) && out == (match witness {
            Ok(_) => Ok::<bool, AppError>(true),
            Err(e) => Err::<bool, AppError>(e),
        }));
    }
    out
}

/// The names of the tables that the first set-up makes sure of.
pub open spec fn seed_tables() -> Seq<Seq<char>> {
    seq!["T1"@, "T2"@, "T3"@, "T4"@, "T5"@]
}

/// The names of the categories that the first set-up makes sure of.
pub open spec fn seed_categories() -> Seq<Seq<char>> {
    seq!["Drinks"@, "Food"@, "Dessert"@]
}

/// Whether `post` is `pre` with tables and categories appended and
/// nothing else changed, every new table and category carrying a name of
/// the first set-up that was not taken before, and every new category the
/// default icon.
pub open spec fn only_grown(pre: Records, post: Records) -> bool {
    &&& post == (Records { tables: post.tables, categories: post.categories, ..pre })
    &&& pre.tables.len() <= post.tables.len()
    &&& post.tables.take(pre.tables.len() as int) == pre.tables
    &&& pre.categories.len() <= post.categories.len()
    &&& post.categories.take(pre.categories.len() as int) == pre.categories
    &&& forall|j: int|
        pre.tables.len() <= j < post.tables.len() ==> seed_tables().contains(
            (#[trigger] post.tables[j]).name@,
        ) && !has_name(pre.tables, post.tables[j].name@)
    &&& forall|j: int|
        pre.categories.len() <= j < post.categories.len() ==> seed_categories().contains(
            (#[trigger] post.categories[j]).name@,
        ) && !has_category_named(pre.categories, post.categories[j].name@)
            && !post.categories[j].is_deleted && (post.categories[j].icon matches Some(icon)
            && icon@ == default_icon())
}

/// Whether a table of every name in `names` exists.
pub open spec fn tables_named(tables: Seq<table::Model>, names: Seq<String>) -> bool {
    forall|k: int| 0 <= k < names.len() ==> has_name(tables, (#[trigger] names[k])@)
}

/// Whether a category of every name in `names` exists.
pub open spec fn categories_named(categories: Seq<category::Model>, names: Seq<String>) -> bool {
    forall|k: int| 0 <= k < names.len() ==> has_category_named(categories, (#[trigger] names[k])@)
}

/// Whether every table of the first set-up exists.
pub open spec fn tables_seeded(tables: Seq<table::Model>) -> bool {
    forall|k: int| 0 <= k < seed_tables().len() ==> has_name(tables, #[trigger] seed_tables()[k])
}

/// Whether every category of the first set-up exists.
pub open spec fn categories_seeded(categories: Seq<category::Model>) -> bool {
    forall|k: int|
        0 <= k < seed_categories().len() ==> has_category_named(
            categories,
            #[trigger] seed_categories()[k],
        )
}

/// Makes sure that a table of every name in `names` exists, and counts
/// the tables it created.
fn seed_tables_named(db: &mut Database, names: &Vec<String>) -> (out: Result<usize, AppError>)
    requires
        old(db).wf(),
        forall|k: int| 0 <= k < names.len() ==> seed_tables().contains((#[trigger] names[k])@),
    ensures
        final(db).wf(),
        only_grown(old(db)@, final(db)@),
        final(db)@.categories == old(db)@.categories,
        out matches Ok(added) ==> added == final(db)@.tables.len() - old(db)@.tables.len()
            && tables_named(final(db)@.tables, names@),
        tables_named(old(db)@.tables, names@) ==> out is Ok && final(db)@ == old(db)@,
        out matches Err(e) ==> e.kind_of() == ErrorKind::Database,
{
    let ghost pre = db@;
    let mut added: usize = 0;
    let mut i: usize = 0;
    proof {
        assert(db@.tables.take(pre.tables.len() as int) =~= pre.tables);
        assert(db@.categories.take(pre.categories.len() as int) =~= pre.categories);
    }
    while i < names.len()
        invariant
            i <= names.len(),
            db.wf(),
            pre == old(db)@,
            only_grown(pre, db@),
            db@.categories == pre.categories,
            added == db@.tables.len() - pre.tables.len(),
            forall|k: int| 0 <= k < names.len() ==> seed_tables().contains((#[trigger] names[k])@),
            forall|k: int| 0 <= k < i ==> has_name(db@.tables, (#[trigger] names[k])@),
            tables_named(pre.tables, names@) ==> db@ == pre,
        decreases names.len() - i,
    {
        let ghost before = db@;
        proof {
            if tables_named(pre.tables, names@) {
                assert(has_name(before.tables, names[i as int]@));
            }
        }
        let made = seed_table(db, names[i].clone(), time_ordered_id());
        proof {
            assert(db@.tables.take(before.tables.len() as int) =~= before.tables);
            assert(db@.categories.take(before.categories.len() as int) =~= before.categories);
            assert(seed_tables().contains(names[i as int]@));
            assert(only_grown(before, db@));
            lemma_grown_twice(pre, before, db@);
            assert forall|k: int| 0 <= k < i implies has_name(db@.tables, (#[trigger] names[k])@) by {
                let t = choose|t: int|
                    0 <= t < before.tables.len() && (#[trigger] before.tables[t]).name@ == names[k]@;
                assert(db@.tables[t].name@ == names[k]@);
            }
        }
        match made {
            Ok(created) => {
                if created {
                    proof {
                        assert(db@.tables[before.tables.len() as int].name@ == names[i as int]@);
                    }
                    let len = db.tables.len();
                    added += 1;
                }
            },
            Err(e) => { return Err(e); },
        }
        i += 1;
    }
    Ok(added)
}

/// Makes sure that a category of every name in `names` exists, and counts
/// the categories it created.
fn seed_categories_named(db: &mut Database, names: &Vec<String>) -> (out: Result<usize, AppError>)
    requires
        old(db).wf(),
        forall|k: int| 0 <= k < names.len() ==> seed_categories().contains((#[trigger] names[k])@),
    ensures
        final(db).wf(),
        only_grown(old(db)@, final(db)@),
        final(db)@.tables == old(db)@.tables,
        out matches Ok(added) ==> added == final(db)@.categories.len() - old(db)@.categories.len()
            && categories_named(final(db)@.categories, names@),
        categories_named(old(db)@.categories, names@) ==> out is Ok && final(db)@ == old(db)@,
        out matches Err(e) ==> e.kind_of() == ErrorKind::Database,
{
    let ghost pre = db@;
    let mut added: usize = 0;
    let mut i: usize = 0;
    proof {
        assert(db@.tables.take(pre.tables.len() as int) =~= pre.tables);
        assert(db@.categories.take(pre.categories.len() as int) =~= pre.categories);
    }
    while i < names.len()
        invariant
            i <= names.len(),
            db.wf(),
            pre == old(db)@,
            only_grown(pre, db@),
            db@.tables == pre.tables,
            added == db@.categories.len() - pre.categories.len(),
            forall|k: int|
                0 <= k < names.len() ==> seed_categories().contains((#[trigger] names[k])@),
            forall|k: int|
                0 <= k < i ==> has_category_named(db@.categories, (#[trigger] names[k])@),
            categories_named(pre.categories, names@) ==> db@ == pre,
        decreases names.len() - i,
    {
        let ghost before = db@;
        proof {
            if categories_named(pre.categories, names@) {
                assert(has_category_named(before.categories, names[i as int]@));
            }
        }
        let made = seed_category(db, names[i].clone(), time_ordered_id());
        proof {
            assert(db@.tables.take(before.tables.len() as int) =~= before.tables);
            assert(db@.categories.take(before.categories.len() as int) =~= before.categories);
            assert(seed_categories().contains(names[i as int]@));
            assert(only_grown(before, db@));
            lemma_grown_twice(pre, before, db@);
            assert forall|k: int| 0 <= k < i implies has_category_named(
                db@.categories,
                (#[trigger] names[k])@,
            ) by {
                let t = choose|t: int|
                    0 <= t < before.categories.len() && (#[trigger] before.categories[t]).name@
                        == names[k]@;
                assert(db@.categories[t].name@ == names[k]@);
            }
        }
        match made {
            Ok(created) => {
                if created {
                    proof {
                        assert(db@.categories[before.categories.len() as int].name@
                            == names[i as int]@);
                    }
                    let len = db.categories.len();
                    added += 1;
                }
            },
            Err(e) => { return Err(e); },
        }
        i += 1;
    }
    Ok(added)
}

/// The names of the tables that the first set-up makes sure of.
fn seed_table_names() -> (names: Vec<String>)
    ensures
        names@.len() == seed_tables().len(),
        forall|k: int| 0 <= k < names.len() ==> (#[trigger] names[k])@ == seed_tables()[k],
{
    let mut names: Vec<String> = Vec::new();
    names.push(String::from_str("T1"));
    names.push(String::from_str("T2"));
    names.push(String::from_str("T3"));
    names.push(String::from_str("T4"));
    names.push(String::from_str("T5"));
    names
}

/// The names of the categories that the first set-up makes sure of.
fn seed_category_names() -> (names: Vec<String>)
    ensures
        names@.len() == seed_categories().len(),
        forall|k: int| 0 <= k < names.len() ==> (#[trigger] names[k])@ == seed_categories()[k],
{
    let mut names: Vec<String> = Vec::new();
    names.push(String::from_str("Drinks"));
    names.push(String::from_str("Food"));
    names.push(String::from_str("Dessert"));
    names
}

/// The first set-up: makes sure that the tables T1 to T5 and the
/// categories Drinks, Food and Dessert exist, creating those that are
/// missing, and counts what it created. Where all of them exist it
/// succeeds, creates nothing and changes nothing. The keys of the new
/// records are drawn here. Whatever they are, nothing but tables and
/// categories is added, and what was there stays. It fails only where a
/// drawn key is already taken.
pub fn seed_database(db: &mut Database) -> (out: Result<SeedResult, AppError>)
    requires
        old(db).wf(),
    ensures
        final(db).wf(),
        only_grown(old(db)@, final(db)@),
        out matches Ok(seeded) ==> {
            &&& tables_seeded(final(db)@.tables)
            &&& categories_seeded(final(db)@.categories)
            &&& seeded.tables == final(db)@.tables.len() - old(db)@.tables.len()
            &&& seeded.categories == final(db)@.categories.len() - old(db)@.categories.len()
            &&& seeded.products == 0
        },
        tables_seeded(old(db)@.tables) && categories_seeded(old(db)@.categories) ==> final(db)@
            == old(db)@ && out == Ok::<SeedResult, AppError>(
            SeedResult { categories: 0, products: 0, tables: 0 },
        ),
        tables_seeded(old(db)@.tables) && out is Err ==> final(db)@.tables == old(db)@.tables,
        out matches Err(e) ==> e.kind_of() == ErrorKind::Database,
{
    let ghost pre = db@;
    let table_names = seed_table_names();
    proof {
        assert forall|k: int| 0 <= k < table_names.len() implies seed_tables().contains(
            (#[trigger] table_names[k])@,
        ) by {
            assert(seed_tables()[k] == table_names[k]@);
        }
    }
    proof {
        if tables_seeded(pre.tables) {
            assert forall|k: int| 0 <= k < table_names.len() implies has_name(
                pre.tables,
                (#[trigger] table_names@[k])@,
            ) by {
                assert(has_name(pre.tables, seed_tables()[k]));
            }
        }
    }
    let tables = match seed_tables_named(db, &table_names) {
        Ok(added) => added,
        Err(e) => { return Err(e); },
    };
    let ghost mid = db@;
    let category_names = seed_category_names();
    proof {
        assert forall|k: int| 0 <= k < category_names.len() implies seed_categories().contains(
            (#[trigger] category_names[k])@,
        ) by {
            assert(seed_categories()[k] == category_names[k]@);
        }
    }
    proof {
        if categories_seeded(mid.categories) {
            assert forall|k: int| 0 <= k < category_names.len() implies has_category_named(
                mid.categories,
                (#[trigger] category_names@[k])@,
            ) by {
                assert(has_category_named(mid.categories, seed_categories()[k]));
            }
        }
    }
    let made = seed_categories_named(db, &category_names);
    proof {
        lemma_grown_twice(pre, mid, db@);
    }
    let categories = match made {
        Ok(added) => added,
        Err(e) => { return Err(e); },
    };
    proof {
        assert forall|k: int| 0 <= k < seed_tables().len() implies has_name(
            db@.tables,
            #[trigger] seed_tables()[k],
        ) by {
            assert(has_name(mid.tables, table_names[k]@));
        }
        assert forall|k: int| 0 <= k < seed_categories().len() implies has_category_named(
            db@.categories,
            #[trigger] seed_categories()[k],
        ) by {
            assert(has_category_named(db@.categories, category_names[k]@));
        }
    }
    Ok(SeedResult { categories, products: 0, tables })
}

/// Growing twice is growing.
proof fn lemma_grown_twice(a: Records, b: Records, c: Records)
    requires
        only_grown(a, b),
        only_grown(b, c),
    ensures
        only_grown(a, c),
{
    assert(c.tables.take(a.tables.len() as int) =~= b.tables.take(a.tables.len() as int));
    assert(c.categories.take(a.categories.len() as int) =~= b.categories.take(
        a.categories.len() as int,
    ));
    assert forall|j: int| a.tables.len() <= j < c.tables.len() implies seed_tables().contains(
        (#[trigger] c.tables[j]).name@,
    ) && !has_name(a.tables, c.tables[j].name@) by {
        if j < b.tables.len() {
            assert(c.tables.take(b.tables.len() as int)[j] == b.tables[j]);
        } else if has_name(a.tables, c.tables[j].name@) {
            let i = choose|i: int|
                0 <= i < a.tables.len() && (#[trigger] a.tables[i]).name@ == c.tables[j].name@;
            assert(b.tables.take(a.tables.len() as int)[i] == a.tables[i]);
            assert(b.tables[i].name@ == c.tables[j].name@);
        }
    }
    assert forall|j: int|
        a.categories.len() <= j < c.categories.len() implies seed_categories().contains(
        (#[trigger] c.categories[j]).name@,
    ) && !has_category_named(a.categories, c.categories[j].name@) && !c.categories[j].is_deleted
        && (c.categories[j].icon matches Some(icon) && icon@ == default_icon()) by {
        if j < b.categories.len() {
            assert(c.categories.take(b.categories.len() as int)[j] == b.categories[j]);
        } else if has_category_named(a.categories, c.categories[j].name@) {
            let i = choose|i: int|
                0 <= i < a.categories.len() && (#[trigger] a.categories[i]).name@
                    == c.categories[j].name@;
            assert(b.categories.take(a.categories.len() as int)[i] == a.categories[i]);
            assert(b.categories[i].name@ == c.categories[j].name@);
        }
    }
}

/// Where an export went and how many tabs it holds.
#[derive(Debug, PartialEq, Eq)]
pub struct ExportResult {
    pub filepath: String,
    pub count: usize,
}

/// The outcome of an export of every tab to the file `filepath`.
pub fn export_outcome(db: &Database, filepath: String) -> (done: ExportResult)
    ensures
        done == (ExportResult { filepath, count: db@.orders.len() as usize }),
{
    ExportResult { filepath, count: db.orders.len() }
}

/// How taking over the records of an earlier installation went.
#[derive(Debug, PartialEq, Eq)]
pub struct ImportResult {
    pub success: bool,
    pub message: String,
    pub tables_processed: usize,
    pub errors: Vec<String>,
}

/// How taking over one kind of record went: the number of records taken
/// over, or the text of the failure.
pub struct ImportStep {
    pub table: String,
    pub outcome: Result<u64, String>,
}

/// The test for the steps that took over at least one record.
pub open spec fn took_over() -> spec_fn(ImportStep) -> bool {
    |step: ImportStep| step.outcome matches Ok(rows) && rows > 0
}

/// The text that reports the failure of the step for `table`.
pub open spec fn import_error(table: Seq<char>, failure: Seq<char>) -> Seq<char> {
    "Error importing "@ + table + ": "@ + failure
}

/// The reports of the steps that failed, in the order of the steps.
pub open spec fn import_errors(steps: Seq<ImportStep>) -> Seq<Seq<char>>
    decreases steps.len(),
{
    if steps.len() == 0 {
        Seq::empty()
    } else {
        match steps.last().outcome {
            Err(failure) => import_errors(steps.drop_last()).push(
                import_error(steps.last().table@, failure@),
            ),
            Ok(_) => import_errors(steps.drop_last()),
        }
    }
}

/// Sums up how taking over the records went: the number of kinds of which
/// at least one record was taken over, a report for every kind that
/// failed, and success if anything was taken over at all.
pub fn import_outcome(steps: &Vec<ImportStep>) -> (done: ImportResult)
    ensures
        done.tables_processed == count_where(steps@, took_over()),
        done.success == (done.tables_processed > 0),
        done.message@ == decimal_text(done.tables_processed as int) + " tablo işlem gördü."@,
        done.errors@.len() == import_errors(steps@).len(),
        forall|k: int|
            0 <= k < done.errors@.len() ==> (#[trigger] done.errors@[k])@ == import_errors(steps@)[k],
{
    let mut count: usize = 0;
    let mut errors: Vec<String> = Vec::new();
    let mut i: usize = 0;
    while i < steps.len()
        invariant
            i <= steps.len(),
            count <= i,
            count == count_where(steps@.take(i as int), took_over()),
            errors@.len() == import_errors(steps@.take(i as int)).len(),
            forall|k: int|
                0 <= k < errors@.len() ==> (#[trigger] errors@[k])@ == import_errors(
                    steps@.take(i as int),
                )[k],
        decreases steps.len() - i,
    {
        proof {
            lemma_sum_step(steps@, i as int, took_over(), unit());
            assert(steps@.take(i + 1).drop_last() =~= steps@.take(i as int));
        }
        match &steps[i].outcome {
            Ok(rows) => {
                if *rows > 0 {
                    count += 1;
                }
            },
            Err(failure) => {
                let report = String::from_str("Error importing ").concat(
                    steps[i].table.as_str(),
                ).concat(": ").concat(failure.as_str());
                errors.push(report);
            },
        }
        i += 1;
    }
    proof {
        assert(steps@.take(steps.len() as int) =~= steps@);
    }
    let message = decimal(count as u64).concat(" tablo işlem gördü.");
    ImportResult { success: count > 0, message, tables_processed: count, errors }
}

/// With `k` backups more than the limit `max`, a rotation evicts exactly
/// `k` of them, so that `max` stay, and every one it evicts is older than
/// every one that stays.
pub proof fn lemma_rotation_keeps_limit(
    entries: Seq<BackupEntry>,
    max: int,
    k: int,
    victims: Seq<usize>,
)
    requires
        is_rotation(entries, max, victims),
        0 <= k,
        count_where(entries, is_backup_entry()) == max + k,
    ensures
        victims.len() == k,
        count_where(entries, is_backup_entry()) - victims.len() == max,
        forall|v: int, s: int|
            0 <= v < victims.len() && 0 <= s < entries.len() && is_backup_name(
                (#[trigger] entries[s]).name@,
            ) && !victims.contains(s as usize) ==> older(entries, #[trigger] victims[v] as int, s),
{
}

} // verus!
