//! The till's records as one value, and what is always true of them.

use crate::clock::Timestamp;
use crate::entities::activity_log;
use crate::entities::app_settings;
use crate::entities::category;
use crate::entities::daily_summary;
use crate::entities::expense;
use crate::entities::monthly_report;
use crate::entities::order::OrderStatus;
use crate::entities::order;
use crate::entities::order_item;
use crate::entities::product;
use crate::entities::table;
use crate::entities::transaction;
use crate::record::Entry;
use crate::record::Record;
use crate::record::attached;
use crate::record::has_entry;
use crate::record::has_key;
use crate::record::index_of;
use crate::record::is_first;
use crate::record::key_stays;
use crate::record::lemma_filter_keeps;
use crate::record::lemma_filter_order;
use crate::record::lemma_filter_source;
use crate::record::lemma_filter_unique;
use crate::record::lemma_first_exists;
use crate::record::lemma_index_of;
use crate::record::lemma_total_absent;
use crate::record::lemma_total_filter;
use crate::record::owner_stays;
use crate::record::position;
use crate::record::record_of;
use crate::record::sum_for;
use crate::record::total_of;
use crate::record::unique_keys;
use vstd::prelude::*;

verus! {

/// Every record the till keeps.
pub struct Database {
    pub categories: Vec<category::Model>,
    pub products: Vec<product::Model>,
    pub tables: Vec<table::Model>,
    pub orders: Vec<order::Model>,
    pub items: Vec<order_item::Model>,
    pub transactions: Vec<transaction::Model>,
    pub summaries: Vec<daily_summary::Model>,
    pub expenses: Vec<expense::Model>,
    pub logs: Vec<activity_log::Model>,
    pub monthly_reports: Vec<monthly_report::Model>,
    pub settings: Vec<app_settings::Model>,
}

/// The application's state: the records it works on.
pub struct AppState {
    pub db: Database,
}

/// The records of a till as sequences, in the order they are kept.
pub struct Records {
    pub categories: Seq<category::Model>,
    pub products: Seq<product::Model>,
    pub tables: Seq<table::Model>,
    pub orders: Seq<order::Model>,
    pub items: Seq<order_item::Model>,
    pub transactions: Seq<transaction::Model>,
    pub summaries: Seq<daily_summary::Model>,
    pub expenses: Seq<expense::Model>,
    pub logs: Seq<activity_log::Model>,
    pub monthly_reports: Seq<monthly_report::Model>,
    pub settings: Seq<app_settings::Model>,
}

impl View for Database {
    type V = Records;

    open spec fn view(&self) -> Records {
        Records {
            categories: self.categories@,
            products: self.products@,
            tables: self.tables@,
            orders: self.orders@,
            items: self.items@,
            transactions: self.transactions@,
            summaries: self.summaries@,
            expenses: self.expenses@,
            logs: self.logs@,
            monthly_reports: self.monthly_reports@,
            settings: self.settings@,
        }
    }
}

/// Whether no two tables share a name.
pub open spec fn unique_names(tables: Seq<table::Model>) -> bool {
    forall|i: int, j: int|
        0 <= i < j < tables.len() ==> (#[trigger] tables[i]).name@ != (#[trigger] tables[j]).name@
}

/// Whether some table carries the name `name`.
pub open spec fn has_name(tables: Seq<table::Model>, name: Seq<char>) -> bool {
    exists|i: int| 0 <= i < tables.len() && (#[trigger] tables[i]).name@ == name
}

/// Whether every tab stands on a table that exists.
pub open spec fn seated(orders: Seq<order::Model>, tables: Seq<table::Model>) -> bool {
    forall|i: int| 0 <= i < orders.len() ==> has_key(tables, (#[trigger] orders[i]).table_id@)
}

/// Whether every tab's total is the sum over its lines of quantity times
/// unit price.
pub open spec fn totals_agree(orders: Seq<order::Model>, items: Seq<order_item::Model>) -> bool {
    forall|i: int|
        0 <= i < orders.len() ==> (#[trigger] orders[i]).total_amount == total_of(
            items,
            orders[i].id@,
        )
}

/// Whether the table `table` has an open tab.
pub open spec fn occupied(orders: Seq<order::Model>, table: Seq<char>) -> bool {
    exists|i: int|
        0 <= i < orders.len() && (#[trigger] orders[i]).status == OrderStatus::Open
            && orders[i].table_id@ == table
}

/// Whether `i` is the first position in `orders` of an open tab on `table`.
pub open spec fn is_first_open(orders: Seq<order::Model>, table: Seq<char>, i: int) -> bool {
    &&& 0 <= i < orders.len()
    &&& orders[i].status == OrderStatus::Open
    &&& orders[i].table_id@ == table
    &&& forall|j: int|
        0 <= j < i ==> !((#[trigger] orders[j]).status == OrderStatus::Open && orders[j].table_id@
            == table)
}

/// The open tab on `table`; meaningful when the table is occupied.
pub open spec fn open_order(orders: Seq<order::Model>, table: Seq<char>) -> order::Model {
    orders[choose|i: int| is_first_open(orders, table, i)]
}

/// Position of the open tab on the table `table_id`, if it has one.
pub fn open_position(orders: &Vec<order::Model>, table_id: &String) -> (at: Option<usize>)
    ensures
        at is Some <==> occupied(orders@, table_id@),
        at matches Some(i) ==> is_first_open(orders@, table_id@, i as int) && orders@[i as int]
            == open_order(orders@, table_id@),
{
    let mut i: usize = 0;
    while i < orders.len()
        invariant
            i <= orders.len(),
            forall|j: int|
                0 <= j < i ==> !((#[trigger] orders[j]).status == OrderStatus::Open
                    && orders[j].table_id@ == table_id@),
        decreases orders.len() - i,
    {
        if orders[i].status == OrderStatus::Open && orders[i].table_id == *table_id {
            proof {
                let c = choose|c: int| is_first_open(orders@, table_id@, c);
                assert(is_first_open(orders@, table_id@, i as int));
                if c < i {
                    assert(orders[c].status == OrderStatus::Open);
                } else if i < c {
                    assert(orders[i as int].status == OrderStatus::Open);
                }
            }
            return Some(i);
        }
        i += 1;
    }
    None
}

/// Whether no table has two open tabs.
pub open spec fn one_open_per_table(orders: Seq<order::Model>) -> bool {
    forall|i: int, j: int|
        0 <= i < j < orders.len() && (#[trigger] orders[i]).status == OrderStatus::Open && (
        #[trigger] orders[j]).status == OrderStatus::Open ==> orders[i].table_id@
            != orders[j].table_id@
}

/// Whether every line of the tab `order` is paid.
pub open spec fn all_paid(items: Seq<order_item::Model>, order: Seq<char>) -> bool {
    forall|k: int| 0 <= k < items.len() && (#[trigger] items[k]).order_id@ == order ==> items[k].is_paid
}

/// Whether every line of every closed tab is paid.
pub open spec fn closed_are_paid(orders: Seq<order::Model>, items: Seq<order_item::Model>) -> bool {
    forall|i: int|
        0 <= i < orders.len() && (#[trigger] orders[i]).status == OrderStatus::Closed ==> all_paid(
            items,
            orders[i].id@,
        )
}

/// Whether every line counts at least one unit.
pub open spec fn positive_quantities(items: Seq<order_item::Model>) -> bool {
    forall|k: int| 0 <= k < items.len() ==> (#[trigger] items[k]).quantity > 0
}

/// Whether every payment is of more than nothing.
pub open spec fn positive_amounts(payments: Seq<transaction::Model>) -> bool {
    forall|k: int| 0 <= k < payments.len() ==> (#[trigger] payments[k]).amount > 0
}

/// Whether `x` can be kept in a 32-bit amount.
pub open spec fn fits_i32(x: int) -> bool {
    i32::MIN <= x <= i32::MAX
}

/// The tab `order` with its total set to the sum over `items` and its
/// last change stamped `now`.
pub open spec fn retotal(
    order: order::Model,
    items: Seq<order_item::Model>,
    now: Timestamp,
) -> order::Model {
    order::Model { total_amount: total_of(items, order.id@) as i32, updated_at: now, ..order }
}

/// The tabs `orders` after the total of the tab `order` was recomputed
/// from `items` at the instant `now`.
pub open spec fn retotaled(
    orders: Seq<order::Model>,
    items: Seq<order_item::Model>,
    order: Seq<char>,
    now: Timestamp,
) -> Seq<order::Model> {
    orders.update(index_of(orders, order), retotal(record_of(orders, order), items, now))
}

/// Whether some summary is kept for the business day `date`.
pub open spec fn has_summary(summaries: Seq<daily_summary::Model>, date: int) -> bool {
    exists|i: int| 0 <= i < summaries.len() && (#[trigger] summaries[i]).date == date
}

/// Whether `i` is the first position in `summaries` of a summary for the
/// business day `date`.
pub open spec fn is_first_summary(summaries: Seq<daily_summary::Model>, date: int, i: int) -> bool {
    &&& 0 <= i < summaries.len()
    &&& summaries[i].date == date
    &&& forall|j: int| 0 <= j < i ==> (#[trigger] summaries[j]).date != date
}

/// The summary kept for the business day `date`; meaningful when there is
/// one.
pub open spec fn summary_on(summaries: Seq<daily_summary::Model>, date: int) -> daily_summary::Model {
    summaries[choose|i: int| is_first_summary(summaries, date, i)]
}

/// Position of the summary for the business day `date`, if one is kept.
pub fn summary_position(summaries: &Vec<daily_summary::Model>, date: i64) -> (at: Option<usize>)
    ensures
        at is Some <==> has_summary(summaries@, date as int),
        at matches Some(i) ==> is_first_summary(summaries@, date as int, i as int)
            && summaries@[i as int] == summary_on(summaries@, date as int),
{
    let mut i: usize = 0;
    while i < summaries.len()
        invariant
            i <= summaries.len(),
            forall|j: int| 0 <= j < i ==> (#[trigger] summaries[j]).date != date,
        decreases summaries.len() - i,
    {
        if summaries[i].date == date {
            proof {
                let c = choose|c: int| is_first_summary(summaries@, date as int, c);
                assert(is_first_summary(summaries@, date as int, i as int));
                if c < i {
                    assert(summaries[c].date == date);
                } else if i < c {
                    assert(summaries[i as int].date == date);
                }
            }
            return Some(i);
        }
        i += 1;
    }
    None
}

/// Whether no business day has two summaries.
pub open spec fn one_summary_per_day(summaries: Seq<daily_summary::Model>) -> bool {
    forall|i: int, j: int|
        0 <= i < j < summaries.len() ==> (#[trigger] summaries[i]).date != (
        #[trigger] summaries[j]).date
}

/// The key of the single settings record.
pub open spec fn settings_key() -> Seq<char> {
    "app-settings"@
}

/// The administrator's PIN before anyone changes it.
pub open spec fn default_pin() -> Seq<char> {
    "1234"@
}

impl Records {
    /// What holds of the records between any two operations.
    pub open spec fn wf(self) -> bool {
        &&& unique_keys(self.categories)
        &&& unique_keys(self.products)
        &&& unique_keys(self.tables)
        &&& unique_names(self.tables)
        &&& unique_keys(self.orders)
        &&& unique_keys(self.items)
        &&& unique_keys(self.transactions)
        &&& unique_keys(self.summaries)
        &&& unique_keys(self.expenses)
        &&& unique_keys(self.logs)
        &&& unique_keys(self.monthly_reports)
        &&& unique_keys(self.settings)
        &&& seated(self.orders, self.tables)
        &&& attached(self.items, self.orders)
        &&& attached(self.transactions, self.orders)
        &&& positive_quantities(self.items)
        &&& positive_amounts(self.transactions)
        &&& totals_agree(self.orders, self.items)
        &&& one_open_per_table(self.orders)
        &&& closed_are_paid(self.orders, self.items)
        &&& one_summary_per_day(self.summaries)
    }
}

impl Database {
    /// What holds of the records between any two operations.
    pub open spec fn wf(&self) -> bool {
        self@.wf()
    }
}

/// Recomputes the total of the tab at position `at` from its lines and
/// stamps the tab with `now`. The total depends on the lines alone.
pub(crate) fn recalculate_order_total(db: &mut Database, at: usize, now: Timestamp)
    requires
        at < old(db).orders.len(),
        fits_i32(total_of(old(db)@.items, old(db)@.orders[at as int].id@)),
    ensures
        final(db)@ == (Records {
            orders: old(db)@.orders.update(
                at as int,
                retotal(old(db)@.orders[at as int], old(db)@.items, now),
            ),
            ..old(db)@
        }),
{
    let total = sum_for(&db.items, &db.orders[at].id);
    db.orders[at].total_amount = total as i32;
    db.orders[at].updated_at = now;
    proof {
        assert(db@.orders =~= old(db)@.orders.update(
            at as int,
            retotal(old(db)@.orders[at as int], old(db)@.items, now),
        ));
    }
}

/// Replacing the lines and recomputing one tab's total keeps the records
/// well-formed, as long as the new lines are sound in themselves and only
/// that tab's sum has changed.
pub proof fn lemma_lines_changed(
    pre: Records,
    items: Seq<order_item::Model>,
    order: Seq<char>,
    now: Timestamp,
)
    requires
        pre.wf(),
        has_key(pre.orders, order),
        unique_keys(items),
        attached(items, pre.orders),
        positive_quantities(items),
        closed_are_paid(pre.orders, items),
        fits_i32(total_of(items, order)),
        forall|o: Seq<char>| o != order ==> #[trigger] total_of(items, o) == total_of(pre.items, o),
    ensures
        (Records { items, orders: retotaled(pre.orders, items, order, now), ..pre }).wf(),
        is_first(retotaled(pre.orders, items, order, now), order, index_of(pre.orders, order)),
{
    let post = Records { items, orders: retotaled(pre.orders, items, order, now), ..pre };
    let at = index_of(pre.orders, order);
    lemma_first_exists(pre.orders, order);
    assert forall|j: int| 0 <= j < pre.orders.len() implies (#[trigger] post.orders[j]).id
        == pre.orders[j].id && post.orders[j].table_id == pre.orders[j].table_id
        && post.orders[j].status == pre.orders[j].status by {}
    assert(unique_keys(post.orders));
    assert(seated(post.orders, post.tables));
    assert forall|k: int| 0 <= k < items.len() implies has_key(
        post.orders,
        (#[trigger] items[k]).owner(),
    ) by {
        let j = choose|j: int|
            0 <= j < pre.orders.len() && (#[trigger] pre.orders[j]).key() == items[k].owner();
        assert(post.orders[j].key() == items[k].owner());
    }
    assert forall|k: int| 0 <= k < post.transactions.len() implies has_key(
        post.orders,
        (#[trigger] post.transactions[k]).owner(),
    ) by {
        let j = choose|j: int|
            0 <= j < pre.orders.len() && (#[trigger] pre.orders[j]).key()
                == pre.transactions[k].owner();
        assert(post.orders[j].key() == post.transactions[k].owner());
    }
    assert forall|j: int| 0 <= j < post.orders.len() implies (#[trigger] post.orders[j]).total_amount
        == total_of(items, post.orders[j].id@) by {
        if j != at {
            assert(pre.orders[j].key() != pre.orders[at].key());
        }
    }
    assert(one_open_per_table(post.orders));
    assert forall|j: int|
        0 <= j < post.orders.len() && (#[trigger] post.orders[j]).status
            == OrderStatus::Closed implies all_paid(items, post.orders[j].id@) by {
        assert(pre.orders[j].status == OrderStatus::Closed);
    }
}

/// The records without the tabs whose key is among `gone`, and without
/// the lines and payments of those tabs.
pub open spec fn without_orders(pre: Records, gone: spec_fn(Seq<char>) -> bool) -> Records {
    Records {
        orders: pre.orders.filter(key_stays(gone)),
        items: pre.items.filter(owner_stays(gone)),
        transactions: pre.transactions.filter(owner_stays(gone)),
        ..pre
    }
}

/// Dropping tabs together with their lines and payments keeps the records
/// well-formed: no line or payment is left without its tab, and every
/// remaining total still agrees with its lines.
pub proof fn lemma_orders_dropped(pre: Records, gone: spec_fn(Seq<char>) -> bool)
    requires
        pre.wf(),
    ensures
        without_orders(pre, gone).wf(),
{
    let post = without_orders(pre, gone);
    lemma_filter_unique(pre.orders, key_stays(gone));
    lemma_filter_unique(pre.items, owner_stays(gone));
    lemma_filter_unique(pre.transactions, owner_stays(gone));
    assert forall|i: int| 0 <= i < post.orders.len() implies pre.orders.contains(
        #[trigger] post.orders[i],
    ) by {
        lemma_filter_source(pre.orders, key_stays(gone), i);
    }
    assert forall|k: int| 0 <= k < post.items.len() implies !gone(
        (#[trigger] post.items[k]).owner(),
    ) && pre.items.contains(post.items[k]) by {
        lemma_filter_source(pre.items, owner_stays(gone), k);
    }
    assert forall|k: int| 0 <= k < post.transactions.len() implies !gone(
        (#[trigger] post.transactions[k]).owner(),
    ) && pre.transactions.contains(post.transactions[k]) by {
        lemma_filter_source(pre.transactions, owner_stays(gone), k);
    }
    assert forall|key: Seq<char>| has_key(pre.orders, key) && !gone(key) implies has_key(
        post.orders,
        key,
    ) by {
        let j = choose|j: int| 0 <= j < pre.orders.len() && (#[trigger] pre.orders[j]).key() == key;
        lemma_filter_keeps(pre.orders, key_stays(gone), j);
        let i = choose|i: int| 0 <= i < post.orders.len() && #[trigger] post.orders[i] == pre.orders[j];
        assert(post.orders[i].key() == key);
    }
    assert forall|i: int| 0 <= i < post.orders.len() implies has_key(
        post.tables,
        (#[trigger] post.orders[i]).table_id@,
    ) by {
        let j = choose|j: int| 0 <= j < pre.orders.len() && #[trigger] pre.orders[j] == post.orders[i];
        assert(has_key(pre.tables, pre.orders[j].table_id@));
    }
    assert forall|k: int| 0 <= k < post.items.len() implies has_key(
        post.orders,
        (#[trigger] post.items[k]).owner(),
    ) by {
        let j = choose|j: int| 0 <= j < pre.items.len() && #[trigger] pre.items[j] == post.items[k];
        assert(has_key(pre.orders, pre.items[j].owner()));
    }
    assert forall|k: int| 0 <= k < post.transactions.len() implies has_key(
        post.orders,
        (#[trigger] post.transactions[k]).owner(),
    ) by {
        let j = choose|j: int|
            0 <= j < pre.transactions.len() && #[trigger] pre.transactions[j]
                == post.transactions[k];
        assert(has_key(pre.orders, pre.transactions[j].owner()));
    }
    assert forall|k: int| 0 <= k < post.items.len() implies (#[trigger] post.items[k]).quantity
        > 0 by {
        let j = choose|j: int| 0 <= j < pre.items.len() && #[trigger] pre.items[j] == post.items[k];
    }
    assert forall|k: int| 0 <= k < post.transactions.len() implies (
    #[trigger] post.transactions[k]).amount > 0 by {
        let j = choose|j: int|
            0 <= j < pre.transactions.len() && #[trigger] pre.transactions[j]
                == post.transactions[k];
    }
    assert forall|i: int| 0 <= i < post.orders.len() implies (#[trigger] post.orders[i]).total_amount
        == total_of(post.items, post.orders[i].id@) by {
        lemma_filter_source(pre.orders, key_stays(gone), i);
        let j = choose|j: int| 0 <= j < pre.orders.len() && #[trigger] pre.orders[j] == post.orders[i];
        lemma_total_filter(pre.items, owner_stays(gone), post.orders[i].id@);
    }
    assert forall|a: int, b: int|
        0 <= a < b < post.orders.len() && (#[trigger] post.orders[a]).status == OrderStatus::Open
            && (#[trigger] post.orders[b]).status == OrderStatus::Open implies post.orders[a].table_id@
        != post.orders[b].table_id@ by {
        let x = choose|x: int| 0 <= x < pre.orders.len() && #[trigger] pre.orders[x] == post.orders[a];
        let y = choose|y: int| 0 <= y < pre.orders.len() && #[trigger] pre.orders[y] == post.orders[b];
        assert(post.orders[a].key() != post.orders[b].key());
        if x < y {
            assert(pre.orders[x].table_id@ != pre.orders[y].table_id@);
        } else {
            assert(pre.orders[y].table_id@ != pre.orders[x].table_id@);
        }
    }
    assert forall|i: int|
        0 <= i < post.orders.len() && (#[trigger] post.orders[i]).status
            == OrderStatus::Closed implies all_paid(post.items, post.orders[i].id@) by {
        let j = choose|j: int| 0 <= j < pre.orders.len() && #[trigger] pre.orders[j] == post.orders[i];
        assert(all_paid(pre.items, pre.orders[j].id@));
        assert forall|k: int|
            0 <= k < post.items.len() && (#[trigger] post.items[k]).order_id@
                == post.orders[i].id@ implies post.items[k].is_paid by {
            let m = choose|m: int| 0 <= m < pre.items.len() && #[trigger] pre.items[m] == post.items[k];
        }
    }
}

/// Filtering summaries of distinct days leaves the days distinct.
pub proof fn lemma_filter_days(s: Seq<daily_summary::Model>, keep: spec_fn(daily_summary::Model) -> bool)
    requires
        one_summary_per_day(s),
    ensures
        one_summary_per_day(s.filter(keep)),
{
    let out = s.filter(keep);
    assert forall|i: int, j: int| 0 <= i < j < out.len() implies (#[trigger] out[i]).date != (
    #[trigger] out[j]).date by {
        lemma_filter_order(s, keep, i, j);
        let a = choose|a: int, b: int| 0 <= a < b < s.len() && s[a] == out[i] && s[b] == out[j];
    }
}

/// The settings record a new till starts with.
pub fn default_settings() -> (s: app_settings::Model)
    ensures
        s.id@ == settings_key(),
        s.admin_pin matches Some(pin) && pin@ == default_pin(),
        s.security_answer is None,
        s.security_question is None,
{
    app_settings::Model {
        id: String::from_str("app-settings"),
        admin_pin: Some(String::from_str("1234")),
        security_answer: None,
        security_question: None,
    }
}

/// Makes sure the settings record exists, adding the default one if the
/// till has none. Every other record is left as it is.
pub fn run_migrations(db: &mut Database)
    requires
        old(db).wf(),
    ensures
        final(db).wf(),
        has_key(old(db)@.settings, settings_key()) ==> final(db)@ == old(db)@,
        !has_key(old(db)@.settings, settings_key()) ==> {
            &&& final(db)@ == (Records {
                settings: old(db)@.settings.push(final(db)@.settings.last()),
                ..old(db)@
            })
            &&& final(db)@.settings.last().id@ == settings_key()
            &&& final(db)@.settings.last().admin_pin matches Some(pin) && pin@ == default_pin()
            &&& final(db)@.settings.last().security_answer is None
            &&& final(db)@.settings.last().security_question is None
        },
{
    let key = String::from_str("app-settings");
    if position(&db.settings, &key).is_none() {
        let fresh = default_settings();
        db.settings.push(fresh);
        proof {
            let n = old(db)@.settings.len() as int;
            assert(db@.settings[n].id@ == settings_key());
            assert(db@.settings =~= old(db)@.settings.push(db@.settings.last()));
        }
    }
}

/// A till with no records but the default settings.
pub fn init_database() -> (db: Database)
    ensures
        db.wf(),
        db@.categories.len() == 0,
        db@.products.len() == 0,
        db@.tables.len() == 0,
        db@.orders.len() == 0,
        db@.items.len() == 0,
        db@.transactions.len() == 0,
        db@.summaries.len() == 0,
        db@.expenses.len() == 0,
        db@.logs.len() == 0,
        db@.monthly_reports.len() == 0,
        db@.settings.len() == 1,
        db@.settings[0].id@ == settings_key(),
        db@.settings[0].admin_pin matches Some(pin) && pin@ == default_pin(),
        db@.settings[0].security_answer is None,
        db@.settings[0].security_question is None,
{
    let mut db = Database {
        categories: Vec::new(),
        products: Vec::new(),
        tables: Vec::new(),
        orders: Vec::new(),
        items: Vec::new(),
        transactions: Vec::new(),
        summaries: Vec::new(),
        expenses: Vec::new(),
        logs: Vec::new(),
        monthly_reports: Vec::new(),
        settings: Vec::new(),
    };
    run_migrations(&mut db);
    db
}

/// At all times, every tab's total is the sum over its lines of quantity
/// times unit price.
pub proof fn lemma_totals_hold(records: Records, i: int)
    requires
        records.wf(),
        0 <= i < records.orders.len(),
    ensures
        records.orders[i].total_amount == total_of(records.items, records.orders[i].id@),
        forall|line: order_item::Model| #[trigger] line.worth() == line.quantity * line.unit_price,
{
}

/// At all times, no table has more than one open tab: two open tabs on
/// one table are one and the same tab.
pub proof fn lemma_one_open_tab(records: Records, i: int, j: int)
    requires
        records.wf(),
        0 <= i < records.orders.len(),
        0 <= j < records.orders.len(),
        records.orders[i].status == OrderStatus::Open,
        records.orders[j].status == OrderStatus::Open,
        records.orders[i].table_id@ == records.orders[j].table_id@,
    ensures
        i == j,
{
    if i < j {
        assert(records.orders[i].table_id@ != records.orders[j].table_id@);
    } else if j < i {
        assert(records.orders[j].table_id@ != records.orders[i].table_id@);
    }
}

/// Recomputing a total does not look at the total that was kept: whatever
/// it was, the new one is the sum over the tab's lines, nothing where the
/// tab has none, and the tab is otherwise as it was.
pub proof fn lemma_retotal_ignores_cache(
    order: order::Model,
    items: Seq<order_item::Model>,
    now: Timestamp,
    kept: i32,
)
    requires
        fits_i32(total_of(items, order.id@)),
    ensures
        retotal(order, items, now).total_amount == total_of(items, order.id@),
        retotal(order::Model { total_amount: kept, ..order }, items, now) == retotal(
            order,
            items,
            now,
        ),
        !has_entry(items, order.id@) ==> retotal(order, items, now).total_amount == 0,
        retotal(order, items, now) == (order::Model {
            total_amount: retotal(order, items, now).total_amount,
            updated_at: now,
            ..order
        }),
{
    if !has_entry(items, order.id@) {
        lemma_total_absent(items, order.id@);
    }
}

/// The tab whose total was recomputed is found where it was, and it is the
/// tab that was there with its total recomputed; every other tab is as it
/// was.
pub proof fn lemma_retotaled_record(
    orders: Seq<order::Model>,
    items: Seq<order_item::Model>,
    order: Seq<char>,
    now: Timestamp,
)
    requires
        has_key(orders, order),
    ensures
        has_key(retotaled(orders, items, order, now), order),
        index_of(retotaled(orders, items, order, now), order) == index_of(orders, order),
        record_of(retotaled(orders, items, order, now), order) == retotal(
            record_of(orders, order),
            items,
            now,
        ),
        record_of(orders, order).id@ == order,
        retotaled(orders, items, order, now).len() == orders.len(),
        forall|j: int|
            0 <= j < orders.len() && j != index_of(orders, order) ==> #[trigger] retotaled(
                orders,
                items,
                order,
                now,
            )[j] == orders[j],
{
    lemma_first_exists(orders, order);
    let at = index_of(orders, order);
    let after = retotaled(orders, items, order, now);
    assert forall|j: int| 0 <= j < at implies (#[trigger] after[j]).key() != order by {
        assert(orders[j].key() != order);
    }
    assert(is_first(after, order, at));
    lemma_index_of(after, order, at);
}

} // verus!
