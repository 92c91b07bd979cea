//! The figures of the running business day.

use crate::clock::SECONDS_PER_DAY;
use crate::clock::Timestamp;
use crate::clock::business_date;
use crate::clock::local_now;
use crate::db::Database;
use crate::db::Records;
use crate::db::fits_i32;
use crate::entities::order::OrderStatus;
use crate::entities::order;
use crate::entities::order_item;
use crate::entities::product;
use crate::entities::transaction::PaymentMethod;
use crate::error::AppError;
use crate::error::ErrorKind;
use crate::error::refused;
use crate::figures::closed_on;
use crate::figures::day_expenses;
use crate::figures::day_figures;
use crate::figures::day_sales;
use crate::figures::order_worth;
use crate::figures::orders_on;
use crate::figures::revenue_on;
use crate::figures::spent_on;
use crate::figures::taken_on;
use crate::listing::keys_of;
use crate::listing::lists_ranked;
use crate::listing::marks_of;
use crate::listing::page;
use crate::listing::page_of;
use crate::listing::ranked;
use crate::listing::select_ranked;
use crate::listing::shown_by;
use crate::listing::within;
use crate::record::has_key;
use crate::record::position;
use crate::record::record_of;
use crate::sorting::precedes;
use crate::tally::SUMMAND_LIMIT;
use crate::tally::count_where;
use crate::tally::lemma_count_bounds;
use crate::tally::lemma_sum_step;
use crate::tally::sum_where;
use crate::tally::unit;
use vstd::prelude::*;

verus! {

/// The business day that is running at the instant read from the clock.
pub fn smart_today() -> (today: i64)
    ensures
        exists|now: Timestamp| now.second < SECONDS_PER_DAY && today == now.business_day(),
{
    let now = local_now();
    let today = business_date(now);
    proof {
        assert(now.second < SECONDS_PER_DAY && today == now.business_day());
    }
    today
}

/// What was paid in cash and what by card.
#[derive(Debug, PartialEq, Eq)]
pub struct PaymentBreakdown {
    pub cash: i32,
    pub card: i32,
}

/// A product and how many units of it were sold.
#[derive(Debug, PartialEq, Eq)]
pub struct TopProduct {
    pub product_id: String,
    pub product_name: String,
    pub quantity: i32,
}

/// The figures of a business day.
#[derive(Debug, PartialEq, Eq)]
pub struct DashboardStats {
    pub daily_revenue: i32,
    pub total_orders: i32,
    pub payment_method_breakdown: PaymentBreakdown,
    pub top_products: Vec<TopProduct>,
}

/// How many best sellers are shown.
pub const TOP_PRODUCTS: u64 = 5;

/// A number above every number of units that can be sold.
pub const UNITS_CEILING: u128 = 0x1_0000_0000_0000_0000_0000_0000_0000;

/// The test for the lines of `product` on a tab that counts towards the
/// business day `date`.
pub open spec fn sold_on(orders: Seq<order::Model>, date: int, product: Seq<char>) -> spec_fn(
    order_item::Model,
) -> bool {
    |line: order_item::Model|
        line.product_id@ == product && has_key(orders, line.order_id@) && closed_on(date)(
            record_of(orders, line.order_id@),
        )
}

/// A line's number of units.
pub open spec fn line_units() -> spec_fn(order_item::Model) -> int {
    |line: order_item::Model| line.quantity as int
}

/// The units of `product` sold on the business day `date`.
pub open spec fn units_sold(records: Records, date: int, product: Seq<char>) -> int {
    sum_where(records.items, sold_on(records.orders, date, product), line_units())
}

/// The number of lines of `product` sold on the business day `date`.
pub open spec fn lines_sold(records: Records, date: int, product: Seq<char>) -> int {
    count_where(records.items, sold_on(records.orders, date, product))
}

/// The test for the products sold on the business day `date`.
pub open spec fn was_sold(records: Records, date: int) -> spec_fn(product::Model) -> bool {
    |p: product::Model| lines_sold(records, date, p.id@) > 0
}

/// The number that puts the product sold most first.
pub open spec fn seller_rank(records: Records, date: int) -> spec_fn(product::Model) -> u128 {
    |p: product::Model| (UNITS_CEILING - units_sold(records, date, p.id@)) as u128
}

/// The positions of the best sellers of the business day `date`: the
/// products sold on it, the one sold most first, five at most.
pub open spec fn best_sellers(records: Records, date: int) -> Seq<usize> {
    page(
        ranked(
            marks_of(records.products, was_sold(records, date)),
            keys_of(records.products, seller_rank(records, date)),
        ),
        0,
        TOP_PRODUCTS as int,
    )
}

/// A product with the units of it sold on the business day `date`.
pub open spec fn seller_row(records: Records, date: int) -> spec_fn(product::Model) -> TopProduct {
    |p: product::Model|
        TopProduct {
            product_id: p.id,
            product_name: p.name,
            quantity: units_sold(records, date, p.id@) as i32,
        }
}

/// Whether the figures of the business day `date` can all be shown.
pub open spec fn stats_fit(records: Records, date: int) -> bool {
    &&& fits_i32(revenue_on(records.orders, date))
    &&& fits_i32(orders_on(records.orders, date))
    &&& fits_i32(taken_on(records.orders, records.transactions, date, PaymentMethod::Cash))
    &&& fits_i32(taken_on(records.orders, records.transactions, date, PaymentMethod::Card))
    &&& forall|j: int|
        0 <= j < best_sellers(records, date).len() ==> fits_i32(
            units_sold(
                records,
                date,
                records.products[(#[trigger] best_sellers(records, date)[j]) as int].id@,
            ),
        )
}

impl DashboardStats {
    /// Whether these are the figures of the business day `date`.
    pub open spec fn tells(&self, records: Records, date: int) -> bool {
        &&& self.daily_revenue == revenue_on(records.orders, date)
        &&& self.total_orders == orders_on(records.orders, date)
        &&& self.payment_method_breakdown.cash == taken_on(
            records.orders,
            records.transactions,
            date,
            PaymentMethod::Cash,
        )
        &&& self.payment_method_breakdown.card == taken_on(
            records.orders,
            records.transactions,
            date,
            PaymentMethod::Card,
        )
        &&& self.top_products@ == shown_by(
            records.products,
            best_sellers(records, date),
            seller_row(records, date),
        )
    }
}

/// What asking for the figures of the business day `date` gives: the
/// figures, or a refusal when one of them cannot be shown.
pub open spec fn stats_shown(records: Records, date: int, out: Result<DashboardStats, AppError>) -> bool {
    if stats_fit(records, date) {
        out matches Ok(stats) && stats.tells(records, date)
    } else {
        refused(out, ErrorKind::Validation, "Amount out of range"@)
    }
}

/// The units and the lines of `product_id` sold on the business day
/// `date`.
fn product_sales(db: &Database, date: i64, product_id: &String) -> (sales: (i128, usize))
    ensures
        sales.0 == units_sold(db@, date as int, product_id@),
        sales.1 == lines_sold(db@, date as int, product_id@),
        -0x8000_0000_0000_0000_0000_0000 <= sales.0 <= 0x8000_0000_0000_0000_0000_0000,
{
    let mut units: i128 = 0;
    let mut lines: usize = 0;
    let mut i: usize = 0;
    let ghost pick = sold_on(db@.orders, date as int, product_id@);
    while i < db.items.len()
        invariant
            i <= db.items.len(),
            pick == sold_on(db@.orders, date as int, product_id@),
            units == sum_where(db@.items.take(i as int), pick, line_units()),
            lines == count_where(db@.items.take(i as int), pick),
            lines <= i,
            -(i * SUMMAND_LIMIT) <= units <= i * SUMMAND_LIMIT,
        decreases db.items.len() - i,
    {
        proof {
            lemma_sum_step(db@.items, i as int, pick, line_units());
            lemma_sum_step(db@.items, i as int, pick, unit());
        }
        let line = &db.items[i];
        if line.product_id == *product_id {
            if let Some(at) = position(&db.orders, &line.order_id) {
                if db.orders[at].status == OrderStatus::Closed && business_date(
                    db.orders[at].created_at,
                ) == date {
                    units = units + line.quantity as i128;
                    lines = lines + 1;
                }
            }
        }
        i += 1;
    }
    proof {
        assert(db@.items.take(db.items.len() as int) =~= db@.items);
    }
    (units, lines)
}

/// The positions of the best sellers of the business day `date`.
fn rank_sellers(db: &Database, date: i64) -> (at: Vec<usize>)
    ensures
        at@ == best_sellers(db@, date as int),
        within(at@, db@.products.len() as int),
{
    let mut marks: Vec<bool> = Vec::new();
    let mut keys: Vec<u128> = Vec::new();
    let mut i: usize = 0;
    while i < db.products.len()
        invariant
            i <= db.products.len(),
            marks.len() == i,
            keys.len() == i,
            forall|k: int|
                0 <= k < i ==> #[trigger] marks[k] == was_sold(db@, date as int)(db@.products[k]),
            forall|k: int|
                0 <= k < i ==> #[trigger] keys[k] == seller_rank(db@, date as int)(db@.products[k]),
        decreases db.products.len() - i,
    {
        let sales = product_sales(db, date, &db.products[i].id);
        marks.push(sales.1 > 0);
        keys.push((UNITS_CEILING as i128 - sales.0) as u128);
        i += 1;
    }
    proof {
        assert(marks@ =~= marks_of(db@.products, was_sold(db@, date as int)));
        assert(keys@ =~= keys_of(db@.products, seller_rank(db@, date as int)));
    }
    let all = select_ranked(&marks, &keys);
    page_of(&all, 0, TOP_PRODUCTS, Ghost(db.products.len() as int))
}

/// The figures of the business day `date`: revenue and number of its
/// tabs, what was paid in cash and by card, and its best sellers. Fails
/// with `Validation` exactly when a figure cannot be shown.
pub fn dashboard_stats_on(db: &Database, date: i64) -> (out: Result<DashboardStats, AppError>)
    ensures
        stats_shown(db@, date as int, out),
{
    let figures = day_figures(db, date);
    proof {
        lemma_count_bounds(db@.orders, closed_on(date as int));
    }
    let low = i32::MIN as i128;
    let high = i32::MAX as i128;
    if figures.revenue < low || figures.revenue > high || figures.orders > i32::MAX as usize
        || figures.cash < low || figures.cash > high || figures.card < low || figures.card > high {
        return Err(AppError::validation("Amount out of range"));
    }
    let at = rank_sellers(db, date);
    let mut top: Vec<TopProduct> = Vec::new();
    let mut j: usize = 0;
    while j < at.len()
        invariant
            j <= at.len(),
            low == i32::MIN,
            high == i32::MAX,
            at@ == best_sellers(db@, date as int),
            within(at@, db@.products.len() as int),
            top.len() == j,
            forall|k: int|
                0 <= k < j ==> fits_i32(
                    units_sold(db@, date as int, db@.products[(#[trigger] at[k]) as int].id@),
                ),
            forall|k: int|
                0 <= k < j ==> #[trigger] top[k] == seller_row(db@, date as int)(
                    db@.products[at[k] as int],
                ),
        decreases at.len() - j,
    {
        let p = &db.products[at[j]];
        let sales = product_sales(db, date, &p.id);
        let ghost units = units_sold(
            db@,
            date as int,
            db@.products[best_sellers(db@, date as int)[j as int] as int].id@,
        );
        proof {
            assert(sales.0 == units);
        }
        if sales.0 < low || sales.0 > high {
            proof {
                assert(!fits_i32(units));
            }
            return Err(AppError::validation("Amount out of range"));
        }
        top.push(
            TopProduct {
                product_id: p.id.clone(),
                product_name: p.name.clone(),
                quantity: sales.0 as i32,
            },
        );
        j += 1;
    }
    proof {
        assert(top@ =~= shown_by(
            db@.products,
            best_sellers(db@, date as int),
            seller_row(db@, date as int),
        ));
    }
    Ok(
        DashboardStats {
            daily_revenue: figures.revenue as i32,
            total_orders: figures.orders as i32,
            payment_method_breakdown: PaymentBreakdown {
                cash: figures.cash as i32,
                card: figures.card as i32,
            },
            top_products: top,
        },
    )
}

/// The figures of the business day that is running at the instant read
/// from the clock; whatever that instant is, they are those that
/// `dashboard_stats_on` gives for its business day.
pub fn get_dashboard_stats(db: &Database) -> (out: Result<DashboardStats, AppError>)
    ensures
        exists|now: Timestamp|
            now.second < SECONDS_PER_DAY && stats_shown(db@, now.business_day(), out),
{
    let now = local_now();
    let out = dashboard_stats_on(db, business_date(now));
    proof {
        assert(stats_shown(db@, now.business_day(), out));
    }
    out
}

/// The tabs and the revenue of one hour of the day.
#[derive(Debug, PartialEq, Eq)]
pub struct HourlyActivity {
    /// The hour of the day, from 0 to 23.
    pub hour: u32,
    pub revenue: i32,
    pub order_count: i32,
}

/// What a category sold.
#[derive(Debug, PartialEq, Eq)]
pub struct CategoryBreakdownItem {
    pub category_name: String,
    pub revenue: i32,
    pub quantity: i32,
}

/// The figures of a business day with the state of the room.
#[derive(Debug, PartialEq, Eq)]
pub struct ExtendedDashboardStats {
    pub daily_revenue: i32,
    pub total_orders: i32,
    pub payment_method_breakdown: PaymentBreakdown,
    pub top_products: Vec<TopProduct>,
    pub open_tables: i32,
    pub pending_orders: i32,
    pub hourly_activity: Vec<HourlyActivity>,
    pub category_breakdown: Vec<CategoryBreakdownItem>,
    pub bottom_products: Vec<TopProduct>,
    pub daily_expenses: i32,
}

/// Hours in a day.
pub const HOURS_PER_DAY: u32 = 24;

/// Seconds in an hour.
pub const SECONDS_PER_HOUR: u32 = 3_600;

/// The test for the tabs of the business day `date` created in the hour
/// `hour` of the day.
pub open spec fn in_hour(date: int, hour: int) -> spec_fn(order::Model) -> bool {
    |order: order::Model|
        closed_on(date)(order) && order.created_at.second / SECONDS_PER_HOUR == hour
}

/// The test for the tabs that are open.
pub open spec fn is_open() -> spec_fn(order::Model) -> bool {
    |order: order::Model| order.status == OrderStatus::Open
}

/// The revenue of the hour `hour` of the business day `date`.
pub open spec fn hour_revenue(orders: Seq<order::Model>, date: int, hour: int) -> int {
    sum_where(orders, in_hour(date, hour), order_worth())
}

/// The number of tabs of the hour `hour` of the business day `date`.
pub open spec fn hour_orders(orders: Seq<order::Model>, date: int, hour: int) -> int {
    count_where(orders, in_hour(date, hour))
}

/// The activity of the first `n` hours of the day that had any, hour by
/// hour.
pub open spec fn hourly_upto(orders: Seq<order::Model>, date: int, n: int) -> Seq<HourlyActivity>
    decreases n,
{
    if n <= 0 {
        Seq::empty()
    } else if hour_orders(orders, date, n - 1) > 0 {
        hourly_upto(orders, date, n - 1).push(
            HourlyActivity {
                hour: (n - 1) as u32,
                revenue: hour_revenue(orders, date, n - 1) as i32,
                order_count: hour_orders(orders, date, n - 1) as i32,
            },
        )
    } else {
        hourly_upto(orders, date, n - 1)
    }
}

/// Whether the figures of the business day `date` and the state of the
/// room can all be shown.
pub open spec fn extended_fit(records: Records, date: int) -> bool {
    &&& stats_fit(records, date)
    &&& fits_i32(count_where(records.orders, is_open()))
    &&& fits_i32(spent_on(records.expenses, date))
    &&& forall|h: int|
        0 <= h < HOURS_PER_DAY ==> fits_i32(#[trigger] hour_revenue(records.orders, date, h))
            && fits_i32(hour_orders(records.orders, date, h))
}

impl ExtendedDashboardStats {
    /// Whether these are the figures of the business day `date` and the
    /// state of the room.
    pub open spec fn tells(&self, records: Records, date: int) -> bool {
        &&& self.daily_revenue == revenue_on(records.orders, date)
        &&& self.total_orders == orders_on(records.orders, date)
        &&& self.payment_method_breakdown.cash == taken_on(
            records.orders,
            records.transactions,
            date,
            PaymentMethod::Cash,
        )
        &&& self.payment_method_breakdown.card == taken_on(
            records.orders,
            records.transactions,
            date,
            PaymentMethod::Card,
        )
        &&& self.top_products@ == shown_by(
            records.products,
            best_sellers(records, date),
            seller_row(records, date),
        )
        &&& self.open_tables == count_where(records.orders, is_open())
        &&& self.pending_orders == count_where(records.orders, is_open())
        &&& self.hourly_activity@ == hourly_upto(records.orders, date, HOURS_PER_DAY as int)
        &&& self.category_breakdown@.len() == 0
        &&& self.bottom_products@.len() == 0
        &&& self.daily_expenses == spent_on(records.expenses, date)
    }
}

/// What asking for the extended figures of the business day `date` gives.
pub open spec fn extended_shown(
    records: Records,
    date: int,
    out: Result<ExtendedDashboardStats, AppError>,
) -> bool {
    if extended_fit(records, date) {
        out matches Ok(stats) && stats.tells(records, date)
    } else {
        refused(out, ErrorKind::Validation, "Amount out of range"@)
    }
}

/// The revenue and the number of tabs of the hour `hour` of the business
/// day `date`.
fn hour_sales(orders: &Vec<order::Model>, date: i64, hour: u32) -> (sales: (i128, usize))
    ensures
        sales.0 == hour_revenue(orders@, date as int, hour as int),
        sales.1 == hour_orders(orders@, date as int, hour as int),
{
    let mut revenue: i128 = 0;
    let mut count: usize = 0;
    let mut i: usize = 0;
    let ghost pick = in_hour(date as int, hour as int);
    while i < orders.len()
        invariant
            i <= orders.len(),
            pick == in_hour(date as int, hour as int),
            revenue == sum_where(orders@.take(i as int), pick, order_worth()),
            count == count_where(orders@.take(i as int), pick),
            -(i * SUMMAND_LIMIT) <= revenue <= i * SUMMAND_LIMIT,
            count <= i,
        decreases orders.len() - i,
    {
        proof {
            lemma_sum_step(orders@, i as int, pick, order_worth());
            lemma_sum_step(orders@, i as int, pick, unit());
        }
        if orders[i].status == OrderStatus::Closed && business_date(orders[i].created_at) == date
            && orders[i].created_at.second / SECONDS_PER_HOUR == hour {
            revenue = revenue + orders[i].total_amount as i128;
            count = count + 1;
        }
        i += 1;
    }
    proof {
        assert(orders@.take(orders.len() as int) =~= orders@);
    }
    (revenue, count)
}

/// The number of open tabs.
fn open_count(orders: &Vec<order::Model>) -> (count: usize)
    ensures
        count == count_where(orders@, is_open()),
{
    let mut count: usize = 0;
    let mut i: usize = 0;
    while i < orders.len()
        invariant
            i <= orders.len(),
            count <= i,
            count == count_where(orders@.take(i as int), is_open()),
        decreases orders.len() - i,
    {
        proof {
            lemma_sum_step(orders@, i as int, is_open(), unit());
        }
        if orders[i].status == OrderStatus::Open {
            count += 1;
        }
        i += 1;
    }
    proof {
        assert(orders@.take(orders.len() as int) =~= orders@);
    }
    count
}

/// The figures of the business day `date` with the state of the room:
/// the number of open tabs, the expenses of the day, and its activity
/// hour by hour. Fails with `Validation` exactly when a figure cannot be
/// shown.
pub fn extended_dashboard_stats_on(db: &Database, date: i64) -> (out: Result<
    ExtendedDashboardStats,
    AppError,
>)
    ensures
        extended_shown(db@, date as int, out),
{
    let base = match dashboard_stats_on(db, date) {
        Ok(base) => base,
        Err(e) => { return Err(e); },
    };
    let low = i32::MIN as i128;
    let high = i32::MAX as i128;
    let open = open_count(&db.orders);
    let spent = day_expenses(&db.expenses, date);
    if open > i32::MAX as usize || spent < low || spent > high {
        return Err(AppError::validation("Amount out of range"));
    }
    let mut hourly: Vec<HourlyActivity> = Vec::new();
    let mut hour: u32 = 0;
    while hour < HOURS_PER_DAY
        invariant
            hour <= HOURS_PER_DAY,
            low == i32::MIN,
            high == i32::MAX,
            hourly@ == hourly_upto(db@.orders, date as int, hour as int),
            forall|h: int|
                0 <= h < hour ==> fits_i32(#[trigger] hour_revenue(db@.orders, date as int, h))
                    && fits_i32(hour_orders(db@.orders, date as int, h)),
        decreases HOURS_PER_DAY - hour,
    {
        let sales = hour_sales(&db.orders, date, hour);
        if sales.0 < low || sales.0 > high || sales.1 > i32::MAX as usize {
            proof {
                assert(!(fits_i32(hour_revenue(db@.orders, date as int, hour as int)) && fits_i32(
                    hour_orders(db@.orders, date as int, hour as int),
                )));
            }
            return Err(AppError::validation("Amount out of range"));
        }
        if sales.1 > 0 {
            hourly.push(
                HourlyActivity { hour, revenue: sales.0 as i32, order_count: sales.1 as i32 },
            );
        }
        proof {
            assert(fits_i32(hour_revenue(db@.orders, date as int, hour as int)) && fits_i32(
                hour_orders(db@.orders, date as int, hour as int),
            ));
        }
        hour += 1;
    }
    Ok(
        ExtendedDashboardStats {
            daily_revenue: base.daily_revenue,
            total_orders: base.total_orders,
            payment_method_breakdown: base.payment_method_breakdown,
            top_products: base.top_products,
            open_tables: open as i32,
            pending_orders: open as i32,
            hourly_activity: hourly,
            category_breakdown: Vec::new(),
            bottom_products: Vec::new(),
            daily_expenses: spent as i32,
        },
    )
}

/// The extended figures of the business day that is running at the
/// instant read from the clock; whatever that instant is, they are those
/// that `extended_dashboard_stats_on` gives for its business day.
pub fn get_extended_dashboard_stats(db: &Database) -> (out: Result<ExtendedDashboardStats, AppError>)
    ensures
        exists|now: Timestamp|
            now.second < SECONDS_PER_DAY && extended_shown(db@, now.business_day(), out),
{
    let now = local_now();
    let out = extended_dashboard_stats_on(db, business_date(now));
    proof {
        assert(extended_shown(db@, now.business_day(), out));
    }
    out
}

/// The revenue and the number of tabs of one business day.
#[derive(Debug, PartialEq, Eq)]
pub struct RevenueTrendItem {
    pub date: i64,
    pub revenue: i32,
    pub order_count: i32,
}

/// Days that the trend reaches back when the caller names no number.
pub const DEFAULT_TREND_DAYS: i32 = 7;

/// The test for the tabs of the trend from the business day `from` on:
/// the closed ones of that day and of the days after it.
pub open spec fn in_trend(from: int) -> spec_fn(order::Model) -> bool {
    |order: order::Model|
        order.status == OrderStatus::Closed && order.created_at.business_day() >= from
}

/// The number that puts the tab of the earliest business day first.
pub open spec fn trend_rank() -> spec_fn(order::Model) -> u128 {
    |order: order::Model| (order.created_at.business_day() + 0x1_0000_0000) as u128
}

/// Whether `rows` has a row for the business day `date`.
pub open spec fn has_row(rows: Seq<RevenueTrendItem>, date: int) -> bool {
    exists|r: int| 0 <= r < rows.len() && (#[trigger] rows[r]).date == date
}

/// Whether `rows` is the trend from the business day `from` on: one row
/// for every business day that has a tab of the trend, in the order of
/// the days, each with the revenue and the number of tabs of its day.
pub open spec fn is_trend(orders: Seq<order::Model>, from: int, rows: Seq<RevenueTrendItem>) -> bool {
    &&& forall|a: int, b: int|
        0 <= a < b < rows.len() ==> (#[trigger] rows[a]).date < (#[trigger] rows[b]).date
    &&& forall|r: int|
        0 <= r < rows.len() ==> (#[trigger] rows[r]).date >= from && orders_on(
            orders,
            rows[r].date as int,
        ) > 0 && rows[r].revenue == revenue_on(orders, rows[r].date as int) && rows[r].order_count
            == orders_on(orders, rows[r].date as int)
    &&& forall|i: int|
        0 <= i < orders.len() && in_trend(from)(#[trigger] orders[i]) ==> has_row(
            rows,
            orders[i].created_at.business_day(),
        )
}

/// Whether the figures of every business day of the trend can be shown.
pub open spec fn trend_fits(orders: Seq<order::Model>, from: int) -> bool {
    forall|i: int|
        0 <= i < orders.len() && in_trend(from)(#[trigger] orders[i]) ==> fits_i32(
            revenue_on(orders, orders[i].created_at.business_day()),
        ) && fits_i32(orders_on(orders, orders[i].created_at.business_day()))
}

/// What asking for the trend from the business day `from` on gives.
pub open spec fn trend_shown(
    orders: Seq<order::Model>,
    from: int,
    out: Result<Vec<RevenueTrendItem>, AppError>,
) -> bool {
    if trend_fits(orders, from) {
        out matches Ok(rows) && is_trend(orders, from, rows@)
    } else {
        refused(out, ErrorKind::Validation, "Amount out of range"@)
    }
}

/// Revenue and number of tabs per business day, from the business day
/// `from` on, in the order of the days. Fails with `Validation` exactly
/// when a figure cannot be shown.
pub fn revenue_trend_from(db: &Database, from: i64) -> (out: Result<Vec<RevenueTrendItem>, AppError>)
    ensures
        trend_shown(db@.orders, from as int, out),
{
    let mut marks: Vec<bool> = Vec::new();
    let mut keys: Vec<u128> = Vec::new();
    let mut i: usize = 0;
    while i < db.orders.len()
        invariant
            i <= db.orders.len(),
            marks.len() == i,
            keys.len() == i,
            forall|k: int| 0 <= k < i ==> #[trigger] marks[k] == in_trend(from as int)(db@.orders[k]),
            forall|k: int| 0 <= k < i ==> #[trigger] keys[k] == trend_rank()(db@.orders[k]),
        decreases db.orders.len() - i,
    {
        let record = &db.orders[i];
        let day = business_date(record.created_at);
        marks.push(record.status == OrderStatus::Closed && day >= from);
        keys.push((day + 0x1_0000_0000) as u128);
        i += 1;
    }
    let all = select_ranked(&marks, &keys);
    let ghost orders = db@.orders;
    let mut rows: Vec<RevenueTrendItem> = Vec::new();
    let mut j: usize = 0;
    while j < all.len()
        invariant
            j <= all.len(),
            orders == db@.orders,
            marks.len() == orders.len(),
            keys.len() == orders.len(),
            forall|k: int| 0 <= k < orders.len() ==> #[trigger] marks[k] == in_trend(from as int)(orders[k]),
            forall|k: int| 0 <= k < orders.len() ==> #[trigger] keys[k] == trend_rank()(orders[k]),
            lists_ranked(marks@, keys@, all@),
            forall|a: int, b: int|
                0 <= a < b < rows.len() ==> (#[trigger] rows[a]).date < (#[trigger] rows[b]).date,
            forall|r: int|
                0 <= r < rows.len() ==> (#[trigger] rows[r]).date >= from && orders_on(
                    orders,
                    rows[r].date as int,
                ) > 0 && rows[r].revenue == revenue_on(orders, rows[r].date as int)
                    && rows[r].order_count == orders_on(orders, rows[r].date as int),
            forall|k: int|
                0 <= k < j ==> has_row(rows@, orders[(#[trigger] all[k]) as int].created_at.business_day()),
            j > 0 ==> rows.len() > 0 && rows[rows.len() - 1].date
                == orders[all[j - 1] as int].created_at.business_day(),
            j == 0 ==> rows.len() == 0,
        decreases all.len() - j,
    {
        let at = all[j];
        let day = business_date(db.orders[at].created_at);
        proof {
            assert(marks[at as int]);
            assert(keys[at as int] == trend_rank()(orders[at as int]));
            if j > 0 {
                let last = all[j - 1] as int;
                assert(precedes(keys@, last, at as int));
                assert(keys[last] == trend_rank()(orders[last]));
                assert(orders[last].created_at.business_day() <= day);
            }
        }
        let ghost before = rows@;
        if rows.len() == 0 || rows[rows.len() - 1].date != day {
            let sales = day_sales(&db.orders, day);
            proof {
                lemma_count_bounds(orders, closed_on(day as int));
                crate::tally::lemma_count_positive(orders, closed_on(day as int), at as int);
            }
            if sales.0 < i32::MIN as i128 || sales.0 > i32::MAX as i128 || sales.1 > i32::MAX as usize {
                proof {
                    assert(in_trend(from as int)(orders[at as int]));
                }
                return Err(AppError::validation("Amount out of range"));
            }
            rows.push(
                RevenueTrendItem { date: day, revenue: sales.0 as i32, order_count: sales.1 as i32 },
            );
            proof {
                let n = before.len() as int;
                assert(rows@[n].date == day);
                assert forall|a: int, b: int| 0 <= a < b < rows.len() implies (
                #[trigger] rows[a]).date < (#[trigger] rows[b]).date by {
                    assert(rows[a] == before[a]);
                    if b < n {
                        assert(rows[b] == before[b]);
                        assert(before[a].date < before[b].date);
                    } else {
                        assert(before[n - 1].date < day);
                        if a < n - 1 {
                            assert(before[a].date < before[n - 1].date);
                        }
                    }
                }
            }
        }
        proof {
            assert forall|k: int| 0 <= k < j + 1 implies has_row(
                rows@,
                orders[(#[trigger] all[k]) as int].created_at.business_day(),
            ) by {
                if k < j {
                    let r = choose|r: int|
                        0 <= r < before.len() && (#[trigger] before[r]).date
                            == orders[all[k] as int].created_at.business_day();
                    assert(rows@[r].date == orders[all[k] as int].created_at.business_day());
                } else {
                    assert(rows@[rows.len() - 1].date == day);
                }
            }
        }
        j += 1;
    }
    proof {
        assert forall|i: int|
            0 <= i < orders.len() && in_trend(from as int)(#[trigger] orders[i]) implies has_row(
            rows@,
            orders[i].created_at.business_day(),
        ) && fits_i32(revenue_on(orders, orders[i].created_at.business_day())) && fits_i32(
            orders_on(orders, orders[i].created_at.business_day()),
        ) by {
            assert(marks[i]);
            assert(all@.contains(i as usize));
            let k = choose|k: int| 0 <= k < all.len() && all[k] == i as usize;
            assert(has_row(rows@, orders[all[k] as int].created_at.business_day()));
            let r = choose|r: int|
                0 <= r < rows.len() && (#[trigger] rows[r]).date
                    == orders[i].created_at.business_day();
        }
    }
    Ok(rows)
}

/// The number of days that `days` stands for, 7 where none is named.
pub open spec fn days_or_default(days: Option<i32>) -> int {
    match days {
        Some(n) => n as int,
        None => DEFAULT_TREND_DAYS as int,
    }
}

/// Revenue and number of tabs per business day over the last `days`
/// business days, 7 where no number is named, counted back from the
/// business day of the instant `now`.
pub fn revenue_trend_at(db: &Database, days: Option<i32>, now: Timestamp) -> (out: Result<
    Vec<RevenueTrendItem>,
    AppError,
>)
    ensures
        trend_shown(db@.orders, now.business_day() - days_or_default(days), out),
{
    let days = match days {
        Some(n) => n,
        None => DEFAULT_TREND_DAYS,
    };
    revenue_trend_from(db, business_date(now) - days as i64)
}

/// Revenue and number of tabs per business day over the last `days`
/// business days, counted back from the instant read from the clock;
/// whatever that instant is, the outcome is that of `revenue_trend_at`
/// for it.
pub fn get_revenue_trend(db: &Database, days: Option<i32>) -> (out: Result<
    Vec<RevenueTrendItem>,
    AppError,
>)
    ensures
        exists|now: Timestamp|
            now.second < SECONDS_PER_DAY && trend_shown(
                db@.orders,
                now.business_day() - days_or_default(days),
                out,
            ),
{
    let now = local_now();
    let out = revenue_trend_at(db, days, now);
    proof {
        assert(trend_shown(db@.orders, now.business_day() - days_or_default(days), out));
    }
    out
}

} // verus!
