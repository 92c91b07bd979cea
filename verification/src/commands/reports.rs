//! The daily close-out report.

use crate::clock::SECONDS_PER_DAY;
use crate::clock::Timestamp;
use crate::clock::business_date;
use crate::clock::local_now;
use crate::clock::newest_first_key;
use crate::clock::newest_first_rank;
use crate::db::Database;
use crate::db::Records;
use crate::db::fits_i32;
use crate::db::has_summary;
use crate::db::summary_on;
use crate::db::summary_position;
use crate::entities::activity_log;
use crate::entities::daily_summary;
use crate::entities::monthly_report;
use crate::entities::transaction::PaymentMethod;
use crate::error::AppError;
use crate::error::ErrorKind;
use crate::error::refused;
use crate::figures::day_figures;
use crate::figures::orders_on;
use crate::figures::revenue_on;
use crate::figures::spent_on;
use crate::figures::taken_on;
use crate::ident::random_id;
use crate::ident::time_ordered_id;
use crate::listing::Shown;
use crate::listing::any;
use crate::listing::keys_of;
use crate::listing::marks_of;
use crate::listing::page;
use crate::listing::page_of;
use crate::listing::ranked;
use crate::listing::ranked_by_text;
use crate::listing::reverse_of;
use crate::listing::reversed;
use crate::listing::rows_at;
use crate::listing::select_by_text;
use crate::listing::select_ranked;
use crate::listing::show_all;
use crate::listing::texts_of;
use crate::record::has_key;
use crate::record::position;
use crate::tally::lemma_count_bounds;
use crate::text::contains;
use crate::text::contains_text;
use vstd::prelude::*;

verus! {

/// The close-out of one business day as shown to the operator.
#[derive(Debug, PartialEq, Eq)]
pub struct DailySummaryResponse {
    pub id: String,
    pub date: i64,
    pub total_cash: i32,
    pub actual_cash: Option<i32>,
    pub total_card: i32,
    pub total_expenses: i32,
    pub net_profit: i32,
    pub cancel_count: i32,
    pub total_vat: i32,
    pub order_count: i32,
    pub total_revenue: i32,
    pub created_at: Timestamp,
}

/// The summary `s` as shown: every field as kept.
pub open spec fn report_of(s: daily_summary::Model) -> DailySummaryResponse {
    DailySummaryResponse {
        id: s.id,
        date: s.date,
        total_cash: s.total_cash,
        actual_cash: s.actual_cash,
        total_card: s.total_card,
        total_expenses: s.total_expenses,
        net_profit: s.net_profit,
        cancel_count: s.cancel_count,
        total_vat: s.total_vat,
        order_count: s.order_count,
        total_revenue: s.total_revenue,
        created_at: s.created_at,
    }
}

impl From<daily_summary::Model> for DailySummaryResponse {
    fn from(s: daily_summary::Model) -> (shown: Self) {
        Self {
            id: s.id,
            date: s.date,
            total_cash: s.total_cash,
            actual_cash: s.actual_cash,
            total_card: s.total_card,
            total_expenses: s.total_expenses,
            net_profit: s.net_profit,
            cancel_count: s.cancel_count,
            total_vat: s.total_vat,
            order_count: s.order_count,
            total_revenue: s.total_revenue,
            created_at: s.created_at,
        }
    }
}

impl vstd::std_specs::convert::FromSpecImpl<daily_summary::Model> for DailySummaryResponse {
    open spec fn obeys_from_spec() -> bool {
        true
    }

    open spec fn from_spec(s: daily_summary::Model) -> Self {
        report_of(s)
    }
}

/// The summary of the business day `date` as computed from the records:
/// revenue and count from the day's closed tabs, the cash and card split
/// from their payments, the expenses of the day, and the profit that
/// remains.
pub open spec fn day_summary(
    pre: Records,
    date: int,
    actual_cash: Option<i32>,
    id: String,
    now: Timestamp,
) -> daily_summary::Model {
    daily_summary::Model {
        id,
        date: date as i64,
        total_cash: taken_on(pre.orders, pre.transactions, date, PaymentMethod::Cash) as i32,
        actual_cash,
        total_card: taken_on(pre.orders, pre.transactions, date, PaymentMethod::Card) as i32,
        total_expenses: spent_on(pre.expenses, date) as i32,
        net_profit: (revenue_on(pre.orders, date) - spent_on(pre.expenses, date)) as i32,
        cancel_count: 0,
        total_vat: 0,
        order_count: orders_on(pre.orders, date) as i32,
        total_revenue: revenue_on(pre.orders, date) as i32,
        created_at: now,
    }
}

/// Whether every figure of the business day `date` can be kept in a
/// summary.
pub open spec fn figures_fit(pre: Records, date: int) -> bool {
    &&& fits_i32(revenue_on(pre.orders, date))
    &&& fits_i32(orders_on(pre.orders, date))
    &&& fits_i32(taken_on(pre.orders, pre.transactions, date, PaymentMethod::Cash))
    &&& fits_i32(taken_on(pre.orders, pre.transactions, date, PaymentMethod::Card))
    &&& fits_i32(spent_on(pre.expenses, date))
    &&& fits_i32(revenue_on(pre.orders, date) - spent_on(pre.expenses, date))
}

/// Why no summary can be created for the business day `date` under the
/// key `id`, if none can.
pub open spec fn report_refusal(pre: Records, date: int, id: Seq<char>) -> Option<
    (ErrorKind, Seq<char>),
> {
    if !figures_fit(pre, date) {
        Some((ErrorKind::Validation, "Amount out of range"@))
    } else if has_key(pre.summaries, id) {
        Some((ErrorKind::Database, "UNIQUE constraint failed: DailySummary.id"@))
    } else {
        None
    }
}

/// What closing out the business day of `now` does, given the key `id`
/// for a new summary.
///
/// A day that has its summary keeps it: nothing is computed again, and the
/// kept summary is the answer. Otherwise the summary is computed from the
/// records and appended.
pub open spec fn report_made(
    pre: Records,
    post: Records,
    actual_cash: Option<i32>,
    id: String,
    now: Timestamp,
    out: Result<DailySummaryResponse, AppError>,
) -> bool {
    let date = now.business_day();
    if has_summary(pre.summaries, date) {
        post == pre && out == Ok::<DailySummaryResponse, AppError>(
            report_of(summary_on(pre.summaries, date)),
        )
    } else {
        match report_refusal(pre, date, id@) {
            Some((kind, text)) => post == pre && refused(out, kind, text),
            None => {
                let summary = day_summary(pre, date, actual_cash, id, now);
                &&& post == (Records { summaries: pre.summaries.push(summary), ..pre })
                &&& out == Ok::<DailySummaryResponse, AppError>(report_of(summary))
            },
        }
    }
}

/// Closes out the business day of `now`: answers with the day's summary
/// if it has one, and otherwise computes it, keeps it under the key `id`
/// and answers with it.
pub fn generate_zreport_with(
    db: &mut Database,
    actual_cash: Option<i32>,
    id: String,
    now: Timestamp,
) -> (out: Result<DailySummaryResponse, AppError>)
    requires
        old(db).wf(),
    ensures
        final(db).wf(),
        report_made(old(db)@, final(db)@, actual_cash, id, now, out),
{
    let today = business_date(now);
    if let Some(at) = summary_position(&db.summaries, today) {
        return Ok(DailySummaryResponse::from(db.summaries[at].clone()));
    }
    let figures = day_figures(db, today);
    proof {
        lemma_count_bounds(db@.orders, crate::figures::closed_on(today as int));
    }
    let low = i32::MIN as i128;
    let high = i32::MAX as i128;
    if figures.revenue < low || figures.revenue > high || figures.orders > i32::MAX as usize
        || figures.cash < low || figures.cash > high || figures.card < low || figures.card > high
        || figures.expenses < low || figures.expenses > high {
        return Err(AppError::validation("Amount out of range"));
    }
    let profit = figures.revenue - figures.expenses;
    if profit < low || profit > high {
        return Err(AppError::validation("Amount out of range"));
    }
    if position(&db.summaries, &id).is_some() {
        return Err(AppError::database("UNIQUE constraint failed: DailySummary.id"));
    }
    let summary = daily_summary::Model {
        id,
        date: today,
        total_cash: figures.cash as i32,
        actual_cash,
        total_card: figures.card as i32,
        total_expenses: figures.expenses as i32,
        net_profit: profit as i32,
        cancel_count: 0,
        total_vat: 0,
        order_count: figures.orders as i32,
        total_revenue: figures.revenue as i32,
        created_at: now,
    };
    db.summaries.push(summary.clone());
    proof {
        assert(db@.summaries =~= old(db)@.summaries.push(summary));
    }
    Ok(DailySummaryResponse::from(summary))
}

/// Closes out the current business day. The key of a new summary and the
/// instant are drawn here; whatever they are, the outcome is that of
/// `generate_zreport_with` for them.
pub fn generate_zreport(db: &mut Database, actual_cash: Option<i32>) -> (out: Result<
    DailySummaryResponse,
    AppError,
>)
    requires
        old(db).wf(),
    ensures
        final(db).wf(),
        exists|id: String, now: Timestamp|
            now.second < SECONDS_PER_DAY && report_made(
                old(db)@,
                final(db)@,
                actual_cash,
                id,
                now,
                out,
            ),
{
    let id = random_id();
    let now = local_now();
    let out = generate_zreport_with(db, actual_cash, id, now);
    proof {
        assert(report_made(old(db)@, db@, actual_cash, id, now, out));
    }
    out
}

/// Closing out a day twice gives the same summary both times: once a day
/// has its summary, closing it out again, at any instant of the same
/// business day and with any cash count, changes nothing and answers with
/// the summary of the first time.
pub proof fn lemma_zreport_idempotent(
    pre: Records,
    mid: Records,
    post: Records,
    first_cash: Option<i32>,
    first_id: String,
    first_now: Timestamp,
    first: Result<DailySummaryResponse, AppError>,
    second_cash: Option<i32>,
    second_id: String,
    second_now: Timestamp,
    second: Result<DailySummaryResponse, AppError>,
)
    requires
        pre.wf(),
        report_made(pre, mid, first_cash, first_id, first_now, first),
        report_made(mid, post, second_cash, second_id, second_now, second),
        first_now.business_day() == second_now.business_day(),
        first is Ok,
    ensures
        post == mid,
        second == first,
{
    let date = first_now.business_day();
    if !has_summary(pre.summaries, date) {
        let summary = day_summary(pre, date, first_cash, first_id, first_now);
        let n = pre.summaries.len() as int;
        assert(mid.summaries[n] == summary);
        assert(crate::db::is_first_summary(mid.summaries, date, n));
        let c = choose|c: int| crate::db::is_first_summary(mid.summaries, date, c);
        if c < n {
            assert(pre.summaries[c] == mid.summaries[c]);
        }
    }
}

impl Shown for daily_summary::Model {
    type Row = DailySummaryResponse;

    open spec fn row(&self) -> DailySummaryResponse {
        report_of(*self)
    }

    fn show(&self) -> (shown: DailySummaryResponse) {
        DailySummaryResponse::from(self.clone())
    }
}

/// Summaries shown when the caller names no limit.
pub const DEFAULT_REPORT_LIMIT: u64 = 30;

/// The test for the summaries of the days from `start` to `end`, each
/// bound applying only where it is given.
pub open spec fn in_days(start: Option<i64>, end: Option<i64>) -> spec_fn(daily_summary::Model) -> bool {
    |s: daily_summary::Model|
        (start matches Some(first) ==> s.date >= first) && (end matches Some(last) ==> s.date
            <= last)
}

/// The number that puts the latest day first.
pub open spec fn day_recency() -> spec_fn(daily_summary::Model) -> u128 {
    |s: daily_summary::Model| (i64::MAX - s.date) as u128
}

/// The limit that `limit` stands for, `default` where none is named.
pub open spec fn limit_or(limit: Option<u64>, default: u64) -> int {
    match limit {
        Some(n) => n as int,
        None => default as int,
    }
}

/// The limit that `limit` stands for, `default` where none is named.
pub fn limit_given(limit: Option<u64>, default: u64) -> (n: u64)
    ensures
        n == limit_or(limit, default),
{
    match limit {
        Some(n) => n,
        None => default,
    }
}

/// The summaries of the days from `start_date` to `end_date`, the latest
/// day first, at most `limit` of them and 30 where no limit is named.
pub fn get_zreport_history(
    db: &Database,
    limit: Option<u64>,
    start_date: Option<i64>,
    end_date: Option<i64>,
) -> (out: Result<Vec<DailySummaryResponse>, AppError>)
    ensures
        out matches Ok(list) && list@ == rows_at(
            db@.summaries,
            page(
                ranked(
                    marks_of(db@.summaries, in_days(start_date, end_date)),
                    keys_of(db@.summaries, day_recency()),
                ),
                0,
                limit_or(limit, DEFAULT_REPORT_LIMIT),
            ),
        ),
{
    let mut marks: Vec<bool> = Vec::new();
    let mut keys: Vec<u128> = Vec::new();
    let mut i: usize = 0;
    while i < db.summaries.len()
        invariant
            i <= db.summaries.len(),
            marks.len() == i,
            keys.len() == i,
            forall|k: int| 0 <= k < i ==> #[trigger] marks[k] == in_days(start_date, end_date)(db.summaries@[k]),
            forall|k: int| 0 <= k < i ==> #[trigger] keys[k] == day_recency()(db.summaries@[k]),
        decreases db.summaries.len() - i,
    {
        let record = &db.summaries[i];
        marks.push((match start_date {
            Some(first) => record.date >= first,
            None => true,
        }) && (match end_date {
            Some(last) => record.date <= last,
            None => true,
        }));
        keys.push((i64::MAX as i128 - record.date as i128) as u128);
        i += 1;
    }
    proof {
        assert(marks@ =~= marks_of(db.summaries@, in_days(start_date, end_date)));
        assert(keys@ =~= keys_of(db.summaries@, day_recency()));
    }
    let ranked = select_ranked(&marks, &keys);
    let at = page_of(
        &ranked,
        0,
        limit_given(limit, DEFAULT_REPORT_LIMIT),
        Ghost(db.summaries.len() as int),
    );
    Ok(show_all(&db.summaries, &at))
}

/// One month's figures as shown to the operator.
#[derive(Debug, PartialEq, Eq)]
pub struct MonthlyReportResponse {
    pub id: String,
    pub month_date: String,
    pub total_revenue: i32,
    pub total_expenses: i32,
    pub net_profit: i32,
    pub order_count: i32,
    pub updated_at: Timestamp,
}

impl Shown for monthly_report::Model {
    type Row = MonthlyReportResponse;

    open spec fn row(&self) -> MonthlyReportResponse {
        MonthlyReportResponse {
            id: self.id,
            month_date: self.month_date,
            total_revenue: self.total_revenue,
            total_expenses: self.total_expenses,
            net_profit: self.net_profit,
            order_count: self.order_count,
            updated_at: self.updated_at,
        }
    }

    fn show(&self) -> (shown: MonthlyReportResponse) {
        MonthlyReportResponse {
            id: self.id.clone(),
            month_date: self.month_date.clone(),
            total_revenue: self.total_revenue,
            total_expenses: self.total_expenses,
            net_profit: self.net_profit,
            order_count: self.order_count,
            updated_at: self.updated_at,
        }
    }
}

/// Months shown when the caller names no limit.
pub const DEFAULT_MONTH_LIMIT: u64 = 12;

/// The month a report is for.
pub open spec fn report_month() -> spec_fn(monthly_report::Model) -> String {
    |m: monthly_report::Model| m.month_date
}

/// The monthly reports, the latest month first, at most `limit` of them
/// and 12 where no limit is named.
pub fn get_monthly_reports(db: &Database, limit: Option<u64>) -> (out: Result<
    Vec<MonthlyReportResponse>,
    AppError,
>)
    ensures
        out matches Ok(list) && list@ == rows_at(
            db@.monthly_reports,
            page(
                reversed(
                    ranked_by_text(
                        marks_of(db@.monthly_reports, any()),
                        texts_of(db@.monthly_reports, report_month()),
                    ),
                ),
                0,
                limit_or(limit, DEFAULT_MONTH_LIMIT),
            ),
        ),
{
    let mut marks: Vec<bool> = Vec::new();
    let mut texts: Vec<String> = Vec::new();
    let mut i: usize = 0;
    while i < db.monthly_reports.len()
        invariant
            i <= db.monthly_reports.len(),
            marks.len() == i,
            texts.len() == i,
            forall|k: int| 0 <= k < i ==> #[trigger] marks[k] == any()(db.monthly_reports@[k]),
            forall|k: int| 0 <= k < i ==> #[trigger] texts[k] == report_month()(db.monthly_reports@[k]),
        decreases db.monthly_reports.len() - i,
    {
        let record = &db.monthly_reports[i];
        marks.push(true);
        texts.push(record.month_date.clone());
        i += 1;
    }
    proof {
        assert(marks@ =~= marks_of(db.monthly_reports@, any()));
        assert(texts@ =~= texts_of(db.monthly_reports@, report_month()));
    }
    let rising = select_by_text(&marks, &texts);
    let falling = reverse_of(&rising, Ghost(db.monthly_reports.len() as int));
    let at = page_of(
        &falling,
        0,
        limit_given(limit, DEFAULT_MONTH_LIMIT),
        Ghost(db.monthly_reports.len() as int),
    );
    Ok(show_all(&db.monthly_reports, &at))
}

/// An entry of the trail as shown to the operator.
#[derive(Debug, PartialEq, Eq)]
pub struct LogResponse {
    pub id: String,
    pub action: String,
    pub table_name: Option<String>,
    pub user_name: Option<String>,
    pub details: Option<String>,
    pub created_at: Timestamp,
}

/// The entry `l` as shown: every field as kept.
pub open spec fn log_row(l: activity_log::Model) -> LogResponse {
    LogResponse {
        id: l.id,
        action: l.action,
        table_name: l.table_name,
        user_name: l.user_name,
        details: l.details,
        created_at: l.created_at,
    }
}

impl From<activity_log::Model> for LogResponse {
    fn from(l: activity_log::Model) -> (shown: Self) {
        Self {
            id: l.id,
            action: l.action,
            table_name: l.table_name,
            user_name: l.user_name,
            details: l.details,
            created_at: l.created_at,
        }
    }
}

impl vstd::std_specs::convert::FromSpecImpl<activity_log::Model> for LogResponse {
    open spec fn obeys_from_spec() -> bool {
        true
    }

    open spec fn from_spec(l: activity_log::Model) -> Self {
        log_row(l)
    }
}

impl Shown for activity_log::Model {
    type Row = LogResponse;

    open spec fn row(&self) -> LogResponse {
        log_row(*self)
    }

    fn show(&self) -> (shown: LogResponse) {
        LogResponse::from(self.clone())
    }
}

/// Entries shown when the caller names no limit.
pub const DEFAULT_LOG_LIMIT: u64 = 100;

/// Which entries of the trail a list is to hold; what is absent does not
/// narrow the list.
pub struct LogFilter {
    /// The first calendar day to show.
    pub start_date: Option<i64>,
    /// The last calendar day to show.
    pub end_date: Option<i64>,
    /// A text that the action, the details or the table name must hold.
    pub search: Option<String>,
}

/// Whether the optional text `kept` holds `part`.
pub open spec fn holds_text(kept: Option<String>, part: Seq<char>) -> bool {
    kept matches Some(text) && contains_text(text@, part)
}

/// The test for the entries that `filter` asks for.
pub open spec fn log_wanted(filter: LogFilter) -> spec_fn(activity_log::Model) -> bool {
    |l: activity_log::Model|
        (filter.start_date matches Some(first) ==> l.created_at.day >= first) && (
        filter.end_date matches Some(last) ==> l.created_at.day <= last) && (
        filter.search matches Some(part) ==> contains_text(l.action@, part@) || holds_text(
            l.details,
            part@,
        ) || holds_text(l.table_name, part@))
}

/// The number that puts the latest entry first.
pub open spec fn log_recency() -> spec_fn(activity_log::Model) -> u128 {
    |l: activity_log::Model| newest_first_key(l.created_at)
}

/// Whether the optional text `kept` holds `part`.
fn text_holds(kept: &Option<String>, part: &String) -> (held: bool)
    ensures
        held == holds_text(*kept, part@),
{
    match kept {
        Some(text) => contains(text.as_str(), part.as_str()),
        None => false,
    }
}

/// Whether `record` passes `filter`.
fn is_log_wanted(record: &activity_log::Model, filter: &LogFilter) -> (passes: bool)
    ensures
        passes == log_wanted(*filter)(*record),
{
    let day: i64 = record.created_at.day as i64;
    (match filter.start_date {
        Some(first) => day >= first,
        None => true,
    }) && (match filter.end_date {
        Some(last) => day <= last,
        None => true,
    }) && (match &filter.search {
        Some(part) => contains(record.action.as_str(), part.as_str()) || text_holds(
            &record.details,
            part,
        ) || text_holds(&record.table_name, part),
        None => true,
    })
}

/// The entries of the trail that pass the filter, the latest first: from
/// the day `start_date` to the day `end_date`, holding `search`, skipping
/// `offset` entries and showing at most `limit`, 100 where no limit is
/// named.
pub fn get_recent_logs(
    db: &Database,
    limit: Option<u64>,
    start_date: Option<i64>,
    end_date: Option<i64>,
    offset: Option<u64>,
    search: Option<String>,
) -> (out: Result<Vec<LogResponse>, AppError>)
    ensures
        out matches Ok(list) && list@ == rows_at(
            db@.logs,
            page(
                ranked(
                    marks_of(db@.logs, log_wanted(LogFilter { start_date, end_date, search })),
                    keys_of(db@.logs, log_recency()),
                ),
                limit_or(offset, 0),
                limit_or(limit, DEFAULT_LOG_LIMIT),
            ),
        ),
{
    let filter = LogFilter { start_date, end_date, search };
    let mut marks: Vec<bool> = Vec::new();
    let mut keys: Vec<u128> = Vec::new();
    let mut i: usize = 0;
    while i < db.logs.len()
        invariant
            i <= db.logs.len(),
            marks.len() == i,
            keys.len() == i,
            forall|k: int| 0 <= k < i ==> #[trigger] marks[k] == log_wanted(filter)(db.logs@[k]),
            forall|k: int| 0 <= k < i ==> #[trigger] keys[k] == log_recency()(db.logs@[k]),
        decreases db.logs.len() - i,
    {
        let record = &db.logs[i];
        marks.push(is_log_wanted(record, &filter));
        keys.push(newest_first_rank(record.created_at));
        i += 1;
    }
    proof {
        assert(marks@ =~= marks_of(db.logs@, log_wanted(filter)));
        assert(keys@ =~= keys_of(db.logs@, log_recency()));
    }
    let ranked = select_ranked(&marks, &keys);
    let at = page_of(
        &ranked,
        limit_given(offset, 0),
        limit_given(limit, DEFAULT_LOG_LIMIT),
        Ghost(db.logs.len() as int),
    );
    Ok(show_all(&db.logs, &at))
}

/// What appending an entry to the trail does, given the key `id` and the
/// instant `now`.
pub open spec fn log_created(
    pre: Records,
    post: Records,
    entry: activity_log::Model,
    out: Result<LogResponse, AppError>,
) -> bool {
    if has_key(pre.logs, entry.id@) {
        post == pre && refused(out, ErrorKind::Database, "UNIQUE constraint failed: ActivityLog.id"@)
    } else {
        &&& post == (Records { logs: pre.logs.push(entry), ..pre })
        &&& out == Ok::<LogResponse, AppError>(log_row(entry))
    }
}

/// Appends an entry to the trail under the key `id` at the instant `now`.
pub fn create_log_with(
    db: &mut Database,
    action: String,
    table_name: Option<String>,
    user_name: Option<String>,
    details: Option<String>,
    id: String,
    now: Timestamp,
) -> (out: Result<LogResponse, AppError>)
    requires
        old(db).wf(),
    ensures
        final(db).wf(),
        log_created(
            old(db)@,
            final(db)@,
            activity_log::Model { id, action, table_name, user_name, details, created_at: now },
            out,
        ),
{
    if position(&db.logs, &id).is_some() {
        return Err(AppError::database("UNIQUE constraint failed: ActivityLog.id"));
    }
    let entry = activity_log::Model { id, action, table_name, user_name, details, created_at: now };
    db.logs.push(entry.clone());
    proof {
        assert(db@.logs =~= old(db)@.logs.push(entry));
    }
    Ok(LogResponse::from(entry))
}

/// Appends an entry to the trail. The entry's key and instant are drawn
/// here; whatever they are, the outcome is that of `create_log_with` for
/// them.
pub fn create_log(
    db: &mut Database,
    action: String,
    table_name: Option<String>,
    user_name: Option<String>,
    details: Option<String>,
) -> (out: Result<LogResponse, AppError>)
    requires
        old(db).wf(),
    ensures
        final(db).wf(),
        exists|id: String, now: Timestamp|
            now.second < SECONDS_PER_DAY && log_created(
                old(db)@,
                final(db)@,
                activity_log::Model { id, action, table_name, user_name, details, created_at: now },
                out,
            ),
{
    let id = time_ordered_id();
    let now = local_now();
    let out = create_log_with(db, action, table_name, user_name, details, id, now);
    proof {
        assert(log_created(
            old(db)@,
            db@,
            activity_log::Model { id, action, table_name, user_name, details, created_at: now },
            out,
        ));
    }
    out
}

} // verus!
