//! What a business day took in and paid out.

use crate::clock::business_date;
use crate::db::Database;
use crate::entities::expense;
use crate::entities::order::OrderStatus;
use crate::entities::order;
use crate::entities::transaction::PaymentMethod;
use crate::entities::transaction;
use crate::record::has_key;
use crate::record::position;
use crate::record::record_of;
use crate::tally::SUMMAND_LIMIT;
use crate::tally::count_where;
use crate::tally::lemma_sum_step;
use crate::tally::sum_where;
use crate::tally::unit;
use vstd::prelude::*;

verus! {

/// The test for the tabs that count towards the business day `date`: the
/// closed ones created on it.
pub open spec fn closed_on(date: int) -> spec_fn(order::Model) -> bool {
    |order: order::Model|
        order.status == OrderStatus::Closed && order.created_at.business_day() == date
}

/// A tab's total.
pub open spec fn order_worth() -> spec_fn(order::Model) -> int {
    |order: order::Model| order.total_amount as int
}

/// The test for the payments made by `method` against a tab that counts
/// towards the business day `date`.
pub open spec fn taken_by(orders: Seq<order::Model>, date: int, method: PaymentMethod) -> spec_fn(
    transaction::Model,
) -> bool {
    |payment: transaction::Model|
        payment.payment_method == method && has_key(orders, payment.order_id@) && closed_on(date)(
            record_of(orders, payment.order_id@),
        )
}

/// A payment's amount.
pub open spec fn payment_worth() -> spec_fn(transaction::Model) -> int {
    |payment: transaction::Model| payment.amount as int
}

/// The test for the expenses made on the business day `date`.
pub open spec fn spent_during(date: int) -> spec_fn(expense::Model) -> bool {
    |expense: expense::Model| expense.created_at.business_day() == date
}

/// An expense's amount.
pub open spec fn expense_worth() -> spec_fn(expense::Model) -> int {
    |expense: expense::Model| expense.amount as int
}

/// The revenue of the business day `date`: the totals of its tabs.
pub open spec fn revenue_on(orders: Seq<order::Model>, date: int) -> int {
    sum_where(orders, closed_on(date), order_worth())
}

/// The number of tabs of the business day `date`.
pub open spec fn orders_on(orders: Seq<order::Model>, date: int) -> int {
    count_where(orders, closed_on(date))
}

/// What the tabs of the business day `date` were paid by `method`.
pub open spec fn taken_on(
    orders: Seq<order::Model>,
    payments: Seq<transaction::Model>,
    date: int,
    method: PaymentMethod,
) -> int {
    sum_where(payments, taken_by(orders, date, method), payment_worth())
}

/// What was paid out on the business day `date`.
pub open spec fn spent_on(expenses: Seq<expense::Model>, date: int) -> int {
    sum_where(expenses, spent_during(date), expense_worth())
}

/// The figures of one business day, exact.
pub struct DayFigures {
    pub revenue: i128,
    pub orders: usize,
    pub cash: i128,
    pub card: i128,
    pub expenses: i128,
}

/// The revenue and the number of tabs of the business day `date`.
pub fn day_sales(orders: &Vec<order::Model>, date: i64) -> (sales: (i128, usize))
    ensures
        sales.0 == revenue_on(orders@, date as int),
        sales.1 == orders_on(orders@, date as int),
{
    let mut revenue: i128 = 0;
    let mut count: usize = 0;
    let mut i: usize = 0;
    while i < orders.len()
        invariant
            i <= orders.len(),
            revenue == revenue_on(orders@.take(i as int), date as int),
            count == orders_on(orders@.take(i as int), date as int),
            -(i * SUMMAND_LIMIT) <= revenue <= i * SUMMAND_LIMIT,
            count <= i,
        decreases orders.len() - i,
    {
        proof {
            lemma_sum_step(orders@, i as int, closed_on(date as int), order_worth());
            lemma_sum_step(orders@, i as int, closed_on(date as int), unit());
        }
        if orders[i].status == OrderStatus::Closed && business_date(orders[i].created_at) == date {
            revenue = revenue + orders[i].total_amount as i128;
            count = count + 1;
        }
        i += 1;
    }
    proof {
        assert(orders@.take(orders.len() as int) =~= orders@);
    }
    (revenue, count)
}

/// What the tabs of the business day `date` were paid by `method`.
pub fn day_takings(
    orders: &Vec<order::Model>,
    payments: &Vec<transaction::Model>,
    date: i64,
    method: PaymentMethod,
) -> (taken: i128)
    ensures
        taken == taken_on(orders@, payments@, date as int, method),
{
    let mut taken: i128 = 0;
    let mut i: usize = 0;
    while i < payments.len()
        invariant
            i <= payments.len(),
            taken == taken_on(orders@, payments@.take(i as int), date as int, method),
            -(i * SUMMAND_LIMIT) <= taken <= i * SUMMAND_LIMIT,
        decreases payments.len() - i,
    {
        proof {
            lemma_sum_step(
                payments@,
                i as int,
                taken_by(orders@, date as int, method),
                payment_worth(),
            );
        }
        if payments[i].payment_method == method {
            if let Some(at) = position(orders, &payments[i].order_id) {
                if orders[at].status == OrderStatus::Closed && business_date(orders[at].created_at)
                    == date {
                    taken = taken + payments[i].amount as i128;
                }
            }
        }
        i += 1;
    }
    proof {
        assert(payments@.take(payments.len() as int) =~= payments@);
    }
    taken
}

/// What was paid out on the business day `date`.
pub fn day_expenses(expenses: &Vec<expense::Model>, date: i64) -> (spent: i128)
    ensures
        spent == spent_on(expenses@, date as int),
{
    let mut spent: i128 = 0;
    let mut i: usize = 0;
    while i < expenses.len()
        invariant
            i <= expenses.len(),
            spent == spent_on(expenses@.take(i as int), date as int),
            -(i * SUMMAND_LIMIT) <= spent <= i * SUMMAND_LIMIT,
        decreases expenses.len() - i,
    {
        proof {
            lemma_sum_step(expenses@, i as int, spent_during(date as int), expense_worth());
        }
        if business_date(expenses[i].created_at) == date {
            spent = spent + expenses[i].amount as i128;
        }
        i += 1;
    }
    proof {
        assert(expenses@.take(expenses.len() as int) =~= expenses@);
    }
    spent
}

/// The figures of the business day `date`.
pub fn day_figures(db: &Database, date: i64) -> (figures: DayFigures)
    ensures
        figures.revenue == revenue_on(db@.orders, date as int),
        figures.orders == orders_on(db@.orders, date as int),
        figures.cash == taken_on(db@.orders, db@.transactions, date as int, PaymentMethod::Cash),
        figures.card == taken_on(db@.orders, db@.transactions, date as int, PaymentMethod::Card),
        figures.expenses == spent_on(db@.expenses, date as int),
{
    let sales = day_sales(&db.orders, date);
    DayFigures {
        revenue: sales.0,
        orders: sales.1,
        cash: day_takings(&db.orders, &db.transactions, date, PaymentMethod::Cash),
        card: day_takings(&db.orders, &db.transactions, date, PaymentMethod::Card),
        expenses: day_expenses(&db.expenses, date),
    }
}

} // verus!
