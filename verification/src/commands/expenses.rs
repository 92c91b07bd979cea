//! Money paid out of the till.

use crate::clock::SECONDS_PER_DAY;
use crate::clock::Timestamp;
use crate::clock::local_now;
use crate::clock::newest_first_key;
use crate::clock::newest_first_rank;
use crate::db::Database;
use crate::db::Records;
use crate::entities::expense;
use crate::error::AppError;
use crate::error::ErrorKind;
use crate::error::refused;
use crate::ident::time_ordered_id;
use crate::listing::Shown;
use crate::listing::any;
use crate::listing::keys_of;
use crate::listing::marks_of;
use crate::listing::ranked;
use crate::listing::rows_at;
use crate::listing::select_ranked;
use crate::listing::show_all;
use crate::record::Record;
use crate::record::discard_key;
use crate::record::has_key;
use crate::record::index_of;
use crate::record::key_stays;
use crate::record::lemma_filter_unique;
use crate::record::only;
use crate::record::position;
use crate::record::record_of;
use vstd::prelude::*;

verus! {

/// An expense as shown to the operator.
#[derive(Debug, PartialEq, Eq)]
pub struct ExpenseResponse {
    pub id: String,
    pub description: String,
    pub amount: i32,
    pub category: Option<String>,
    pub payment_method: Option<String>,
    pub created_at: Timestamp,
}

/// The expense `e` as shown: every field as kept.
pub open spec fn expense_row(e: expense::Model) -> ExpenseResponse {
    ExpenseResponse {
        id: e.id,
        description: e.description,
        amount: e.amount,
        category: e.category,
        payment_method: e.payment_method,
        created_at: e.created_at,
    }
}

impl From<expense::Model> for ExpenseResponse {
    fn from(e: expense::Model) -> (shown: Self) {
        Self {
            id: e.id,
            description: e.description,
            amount: e.amount,
            category: e.category,
            payment_method: e.payment_method,
            created_at: e.created_at,
        }
    }
}

impl vstd::std_specs::convert::FromSpecImpl<expense::Model> for ExpenseResponse {
    open spec fn obeys_from_spec() -> bool {
        true
    }

    open spec fn from_spec(e: expense::Model) -> Self {
        expense_row(e)
    }
}

/// What a new expense is made from.
pub struct CreateExpenseInput {
    pub description: String,
    pub amount: i32,
    pub category: Option<String>,
    pub payment_method: Option<String>,
}

/// The payment method an expense gets when none is named.
pub open spec fn default_method() -> Seq<char> {
    "CASH"@
}

/// Whether `e` is the expense that `data` describes, under the key `id`
/// and made at `now`: an expense without a payment method is paid in cash.
pub open spec fn is_new_expense(
    e: expense::Model,
    data: CreateExpenseInput,
    id: String,
    now: Timestamp,
) -> bool {
    &&& e.id == id
    &&& e.description == data.description
    &&& e.amount == data.amount
    &&& e.category == data.category
    &&& e.created_at == now
    &&& match data.payment_method {
        Some(method) => e.payment_method == Some(method),
        None => e.payment_method matches Some(method) && method@ == default_method(),
    }
}

/// What recording the expense that `data` describes does, given the key
/// `id` and the instant `now`.
pub open spec fn expense_created(
    pre: Records,
    post: Records,
    data: CreateExpenseInput,
    id: String,
    now: Timestamp,
    out: Result<ExpenseResponse, AppError>,
) -> bool {
    if has_key(pre.expenses, id@) {
        post == pre && refused(out, ErrorKind::Database, "UNIQUE constraint failed: Expense.id"@)
    } else {
        &&& post.expenses.len() == pre.expenses.len() + 1
        &&& post == (Records { expenses: pre.expenses.push(post.expenses.last()), ..pre })
        &&& is_new_expense(post.expenses.last(), data, id, now)
        &&& out == Ok::<ExpenseResponse, AppError>(expense_row(post.expenses.last()))
    }
}

/// Records the expense that `data` describes under the key `id` at the
/// instant `now`.
pub fn create_expense_with(
    db: &mut Database,
    data: CreateExpenseInput,
    id: String,
    now: Timestamp,
) -> (out: Result<ExpenseResponse, AppError>)
    requires
        old(db).wf(),
    ensures
        final(db).wf(),
        expense_created(old(db)@, final(db)@, data, id, now, out),
{
    if position(&db.expenses, &id).is_some() {
        return Err(AppError::database("UNIQUE constraint failed: Expense.id"));
    }
    let payment_method = match data.payment_method {
        Some(method) => Some(method),
        None => Some(String::from_str("CASH")),
    };
    let fresh = expense::Model {
        id,
        description: data.description,
        amount: data.amount,
        category: data.category,
        payment_method,
        created_at: now,
    };
    db.expenses.push(fresh.clone());
    proof {
        assert(db@.expenses =~= old(db)@.expenses.push(fresh));
        assert(db@.expenses.last() == fresh);
    }
    Ok(ExpenseResponse::from(fresh))
}

/// Records the expense that `data` describes. The expense's key and
/// instant are drawn here; whatever they are, the outcome is that of
/// `create_expense_with` for them.
pub fn create_expense(db: &mut Database, data: CreateExpenseInput) -> (out: Result<
    ExpenseResponse,
    AppError,
>)
    requires
        old(db).wf(),
    ensures
        final(db).wf(),
        exists|id: String, now: Timestamp|
            now.second < SECONDS_PER_DAY && expense_created(old(db)@, final(db)@, data, id, now, out),
{
    let id = time_ordered_id();
    let now = local_now();
    let out = create_expense_with(db, data, id, now);
    proof {
        assert(expense_created(old(db)@, db@, data, id, now, out));
    }
    out
}

/// What to change of an expense; what is absent stays.
pub struct UpdateExpenseInput {
    pub description: Option<String>,
    pub amount: Option<i32>,
    pub category: Option<String>,
    pub payment_method: Option<String>,
}

/// The expense `e` with the changes of `data` applied.
pub open spec fn expense_changed(e: expense::Model, data: UpdateExpenseInput) -> expense::Model {
    expense::Model {
        description: match data.description {
            Some(description) => description,
            None => e.description,
        },
        amount: match data.amount {
            Some(amount) => amount,
            None => e.amount,
        },
        category: match data.category {
            Some(category) => Some(category),
            None => e.category,
        },
        payment_method: match data.payment_method {
            Some(method) => Some(method),
            None => e.payment_method,
        },
        ..e
    }
}

/// Changes the expense `id` as `data` says.
pub fn update_expense(db: &mut Database, id: String, data: UpdateExpenseInput) -> (out: Result<
    ExpenseResponse,
    AppError,
>)
    requires
        old(db).wf(),
    ensures
        final(db).wf(),
        !has_key(old(db)@.expenses, id@) ==> final(db)@ == old(db)@ && refused(
            out,
            ErrorKind::NotFound,
            "Gider bulunamadı"@,
        ),
        has_key(old(db)@.expenses, id@) ==> {
            let changed = expense_changed(record_of(old(db)@.expenses, id@), data);
            &&& final(db)@ == (Records {
                expenses: old(db)@.expenses.update(index_of(old(db)@.expenses, id@), changed),
                ..old(db)@
            })
            &&& out == Ok::<ExpenseResponse, AppError>(expense_row(changed))
        },
{
    let at = match position(&db.expenses, &id) {
        Some(at) => at,
        None => { return Err(AppError::not_found("Gider bulunamadı")); },
    };
    let ghost pre = db@;
    if let Some(description) = data.description {
        db.expenses[at].description = description;
    }
    if let Some(amount) = data.amount {
        db.expenses[at].amount = amount;
    }
    if let Some(category) = data.category {
        db.expenses[at].category = Some(category);
    }
    if let Some(method) = data.payment_method {
        db.expenses[at].payment_method = Some(method);
    }
    proof {
        let changed = expense_changed(pre.expenses[at as int], data);
        assert(db@.expenses =~= pre.expenses.update(at as int, changed));
        assert forall|i: int, j: int| 0 <= i < j < db@.expenses.len() implies (
        #[trigger] db@.expenses[i]).key() != (#[trigger] db@.expenses[j]).key() by {
            assert(pre.expenses[i].key() != pre.expenses[j].key());
        }
    }
    Ok(ExpenseResponse::from(db.expenses[at].clone()))
}

/// Deletes the expense `id`. A key that no expense has deletes nothing.
pub fn delete_expense(db: &mut Database, id: String) -> (out: Result<(), AppError>)
    requires
        old(db).wf(),
    ensures
        final(db).wf(),
        out is Ok,
        final(db)@ == (Records {
            expenses: old(db)@.expenses.filter(key_stays(only(id@))),
            ..old(db)@
        }),
{
    let rest = discard_key(&db.expenses, &id);
    db.expenses = rest;
    proof {
        lemma_filter_unique(old(db)@.expenses, key_stays(only(id@)));
    }
    Ok(())
}

impl Shown for expense::Model {
    type Row = ExpenseResponse;

    open spec fn row(&self) -> ExpenseResponse {
        expense_row(*self)
    }

    fn show(&self) -> (shown: ExpenseResponse) {
        ExpenseResponse::from(self.clone())
    }
}

/// The number that puts the latest expense first.
pub open spec fn expense_recency() -> spec_fn(expense::Model) -> u128 {
    |e: expense::Model| newest_first_key(e.created_at)
}

/// Every expense, the latest first.
pub fn get_all_expenses(db: &Database) -> (out: Result<Vec<ExpenseResponse>, AppError>)
    ensures
        out matches Ok(list) && list@ == rows_at(
            db@.expenses,
            ranked(marks_of(db@.expenses, any()), keys_of(db@.expenses, expense_recency())),
        ),
{
    let mut marks: Vec<bool> = Vec::new();
    let mut keys: Vec<u128> = Vec::new();
    let mut i: usize = 0;
    while i < db.expenses.len()
        invariant
            i <= db.expenses.len(),
            marks.len() == i,
            keys.len() == i,
            forall|k: int| 0 <= k < i ==> #[trigger] marks[k] == any()(db.expenses@[k]),
            forall|k: int| 0 <= k < i ==> #[trigger] keys[k] == expense_recency()(db.expenses@[k]),
        decreases db.expenses.len() - i,
    {
        let record = &db.expenses[i];
        marks.push(true);
        keys.push(newest_first_rank(record.created_at));
        i += 1;
    }
    proof {
        assert(marks@ =~= marks_of(db.expenses@, any()));
        assert(keys@ =~= keys_of(db.expenses@, expense_recency()));
    }
    let at = select_ranked(&marks, &keys);
    Ok(show_all(&db.expenses, &at))
}

} // verus!
