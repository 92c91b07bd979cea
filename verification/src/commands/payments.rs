//! Settlement: recording payments and deciding when a tab is paid up.

use crate::clock::SECONDS_PER_DAY;
use crate::clock::Timestamp;
use crate::clock::local_now;
use crate::clock::stamp_key;
use crate::clock::stamp_rank;
use crate::commands::orders::OrderResponse;
use crate::commands::orders::TransactionResponse;
use crate::commands::orders::order_view;
use crate::commands::orders::payment_row;
use crate::db::Database;
use crate::db::Records;
use crate::db::all_paid;
use crate::db::closed_are_paid;
use crate::db::one_open_per_table;
use crate::db::positive_amounts;
use crate::db::positive_quantities;
use crate::db::seated;
use crate::db::totals_agree;
use crate::entities::order::OrderStatus;
use crate::entities::order;
use crate::entities::order_item;
use crate::entities::transaction::PaymentMethod;
use crate::entities::transaction;
use crate::error::AppError;
use crate::error::ErrorKind;
use crate::error::refused;
use crate::ident::time_ordered_id;
use crate::listing::Shown;
use crate::listing::keys_of;
use crate::listing::marks_of;
use crate::listing::ranked;
use crate::listing::rows_at;
use crate::listing::select_ranked;
use crate::listing::show_all;
use crate::record::Entry;
use crate::record::Record;
use crate::record::attached;
use crate::record::entries_of;
use crate::record::has_key;
use crate::record::index_of;
use crate::record::is_first;
use crate::record::lemma_filter_source;
use crate::record::lemma_first_exists;
use crate::record::lemma_index_of;
use crate::record::lemma_total_moved;
use crate::record::lemma_total_push;
use crate::record::owned_by;
use crate::record::position;
use crate::record::record_of;
use crate::record::sum_for;
use crate::record::total_of;
use crate::record::unique_keys;
use vstd::prelude::*;

verus! {

/// A tab after a payment, and whether the payment settled it.
#[derive(Debug, PartialEq, Eq)]
pub struct PaymentResult {
    pub order: OrderResponse,
    pub completed: bool,
}

/// The payment that `create_payment` records.
pub open spec fn new_payment(
    id: String,
    order_id: String,
    amount: i32,
    payment_method: PaymentMethod,
    now: Timestamp,
) -> transaction::Model {
    transaction::Model { id, order_id, amount, payment_method, created_at: now }
}

/// The lines with every line of the tab `order` set as paid.
pub open spec fn lines_settled(items: Seq<order_item::Model>, order: Seq<char>) -> Seq<
    order_item::Model,
> {
    Seq::new(
        items.len(),
        |k: int|
            if items[k].order_id@ == order {
                order_item::Model { is_paid: true, ..items[k] }
            } else {
                items[k]
            },
    )
}

/// The tab `order`, closed at the instant `now`.
pub open spec fn closed_at(order: order::Model, now: Timestamp) -> order::Model {
    order::Model { status: OrderStatus::Closed, updated_at: now, ..order }
}

/// Why a payment of `amount` with the key `id` cannot be recorded against
/// the tab `order`, if it cannot.
pub open spec fn payment_refusal(pre: Records, order: Seq<char>, amount: i32, id: Seq<char>) -> Option<
    (ErrorKind, Seq<char>),
> {
    if !has_key(pre.orders, order) {
        Some((ErrorKind::NotFound, "Sipariş bulunamadı"@))
    } else if amount <= 0 {
        Some((ErrorKind::Validation, "Amount must be positive"@))
    } else if has_key(pre.transactions, id) {
        Some((ErrorKind::Database, "UNIQUE constraint failed: Transaction.id"@))
    } else {
        None
    }
}

/// Whether the payments `payments` cover the total of the tab `order`.
pub open spec fn covers(payments: Seq<transaction::Model>, order: order::Model) -> bool {
    total_of(payments, order.id@) >= order.total_amount
}

/// The records after `payment` was recorded at the instant `now`: the
/// payment is appended, and if the tab's payments then cover its total the
/// tab is closed and all its lines are paid.
pub open spec fn paid_records(pre: Records, payment: transaction::Model, now: Timestamp) -> Records {
    let transactions = pre.transactions.push(payment);
    let order = record_of(pre.orders, payment.order_id@);
    if covers(transactions, order) {
        Records {
            transactions,
            orders: pre.orders.update(index_of(pre.orders, payment.order_id@), closed_at(order, now)),
            items: lines_settled(pre.items, payment.order_id@),
            ..pre
        }
    } else {
        Records { transactions, ..pre }
    }
}

/// What recording a payment of `amount` against the tab `order_id` does,
/// given the key `id` and the instant `now` to record it with.
pub open spec fn payment_made(
    pre: Records,
    post: Records,
    order_id: String,
    amount: i32,
    payment_method: PaymentMethod,
    id: String,
    now: Timestamp,
    out: Result<PaymentResult, AppError>,
) -> bool {
    match payment_refusal(pre, order_id@, amount, id@) {
        Some((kind, text)) => post == pre && refused(out, kind, text),
        None => {
            let payment = new_payment(id, order_id, amount, payment_method, now);
            &&& post == paid_records(pre, payment, now)
            &&& out matches Ok(paid) && paid.order.shows(record_of(post.orders, order_id@), post)
                && paid.completed == covers(
                pre.transactions.push(payment),
                record_of(pre.orders, order_id@),
            )
        },
    }
}

/// A payment that is not refused keeps the records well-formed, and it
/// closes the tab exactly when the payments, the new one included, reach
/// the tab's total: the tab is then closed with every line paid, and
/// otherwise the tab and its lines are as they were.
pub proof fn lemma_payment_settles(pre: Records, payment: transaction::Model, now: Timestamp)
    requires
        pre.wf(),
        payment_refusal(pre, payment.order_id@, payment.amount, payment.id@) is None,
    ensures
        paid_records(pre, payment, now).wf(),
        has_key(paid_records(pre, payment, now).orders, payment.order_id@),
        is_first(
            paid_records(pre, payment, now).orders,
            payment.order_id@,
            index_of(pre.orders, payment.order_id@),
        ),
        total_of(paid_records(pre, payment, now).transactions, payment.order_id@) == total_of(
            pre.transactions,
            payment.order_id@,
        ) + payment.amount,
        total_of(pre.transactions, payment.order_id@) + payment.amount >= record_of(
            pre.orders,
            payment.order_id@,
        ).total_amount ==> {
            &&& record_of(paid_records(pre, payment, now).orders, payment.order_id@).status
                == OrderStatus::Closed
            &&& all_paid(paid_records(pre, payment, now).items, payment.order_id@)
        },
        total_of(pre.transactions, payment.order_id@) + payment.amount < record_of(
            pre.orders,
            payment.order_id@,
        ).total_amount ==> {
            &&& record_of(paid_records(pre, payment, now).orders, payment.order_id@) == record_of(
                pre.orders,
                payment.order_id@,
            )
            &&& paid_records(pre, payment, now).items == pre.items
        },
{
    let post = paid_records(pre, payment, now);
    let key = payment.order_id@;
    lemma_first_exists(pre.orders, key);
    let at = index_of(pre.orders, key);
    let payments = pre.transactions.push(payment);
    lemma_total_push(pre.transactions, payment, key);
    assert(unique_keys(payments));
    assert(positive_amounts(payments));
    if covers(payments, pre.orders[at]) {
        let orders = post.orders;
        let items = post.items;
        assert forall|j: int| 0 <= j < orders.len() implies (#[trigger] orders[j]).id
            == pre.orders[j].id && orders[j].table_id == pre.orders[j].table_id
            && orders[j].total_amount == pre.orders[j].total_amount && (orders[j].status
            == OrderStatus::Open ==> pre.orders[j].status == OrderStatus::Open) by {}
        assert forall|k: int| 0 <= k < items.len() implies (#[trigger] items[k]).id
            == pre.items[k].id && items[k].order_id == pre.items[k].order_id && items[k].quantity
            == pre.items[k].quantity && items[k].unit_price == pre.items[k].unit_price && (
        pre.items[k].is_paid ==> items[k].is_paid) by {}
        assert(unique_keys(orders)) by {
            assert forall|i: int, j: int| 0 <= i < j < orders.len() implies (
            #[trigger] orders[i]).key() != (#[trigger] orders[j]).key() by {
                assert(pre.orders[i].key() != pre.orders[j].key());
            }
        }
        assert(unique_keys(items)) by {
            assert forall|i: int, j: int| 0 <= i < j < items.len() implies (
            #[trigger] items[i]).key() != (#[trigger] items[j]).key() by {
                assert(pre.items[i].key() != pre.items[j].key());
            }
        }
        assert(seated(orders, pre.tables)) by {
            assert forall|j: int| 0 <= j < orders.len() implies has_key(
                pre.tables,
                (#[trigger] orders[j]).table_id@,
            ) by {
                assert(has_key(pre.tables, pre.orders[j].table_id@));
            }
        }
        assert forall|k: Seq<char>| has_key(pre.orders, k) implies has_key(orders, k) by {
            let j = choose|j: int| 0 <= j < pre.orders.len() && (#[trigger] pre.orders[j]).key() == k;
            assert(orders[j].key() == k);
        }
        assert(attached(items, orders)) by {
            assert forall|k: int| 0 <= k < items.len() implies has_key(
                orders,
                (#[trigger] items[k]).owner(),
            ) by {
                assert(has_key(pre.orders, pre.items[k].owner()));
            }
        }
        assert(attached(payments, orders)) by {
            assert forall|k: int| 0 <= k < payments.len() implies has_key(
                orders,
                (#[trigger] payments[k]).owner(),
            ) by {
                if k < pre.transactions.len() {
                    assert(has_key(pre.orders, pre.transactions[k].owner()));
                }
            }
        }
        assert(positive_quantities(items)) by {
            assert forall|k: int| 0 <= k < items.len() implies (#[trigger] items[k]).quantity
                > 0 by {
                assert(pre.items[k].quantity > 0);
            }
        }
        assert(totals_agree(orders, items)) by {
            assert forall|j: int| 0 <= j < orders.len() implies (#[trigger] orders[j]).total_amount
                == total_of(items, orders[j].id@) by {
                assert(pre.orders[j].total_amount == total_of(pre.items, pre.orders[j].id@));
                lemma_total_moved(pre.items, items, key, key, orders[j].id@);
            }
        }
        assert(one_open_per_table(orders)) by {
            assert forall|i: int, j: int|
                0 <= i < j < orders.len() && (#[trigger] orders[i]).status == OrderStatus::Open && (
                #[trigger] orders[j]).status == OrderStatus::Open implies orders[i].table_id@
                != orders[j].table_id@ by {
                assert(pre.orders[i].status == OrderStatus::Open && pre.orders[j].status
                    == OrderStatus::Open);
            }
        }
        assert(closed_are_paid(orders, items)) by {
            assert forall|j: int|
                0 <= j < orders.len() && (#[trigger] orders[j]).status
                    == OrderStatus::Closed implies all_paid(items, orders[j].id@) by {
                if j != at {
                    assert(pre.orders[j].status == OrderStatus::Closed);
                    assert(all_paid(pre.items, pre.orders[j].id@));
                    assert forall|k: int|
                        0 <= k < items.len() && (#[trigger] items[k]).order_id@
                            == orders[j].id@ implies items[k].is_paid by {
                        assert(pre.items[k].order_id@ == pre.orders[j].id@);
                    }
                }
            }
        }
        assert(is_first(orders, key, at)) by {
            assert forall|j: int| 0 <= j < at implies (#[trigger] orders[j]).key() != key by {
                assert(pre.orders[j].key() != key);
            }
        }
        lemma_index_of(orders, key, at);
    } else {
        assert(attached(payments, pre.orders)) by {
            assert forall|k: int| 0 <= k < payments.len() implies has_key(
                pre.orders,
                (#[trigger] payments[k]).owner(),
            ) by {
                if k < pre.transactions.len() {
                    assert(has_key(pre.orders, pre.transactions[k].owner()));
                }
            }
        }
    }
}

/// Records a payment of `amount` against the tab `order_id` with the key
/// `id` at the instant `now`, and closes the tab if its payments now reach
/// its total: every line is then marked paid. A smaller sum leaves the tab
/// open and its lines as they are.
pub fn create_payment_with(
    db: &mut Database,
    order_id: String,
    amount: i32,
    payment_method: PaymentMethod,
    id: String,
    now: Timestamp,
) -> (out: Result<PaymentResult, AppError>)
    requires
        old(db).wf(),
    ensures
        final(db).wf(),
        payment_made(old(db)@, final(db)@, order_id, amount, payment_method, id, now, out),
{
    let at = match position(&db.orders, &order_id) {
        Some(at) => at,
        None => { return Err(AppError::not_found("Sipariş bulunamadı")); },
    };
    if amount <= 0 {
        return Err(AppError::validation("Amount must be positive"));
    }
    if position(&db.transactions, &id).is_some() {
        return Err(AppError::database("UNIQUE constraint failed: Transaction.id"));
    }
    let ghost pre = db@;
    let ghost payment = new_payment(id, order_id, amount, payment_method, now);
    proof {
        lemma_payment_settles(pre, payment, now);
    }
    db.transactions.push(
        transaction::Model {
            id,
            order_id: order_id.clone(),
            amount,
            payment_method,
            created_at: now,
        },
    );
    let total_paid = sum_for(&db.transactions, &order_id);
    let completed = total_paid >= db.orders[at].total_amount as i128;
    if completed {
        db.orders[at].status = OrderStatus::Closed;
        db.orders[at].updated_at = now;
        proof {
            assert(db@.transactions =~= pre.transactions.push(payment));
            assert(db@.orders =~= pre.orders.update(
                at as int,
                closed_at(pre.orders[at as int], now),
            ));
        }
        let mut k: usize = 0;
        while k < db.items.len()
            invariant
                k <= db.items.len(),
                at < pre.orders.len(),
                db.items@.len() == pre.items.len(),
                forall|j: int|
                    0 <= j < k ==> #[trigger] db.items@[j] == lines_settled(pre.items, order_id@)[j],
                forall|j: int| k <= j < db.items.len() ==> #[trigger] db.items@[j] == pre.items[j],
                db@ == (Records {
                    transactions: pre.transactions.push(payment),
                    orders: pre.orders.update(at as int, closed_at(pre.orders[at as int], now)),
                    items: db.items@,
                    ..pre
                }),
            decreases db.items.len() - k,
        {
            if db.items[k].order_id == order_id {
                db.items[k].is_paid = true;
            }
            k += 1;
        }
        proof {
            assert(db@.items =~= lines_settled(pre.items, order_id@));
        }
    }
    proof {
        assert(db@.transactions =~= pre.transactions.push(payment));
        assert(db@ == paid_records(pre, payment, now));
    }
    Ok(PaymentResult { order: order_view(db, at), completed })
}

/// Records a payment of `amount` against the tab `order_id`. The payment's
/// key and instant are drawn here; whatever they are, the outcome is that
/// of `create_payment_with` for them.
pub fn create_payment(
    db: &mut Database,
    order_id: String,
    amount: i32,
    payment_method: PaymentMethod,
) -> (out: Result<PaymentResult, AppError>)
    requires
        old(db).wf(),
    ensures
        final(db).wf(),
        exists|id: String, now: Timestamp|
            now.second < SECONDS_PER_DAY && payment_made(
                old(db)@,
                final(db)@,
                order_id,
                amount,
                payment_method,
                id,
                now,
                out,
            ),
{
    let id = time_ordered_id();
    let now = local_now();
    let out = create_payment_with(db, order_id, amount, payment_method, id, now);
    proof {
        assert(payment_made(old(db)@, db@, order_id, amount, payment_method, id, now, out));
    }
    out
}

impl Shown for transaction::Model {
    type Row = TransactionResponse;

    open spec fn row(&self) -> TransactionResponse {
        payment_row(*self)
    }

    fn show(&self) -> (shown: TransactionResponse) {
        TransactionResponse {
            id: self.id.clone(),
            order_id: self.order_id.clone(),
            amount: self.amount,
            payment_method: self.payment_method,
            created_at: self.created_at,
        }
    }
}

/// The number that puts the earliest payment first.
pub open spec fn payment_age() -> spec_fn(transaction::Model) -> u128 {
    |p: transaction::Model| stamp_key(p.created_at)
}

/// The payments of the tab `order_id`, the earliest first.
pub fn get_payments_by_order(db: &Database, order_id: String) -> (out: Result<
    Vec<TransactionResponse>,
    AppError,
>)
    ensures
        out matches Ok(list) && list@ == rows_at(
            db@.transactions,
            ranked(
                marks_of(db@.transactions, owned_by(order_id@)),
                keys_of(db@.transactions, payment_age()),
            ),
        ),
{
    let mut marks: Vec<bool> = Vec::new();
    let mut keys: Vec<u128> = Vec::new();
    let mut i: usize = 0;
    while i < db.transactions.len()
        invariant
            i <= db.transactions.len(),
            marks.len() == i,
            keys.len() == i,
            forall|k: int| 0 <= k < i ==> #[trigger] marks[k] == owned_by(order_id@)(db.transactions@[k]),
            forall|k: int| 0 <= k < i ==> #[trigger] keys[k] == payment_age()(db.transactions@[k]),
        decreases db.transactions.len() - i,
    {
        let record = &db.transactions[i];
        marks.push(record.order_id == order_id);
        keys.push(stamp_rank(record.created_at));
        i += 1;
    }
    proof {
        assert(marks@ =~= marks_of(db.transactions@, owned_by(order_id@)));
        assert(keys@ =~= keys_of(db.transactions@, payment_age()));
    }
    let at = select_ranked(&marks, &keys);
    Ok(show_all(&db.transactions, &at))
}

/// A payment of more than nothing against an open tab, under an unused
/// key, succeeds. It settles the tab exactly when the payments, the new one
/// included, reach the tab's total: the tab is then closed and every line
/// of it is paid. A payment that leaves the sum below the total is
/// appended and nothing else changes: the tab, open as it was, and its
/// lines are what they were.
pub proof fn lemma_payment_decides(
    pre: Records,
    post: Records,
    order_id: String,
    amount: i32,
    payment_method: PaymentMethod,
    id: String,
    now: Timestamp,
    out: Result<PaymentResult, AppError>,
)
    requires
        pre.wf(),
        payment_made(pre, post, order_id, amount, payment_method, id, now, out),
        has_key(pre.orders, order_id@),
        record_of(pre.orders, order_id@).status == OrderStatus::Open,
        amount > 0,
        !has_key(pre.transactions, id@),
    ensures
        out matches Ok(paid) && paid.order.id@ == order_id@ && paid.completed == (total_of(
            pre.transactions,
            order_id@,
        ) + amount >= record_of(pre.orders, order_id@).total_amount) && (paid.order.status
            == OrderStatus::Closed <==> paid.completed) && (paid.completed ==> forall|j: int|
            0 <= j < paid.order.items@.len() ==> (#[trigger] paid.order.items@[j]).is_paid),
        post.transactions == pre.transactions.push(
            new_payment(id, order_id, amount, payment_method, now),
        ),
        total_of(pre.transactions, order_id@) + amount >= record_of(
            pre.orders,
            order_id@,
        ).total_amount ==> record_of(post.orders, order_id@).status == OrderStatus::Closed
            && all_paid(post.items, order_id@),
        total_of(pre.transactions, order_id@) + amount < record_of(
            pre.orders,
            order_id@,
        ).total_amount ==> post == (Records {
            transactions: pre.transactions.push(
                new_payment(id, order_id, amount, payment_method, now),
            ),
            ..pre
        }),
{
    let payment = new_payment(id, order_id, amount, payment_method, now);
    lemma_payment_settles(pre, payment, now);
    lemma_first_exists(pre.orders, order_id@);
    let paid = out->Ok_0;
    let order = record_of(post.orders, order_id@);
    assert(order.id@ == order_id@);
    if paid.completed {
        assert forall|j: int| 0 <= j < paid.order.items@.len() implies (
        #[trigger] paid.order.items@[j]).is_paid by {
            let lines = entries_of(post.items, order_id@);
            lemma_filter_source(post.items, owned_by(order_id@), j);
            let k = choose|k: int| 0 <= k < post.items.len() && #[trigger] post.items[k] == lines[j];
            assert(post.items[k].order_id@ == order_id@);
        }
    }
}

} // verus!
