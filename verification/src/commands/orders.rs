//! Tabs: opening them, changing their lines, moving and merging them.

use crate::clock::SECONDS_PER_DAY;
use crate::clock::Timestamp;
use crate::clock::local_now;
use crate::clock::newest_first_key;
use crate::clock::newest_first_rank;
use crate::commands::tables::ensure_unoccupied;
use crate::db::Database;
use crate::db::Records;
use crate::db::all_paid;
use crate::db::closed_are_paid;
use crate::db::fits_i32;
use crate::db::lemma_lines_changed;
use crate::db::lemma_orders_dropped;
use crate::db::lemma_retotaled_record;
use crate::db::occupied;
use crate::db::one_open_per_table;
use crate::db::open_order;
use crate::db::open_position;
use crate::db::positive_amounts;
use crate::db::positive_quantities;
use crate::db::recalculate_order_total;
use crate::db::retotaled;
use crate::db::seated;
use crate::db::totals_agree;
use crate::db::without_orders;
use crate::entities::order::OrderStatus;
use crate::entities::order;
use crate::entities::order_item::lemma_product_bound;
use crate::entities::order_item;
use crate::entities::product;
use crate::entities::transaction::PaymentMethod;
use crate::entities::transaction;
use crate::error::AppError;
use crate::error::ErrorKind;
use crate::error::refused;
use crate::ident::time_ordered_id;
use crate::integrity::lines_are_paid;
use crate::listing::keys_of;
use crate::listing::marks_of;
use crate::listing::page;
use crate::listing::page_of;
use crate::listing::ranked;
use crate::listing::select_ranked;
use crate::listing::within;
use crate::record::Entry;
use crate::record::Record;
use crate::record::attached;
use crate::record::collect_for;
use crate::record::discard_for;
use crate::record::discard_key;
use crate::record::entries_of;
use crate::record::has_entry;
use crate::record::has_key;
use crate::record::index_of;
use crate::record::key_stays;
use crate::record::lemma_entries_moved;
use crate::record::lemma_filter_agree;
use crate::record::lemma_filter_all;
use crate::record::lemma_filter_keeps;
use crate::record::lemma_filter_source;
use crate::record::lemma_first_exists;
use crate::record::lemma_index_of;
use crate::record::lemma_total_absent;
use crate::record::lemma_total_moved;
use crate::record::lemma_total_push;
use crate::record::lemma_total_remove;
use crate::record::lemma_total_update;
use crate::record::lemma_unique_index;
use crate::record::only;
use crate::record::owner_stays;
use crate::record::position;
use crate::record::record_of;
use crate::record::sum_for;
use crate::record::total_of;
use crate::record::unique_keys;
use vstd::prelude::*;

verus! {

/// One line of a tab as shown to the operator, with the product's name.
#[derive(Debug, PartialEq, Eq)]
pub struct OrderItemResponse {
    pub id: String,
    pub order_id: String,
    pub product_id: String,
    pub quantity: i32,
    pub unit_price: i32,
    pub is_paid: bool,
    pub product_name: Option<String>,
}

/// One payment as shown to the operator.
#[derive(Debug, PartialEq, Eq)]
pub struct TransactionResponse {
    pub id: String,
    pub order_id: String,
    pub amount: i32,
    pub payment_method: PaymentMethod,
    pub created_at: Timestamp,
}

/// A tab with its lines and its payments.
#[derive(Debug, PartialEq, Eq)]
pub struct OrderResponse {
    pub id: String,
    pub table_id: String,
    pub status: OrderStatus,
    pub total_amount: i32,
    pub is_locked: bool,
    pub created_at: Timestamp,
    pub updated_at: Timestamp,
    pub items: Vec<OrderItemResponse>,
    pub payments: Vec<TransactionResponse>,
}

/// The name of the product `id`, if the catalog has it.
pub open spec fn name_of(products: Seq<product::Model>, id: Seq<char>) -> Option<String> {
    if has_key(products, id) {
        Some(record_of(products, id).name)
    } else {
        None
    }
}

/// The line `item` as shown, its product's name looked up in `products`.
pub open spec fn item_row(
    item: order_item::Model,
    products: Seq<product::Model>,
) -> OrderItemResponse {
    OrderItemResponse {
        id: item.id,
        order_id: item.order_id,
        product_id: item.product_id,
        quantity: item.quantity,
        unit_price: item.unit_price,
        is_paid: item.is_paid,
        product_name: name_of(products, item.product_id@),
    }
}

/// The lines of the tab `order` as shown, in the order they are kept.
pub open spec fn item_rows(
    items: Seq<order_item::Model>,
    products: Seq<product::Model>,
    order: Seq<char>,
) -> Seq<OrderItemResponse> {
    entries_of(items, order).map_values(|item: order_item::Model| item_row(item, products))
}

/// The payment `payment` as shown.
pub open spec fn payment_row(payment: transaction::Model) -> TransactionResponse {
    TransactionResponse {
        id: payment.id,
        order_id: payment.order_id,
        amount: payment.amount,
        payment_method: payment.payment_method,
        created_at: payment.created_at,
    }
}

/// The payments of the tab `order` as shown, in the order they are kept.
pub open spec fn payment_rows(
    payments: Seq<transaction::Model>,
    order: Seq<char>,
) -> Seq<TransactionResponse> {
    entries_of(payments, order).map_values(|payment: transaction::Model| payment_row(payment))
}

impl OrderResponse {
    /// Whether this is the tab `order` with its lines and payments as
    /// `records` holds them.
    pub open spec fn shows(&self, order: order::Model, records: Records) -> bool {
        &&& self.id == order.id
        &&& self.table_id == order.table_id
        &&& self.status == order.status
        &&& self.total_amount == order.total_amount
        &&& self.is_locked == order.is_locked
        &&& self.created_at == order.created_at
        &&& self.updated_at == order.updated_at
        &&& self.items@ == item_rows(records.items, records.products, order.id@)
        &&& self.payments@ == payment_rows(records.transactions, order.id@)
    }
}

/// The tab at position `at` with its lines and payments.
pub(crate) fn order_view(db: &Database, at: usize) -> (shown: OrderResponse)
    requires
        at < db.orders.len(),
    ensures
        shown.shows(db@.orders[at as int], db@),
{
    let order = &db.orders[at];
    let lines = collect_for(&db.items, &order.id);
    let mut items: Vec<OrderItemResponse> = Vec::new();
    let mut i: usize = 0;
    while i < lines.len()
        invariant
            i <= lines.len(),
            items@ == lines@.take(i as int).map_values(
                |item: order_item::Model| item_row(item, db@.products),
            ),
        decreases lines.len() - i,
    {
        let line = &lines[i];
        let product_name = match position(&db.products, &line.product_id) {
            Some(p) => Some(db.products[p].name.clone()),
            None => None,
        };
        items.push(
            OrderItemResponse {
                id: line.id.clone(),
                order_id: line.order_id.clone(),
                product_id: line.product_id.clone(),
                quantity: line.quantity,
                unit_price: line.unit_price,
                is_paid: line.is_paid,
                product_name,
            },
        );
        proof {
            assert(lines@.take(i + 1).map_values(
                |item: order_item::Model| item_row(item, db@.products),
            ) =~= lines@.take(i as int).map_values(
                |item: order_item::Model| item_row(item, db@.products),
            ).push(item_row(lines@[i as int], db@.products)));
        }
        i += 1;
    }
    let paid = collect_for(&db.transactions, &order.id);
    let mut payments: Vec<TransactionResponse> = Vec::new();
    let mut k: usize = 0;
    while k < paid.len()
        invariant
            k <= paid.len(),
            payments@ == paid@.take(k as int).map_values(
                |payment: transaction::Model| payment_row(payment),
            ),
        decreases paid.len() - k,
    {
        let payment = &paid[k];
        payments.push(
            TransactionResponse {
                id: payment.id.clone(),
                order_id: payment.order_id.clone(),
                amount: payment.amount,
                payment_method: payment.payment_method,
                created_at: payment.created_at,
            },
        );
        proof {
            assert(paid@.take(k + 1).map_values(
                |payment: transaction::Model| payment_row(payment),
            ) =~= paid@.take(k as int).map_values(
                |payment: transaction::Model| payment_row(payment),
            ).push(payment_row(paid@[k as int])));
        }
        k += 1;
    }
    proof {
        assert(lines@.take(lines.len() as int) =~= lines@);
        assert(paid@.take(paid.len() as int) =~= paid@);
    }
    OrderResponse {
        id: order.id.clone(),
        table_id: order.table_id.clone(),
        status: order.status,
        total_amount: order.total_amount,
        is_locked: order.is_locked,
        created_at: order.created_at,
        updated_at: order.updated_at,
        items,
        payments,
    }
}

/// The tab `order_id` with its lines and payments.
///
/// Fails with `NotFound` exactly when no tab has that key.
pub fn fetch_order_full(db: &Database, order_id: &String) -> (found: Result<OrderResponse, AppError>)
    ensures
        match found {
            Ok(shown) => has_key(db@.orders, order_id@) && shown.shows(
                record_of(db@.orders, order_id@),
                db@,
            ),
            Err(e) => !has_key(db@.orders, order_id@) && e.says(
                ErrorKind::NotFound,
                "Order not found"@,
            ),
        },
{
    match position(&db.orders, order_id) {
        Some(at) => Ok(order_view(db, at)),
        None => Err(AppError::not_found("Order not found")),
    }
}

/// The tab `order_id` with its lines and payments.
///
/// Fails with `NotFound` exactly when no tab has that key.
pub fn get_order_details(db: &Database, order_id: String) -> (found: Result<
    OrderResponse,
    AppError,
>)
    ensures
        match found {
            Ok(shown) => has_key(db@.orders, order_id@) && shown.shows(
                record_of(db@.orders, order_id@),
                db@,
            ),
            Err(e) => !has_key(db@.orders, order_id@) && e.says(
                ErrorKind::NotFound,
                "Order not found"@,
            ),
        },
{
    fetch_order_full(db, &order_id)
}

/// The open tab on the table `table_id` with its lines and payments, if the
/// table has one.
pub fn get_open_order_by_table(db: &Database, table_id: String) -> (found: Option<OrderResponse>)
    ensures
        found is Some <==> occupied(db@.orders, table_id@),
        found matches Some(shown) ==> shown.shows(open_order(db@.orders, table_id@), db@),
{
    match open_position(&db.orders, &table_id) {
        Some(at) => Some(order_view(db, at)),
        None => None,
    }
}

/// A tab just opened on `table_id`: open, unlocked, worth nothing.
pub open spec fn new_order(id: String, table_id: String, now: Timestamp) -> order::Model {
    order::Model {
        id,
        table_id,
        status: OrderStatus::Open,
        total_amount: 0,
        is_locked: false,
        created_at: now,
        updated_at: now,
    }
}

/// What opening a tab on `table_id` does, given the key `id` and the
/// instant `now` to create it with.
///
/// A table that already has an open tab keeps it, and that tab is the
/// answer. Otherwise the table must exist and the key must be unused; the
/// new tab is then appended.
pub open spec fn order_created(
    pre: Records,
    post: Records,
    table_id: String,
    id: String,
    now: Timestamp,
    out: Result<OrderResponse, AppError>,
) -> bool {
    if occupied(pre.orders, table_id@) {
        &&& post == pre
        &&& out matches Ok(shown) && shown.shows(open_order(pre.orders, table_id@), pre)
    } else if !has_key(pre.tables, table_id@) {
        &&& post == pre
        &&& out matches Err(e) && e.says(ErrorKind::NotFound, "Table not found"@)
    } else if has_key(pre.orders, id@) {
        &&& post == pre
        &&& out matches Err(e) && e.says(ErrorKind::Database, "UNIQUE constraint failed: Order.id"@)
    } else {
        &&& post == (Records { orders: pre.orders.push(new_order(id, table_id, now)), ..pre })
        &&& out matches Ok(shown) && shown.shows(new_order(id, table_id, now), post)
    }
}

/// Opens a tab on `table_id` with the key `id` at the instant `now`, or
/// answers with the tab that is already open there.
pub fn create_order_with(db: &mut Database, table_id: String, id: String, now: Timestamp) -> (out:
    Result<OrderResponse, AppError>)
    requires
        old(db).wf(),
    ensures
        final(db).wf(),
        order_created(old(db)@, final(db)@, table_id, id, now, out),
{
    if let Some(at) = open_position(&db.orders, &table_id) {
        return Ok(order_view(db, at));
    }
    if position(&db.tables, &table_id).is_none() {
        return Err(AppError::not_found("Table not found"));
    }
    if position(&db.orders, &id).is_some() {
        return Err(AppError::database("UNIQUE constraint failed: Order.id"));
    }
    let fresh = order::Model {
        id,
        table_id,
        status: OrderStatus::Open,
        total_amount: 0,
        is_locked: false,
        created_at: now,
        updated_at: now,
    };
    db.orders.push(fresh);
    let at = db.orders.len() - 1;
    proof {
        let pre = old(db)@;
        let post = db@;
        assert(post.orders =~= pre.orders.push(new_order(id, table_id, now)));
        lemma_orders_grow(pre, new_order(id, table_id, now));
    }
    Ok(order_view(db, at))
}

/// Appending an open tab with no lines, an unused key and a free, existing
/// table keeps the records well-formed.
proof fn lemma_orders_grow(pre: Records, fresh: order::Model)
    requires
        pre.wf(),
        !has_key(pre.orders, fresh.id@),
        has_key(pre.tables, fresh.table_id@),
        !occupied(pre.orders, fresh.table_id@),
        fresh.status == OrderStatus::Open,
        fresh.total_amount == 0,
    ensures
        (Records { orders: pre.orders.push(fresh), ..pre }).wf(),
{
    let post = Records { orders: pre.orders.push(fresh), ..pre };
    let n = pre.orders.len() as int;
    assert forall|i: int| 0 <= i < n implies post.orders[i] == pre.orders[i] by {}
    assert(post.orders[n] == fresh);
    assert(unique_keys(post.orders));
    assert(seated(post.orders, post.tables));
    assert forall|i: int| 0 <= i < post.items.len() implies has_key(
        post.orders,
        (#[trigger] post.items[i]).owner(),
    ) by {
        let j = choose|j: int| 0 <= j < n && (#[trigger] pre.orders[j]).key() == pre.items[i].owner();
        assert(post.orders[j].key() == post.items[i].owner());
    }
    assert forall|i: int| 0 <= i < post.transactions.len() implies has_key(
        post.orders,
        (#[trigger] post.transactions[i]).owner(),
    ) by {
        let j = choose|j: int|
            0 <= j < n && (#[trigger] pre.orders[j]).key() == pre.transactions[i].owner();
        assert(post.orders[j].key() == post.transactions[i].owner());
    }
    assert(!has_entry(pre.items, fresh.id@)) by {
        if has_entry(pre.items, fresh.id@) {
            let k = choose|k: int| 0 <= k < pre.items.len() && (#[trigger] pre.items[k]).owner() == fresh.id@;
            assert(has_key(pre.orders, pre.items[k].owner()));
        }
    }
    lemma_total_absent(pre.items, fresh.id@);
    assert(totals_agree(post.orders, post.items));
    assert(one_open_per_table(post.orders));
    assert(closed_are_paid(post.orders, post.items));
}

/// Opens a tab on `table_id`, or answers with the tab that is already open
/// there. The new tab's key and creation instant are drawn here; whatever
/// they are, the outcome is that of `create_order_with` for them.
pub fn create_order(db: &mut Database, table_id: String) -> (out: Result<OrderResponse, AppError>)
    requires
        old(db).wf(),
    ensures
        final(db).wf(),
        exists|id: String, now: Timestamp|
            now.second < SECONDS_PER_DAY && order_created(
                old(db)@,
                final(db)@,
                table_id,
                id,
                now,
                out,
            ),
{
    let id = time_ordered_id();
    let now = local_now();
    let out = create_order_with(db, table_id, id, now);
    proof {
        assert(order_created(old(db)@, db@, table_id, id, now, out));
    }
    out
}

/// Whether `line` is a line of the tab `order` for `product` that can
/// still take more units: one that is not paid.
pub open spec fn takes_more(line: order_item::Model, order: Seq<char>, product: Seq<char>) -> bool {
    line.order_id@ == order && line.product_id@ == product && !line.is_paid
}

/// Whether the tab `order` has an unpaid line for `product`.
pub open spec fn mergeable(items: Seq<order_item::Model>, order: Seq<char>, product: Seq<char>) -> bool {
    exists|k: int| 0 <= k < items.len() && takes_more(#[trigger] items[k], order, product)
}

/// Whether `k` is the first position of an unpaid line of `order` for
/// `product`.
pub open spec fn is_merge_target(
    items: Seq<order_item::Model>,
    order: Seq<char>,
    product: Seq<char>,
    k: int,
) -> bool {
    &&& 0 <= k < items.len()
    &&& takes_more(items[k], order, product)
    &&& forall|j: int| 0 <= j < k ==> !takes_more(#[trigger] items[j], order, product)
}

/// The first position of an unpaid line of `order` for `product`;
/// meaningful when there is one.
pub open spec fn merge_index(
    items: Seq<order_item::Model>,
    order: Seq<char>,
    product: Seq<char>,
) -> int {
    choose|k: int| is_merge_target(items, order, product, k)
}

/// Position of the first unpaid line of `order_id` for `product_id`, if
/// there is one.
fn unpaid_line(items: &Vec<order_item::Model>, order_id: &String, product_id: &String) -> (at:
    Option<usize>)
    ensures
        at is Some <==> mergeable(items@, order_id@, product_id@),
        at matches Some(k) ==> is_merge_target(items@, order_id@, product_id@, k as int) && k
            == merge_index(items@, order_id@, product_id@),
{
    let mut k: usize = 0;
    while k < items.len()
        invariant
            k <= items.len(),
            forall|j: int| 0 <= j < k ==> !takes_more(#[trigger] items[j], order_id@, product_id@),
        decreases items.len() - k,
    {
        if items[k].order_id == *order_id && items[k].product_id == *product_id
            && !items[k].is_paid {
            proof {
                let c = merge_index(items@, order_id@, product_id@);
                assert(is_merge_target(items@, order_id@, product_id@, k as int));
                if c < k {
                    assert(takes_more(items[c], order_id@, product_id@));
                } else if k < c {
                    assert(takes_more(items[k as int], order_id@, product_id@));
                }
            }
            return Some(k);
        }
        k += 1;
    }
    None
}

/// The lines after `quantity` units of `product_id` were put on the tab
/// `order_id`: the first unpaid line for that product takes them, and
/// where there is none a new line with the key `id` is appended at the
/// product's current price.
pub open spec fn lines_after_add(
    pre: Records,
    order_id: String,
    product_id: String,
    quantity: i32,
    id: String,
) -> Seq<order_item::Model> {
    if mergeable(pre.items, order_id@, product_id@) {
        let k = merge_index(pre.items, order_id@, product_id@);
        pre.items.update(
            k,
            order_item::Model { quantity: (pre.items[k].quantity + quantity) as i32, ..pre.items[k] },
        )
    } else {
        pre.items.push(
            order_item::Model {
                id,
                order_id,
                product_id,
                quantity,
                unit_price: record_of(pre.products, product_id@).price,
                is_paid: false,
            },
        )
    }
}

/// Why `quantity` units of `product_id` cannot be put on the tab
/// `order_id`, if they cannot.
pub open spec fn add_refusal(
    pre: Records,
    order_id: String,
    product_id: String,
    quantity: i32,
    id: String,
) -> Option<(ErrorKind, Seq<char>)> {
    if !has_key(pre.orders, order_id@) {
        Some((ErrorKind::NotFound, "Order not found"@))
    } else if record_of(pre.orders, order_id@).is_locked {
        Some((ErrorKind::Validation, "Cannot add items to locked order"@))
    } else if record_of(pre.orders, order_id@).status == OrderStatus::Closed {
        Some((ErrorKind::Validation, "Cannot add items to closed order"@))
    } else if quantity <= 0 {
        Some((ErrorKind::Validation, "Quantity must be positive"@))
    } else if !has_key(pre.products, product_id@) {
        Some((ErrorKind::NotFound, "Product not found"@))
    } else if mergeable(pre.items, order_id@, product_id@) && !fits_i32(
        pre.items[merge_index(pre.items, order_id@, product_id@)].quantity + quantity,
    ) {
        Some((ErrorKind::Validation, "Amount out of range"@))
    } else if !mergeable(pre.items, order_id@, product_id@) && has_key(pre.items, id@) {
        Some((ErrorKind::Database, "UNIQUE constraint failed: OrderItem.id"@))
    } else if !fits_i32(
        total_of(lines_after_add(pre, order_id, product_id, quantity, id), order_id@),
    ) {
        Some((ErrorKind::Validation, "Amount out of range"@))
    } else {
        None
    }
}

/// What putting `quantity` units of `product_id` on the tab `order_id`
/// does, given the key `id` for a new line and the instant `now`.
pub open spec fn item_added(
    pre: Records,
    post: Records,
    order_id: String,
    product_id: String,
    quantity: i32,
    id: String,
    now: Timestamp,
    out: Result<OrderResponse, AppError>,
) -> bool {
    match add_refusal(pre, order_id, product_id, quantity, id) {
        Some((kind, text)) => post == pre && refused(out, kind, text),
        None => {
            let items = lines_after_add(pre, order_id, product_id, quantity, id);
            &&& post == (Records {
                items,
                orders: retotaled(pre.orders, items, order_id@, now),
                ..pre
            })
            &&& out matches Ok(shown) && shown.shows(record_of(post.orders, order_id@), post)
        },
    }
}

/// Puts `quantity` units of `product_id` on the tab `order_id` and
/// recomputes the tab's total. The price is the product's price now and
/// stays with the line. `id` is the key for a new line, `now` the instant
/// of the change.
pub fn add_order_item_with(
    db: &mut Database,
    order_id: String,
    product_id: String,
    quantity: i32,
    _notes: Option<String>,
    id: String,
    now: Timestamp,
) -> (out: Result<OrderResponse, AppError>)
    requires
        old(db).wf(),
    ensures
        final(db).wf(),
        item_added(old(db)@, final(db)@, order_id, product_id, quantity, id, now, out),
{
    let at = match position(&db.orders, &order_id) {
        Some(at) => at,
        None => { return Err(AppError::not_found("Order not found")); },
    };
    if db.orders[at].is_locked {
        return Err(AppError::validation("Cannot add items to locked order"));
    }
    if db.orders[at].status == OrderStatus::Closed {
        return Err(AppError::validation("Cannot add items to closed order"));
    }
    if quantity <= 0 {
        return Err(AppError::validation("Quantity must be positive"));
    }
    let price = match position(&db.products, &product_id) {
        Some(p) => db.products[p].price,
        None => { return Err(AppError::not_found("Product not found")); },
    };
    let before = sum_for(&db.items, &order_id);
    let ghost pre = db@;
    let ghost lines = lines_after_add(pre, order_id, product_id, quantity, id);
    match unpaid_line(&db.items, &order_id, &product_id) {
        Some(k) => {
            let more: i64 = db.items[k].quantity as i64 + quantity as i64;
            if more > i32::MAX as i64 {
                return Err(AppError::validation("Amount out of range"));
            }
            let ghost grown = order_item::Model { quantity: more as i32, ..pre.items[k as int] };
            proof {
                lemma_total_update(pre.items, k as int, grown, order_id@);
                lemma_product_bound(more as int, pre.items[k as int].unit_price as int);
            }
            let after: i128 = before - db.items[k].amount() + (more as i128)
                * (db.items[k].unit_price as i128);
            if after < i32::MIN as i128 || after > i32::MAX as i128 {
                return Err(AppError::validation("Amount out of range"));
            }
            db.items[k].quantity = more as i32;
            proof {
                assert(db@.items =~= lines);
                assert forall|o: Seq<char>| o != order_id@ implies #[trigger] total_of(lines, o)
                    == total_of(pre.items, o) by {
                    lemma_total_update(pre.items, k as int, grown, o);
                }
                assert(unique_keys(lines));
                assert(attached(lines, pre.orders));
            }
        },
        None => {
            if position(&db.items, &id).is_some() {
                return Err(AppError::database("UNIQUE constraint failed: OrderItem.id"));
            }
            let line = order_item::Model {
                id,
                order_id: order_id.clone(),
                product_id,
                quantity,
                unit_price: price,
                is_paid: false,
            };
            proof {
                lemma_total_push(pre.items, line, order_id@);
            }
            let after: i128 = before + line.amount();
            if after < i32::MIN as i128 || after > i32::MAX as i128 {
                return Err(AppError::validation("Amount out of range"));
            }
            db.items.push(line);
            proof {
                assert(db@.items =~= lines);
                assert forall|o: Seq<char>| o != order_id@ implies #[trigger] total_of(lines, o)
                    == total_of(pre.items, o) by {
                    lemma_total_push(pre.items, line, o);
                }
                assert(unique_keys(lines));
                assert(attached(lines, pre.orders));
                assert forall|j: int|
                    0 <= j < pre.orders.len() && (#[trigger] pre.orders[j]).status
                        == OrderStatus::Closed implies all_paid(lines, pre.orders[j].id@) by {
                    assert(all_paid(pre.items, pre.orders[j].id@));
                    assert(pre.orders[j].id@ != order_id@);
                }
            }
        },
    }
    recalculate_order_total(db, at, now);
    proof {
        lemma_lines_changed(pre, lines, order_id@, now);
        assert(db@ == (Records {
            items: lines,
            orders: retotaled(pre.orders, lines, order_id@, now),
            ..pre
        }));
        lemma_index_of(db@.orders, order_id@, at as int);
    }
    Ok(order_view(db, at))
}

/// Puts `quantity` units of `product_id` on the tab `order_id`. The key of
/// a new line and the instant of the change are drawn here; whatever they
/// are, the outcome is that of `add_order_item_with` for them.
pub fn add_order_item(
    db: &mut Database,
    order_id: String,
    product_id: String,
    quantity: i32,
    _notes: Option<String>,
) -> (out: Result<OrderResponse, AppError>)
    requires
        old(db).wf(),
    ensures
        final(db).wf(),
        exists|id: String, now: Timestamp|
            now.second < SECONDS_PER_DAY && item_added(
                old(db)@,
                final(db)@,
                order_id,
                product_id,
                quantity,
                id,
                now,
                out,
            ),
{
    let id = time_ordered_id();
    let now = local_now();
    let out = add_order_item_with(db, order_id, product_id, quantity, _notes, id, now);
    proof {
        assert(item_added(old(db)@, db@, order_id, product_id, quantity, id, now, out));
    }
    out
}

/// The lines after the line `item` was set to `quantity` units: a
/// quantity of nothing or less removes the line.
pub open spec fn lines_after_update(
    items: Seq<order_item::Model>,
    item: Seq<char>,
    quantity: i32,
) -> Seq<order_item::Model> {
    let k = index_of(items, item);
    if quantity <= 0 {
        items.remove(k)
    } else {
        items.update(k, order_item::Model { quantity, ..items[k] })
    }
}

/// Why the line `item` cannot be set to `quantity` units, if it cannot.
pub open spec fn update_refusal(pre: Records, item: Seq<char>, quantity: i32) -> Option<
    (ErrorKind, Seq<char>),
> {
    if !has_key(pre.items, item) {
        Some((ErrorKind::NotFound, "Item not found"@))
    } else if record_of(pre.orders, record_of(pre.items, item).order_id@).is_locked {
        Some((ErrorKind::Validation, "Cannot change items of locked order"@))
    } else if !fits_i32(
        total_of(
            lines_after_update(pre.items, item, quantity),
            record_of(pre.items, item).order_id@,
        ),
    ) {
        Some((ErrorKind::Validation, "Amount out of range"@))
    } else {
        None
    }
}

/// What setting the line `item` to `quantity` units at the instant `now`
/// does.
pub open spec fn item_updated(
    pre: Records,
    post: Records,
    item: Seq<char>,
    quantity: i32,
    now: Timestamp,
    out: Result<OrderResponse, AppError>,
) -> bool {
    match update_refusal(pre, item, quantity) {
        Some((kind, text)) => post == pre && refused(out, kind, text),
        None => {
            let order = record_of(pre.items, item).order_id@;
            let items = lines_after_update(pre.items, item, quantity);
            &&& post == (Records { items, orders: retotaled(pre.orders, items, order, now), ..pre })
            &&& out matches Ok(shown) && shown.shows(record_of(post.orders, order), post)
        },
    }
}

/// Sets the line `item_id` to `quantity` units, removing it when the
/// quantity is nothing or less, and recomputes the tab's total.
pub fn update_order_item_with(
    db: &mut Database,
    item_id: String,
    quantity: i32,
    _notes: Option<String>,
    now: Timestamp,
) -> (out: Result<OrderResponse, AppError>)
    requires
        old(db).wf(),
    ensures
        final(db).wf(),
        item_updated(old(db)@, final(db)@, item_id@, quantity, now, out),
{
    let k = match position(&db.items, &item_id) {
        Some(k) => k,
        None => { return Err(AppError::not_found("Item not found")); },
    };
    let order_id = db.items[k].order_id.clone();
    let at = match position(&db.orders, &order_id) {
        Some(at) => at,
        None => {
            // Every line belongs to a tab.
            return Err(AppError::not_found("Order not found"));
        },
    };
    if db.orders[at].is_locked {
        return Err(AppError::validation("Cannot change items of locked order"));
    }
    let ghost pre = db@;
    let ghost lines = lines_after_update(pre.items, item_id@, quantity);
    let before = sum_for(&db.items, &order_id);
    if quantity <= 0 {
        proof {
            lemma_total_remove(pre.items, k as int, order_id@);
        }
        let after: i128 = before - db.items[k].amount();
        if after < i32::MIN as i128 || after > i32::MAX as i128 {
            return Err(AppError::validation("Amount out of range"));
        }
        let _ = db.items.remove(k);
        proof {
            assert(db@.items =~= lines);
            assert forall|o: Seq<char>| o != order_id@ implies #[trigger] total_of(lines, o)
                == total_of(pre.items, o) by {
                lemma_total_remove(pre.items, k as int, o);
            }
            lemma_line_removed(pre, k as int);
        }
    } else {
        let ghost set = order_item::Model { quantity, ..pre.items[k as int] };
        proof {
            lemma_total_update(pre.items, k as int, set, order_id@);
            lemma_product_bound(quantity as int, pre.items[k as int].unit_price as int);
        }
        let after: i128 = before - db.items[k].amount() + (quantity as i128) * (
        db.items[k].unit_price as i128);
        if after < i32::MIN as i128 || after > i32::MAX as i128 {
            return Err(AppError::validation("Amount out of range"));
        }
        db.items[k].quantity = quantity;
        proof {
            assert(db@.items =~= lines);
            assert forall|o: Seq<char>| o != order_id@ implies #[trigger] total_of(lines, o)
                == total_of(pre.items, o) by {
                lemma_total_update(pre.items, k as int, set, o);
            }
            assert(unique_keys(lines));
            assert(attached(lines, pre.orders));
        }
    }
    recalculate_order_total(db, at, now);
    proof {
        lemma_lines_changed(pre, lines, order_id@, now);
        assert(db@ == (Records {
            items: lines,
            orders: retotaled(pre.orders, lines, order_id@, now),
            ..pre
        }));
        lemma_index_of(db@.orders, order_id@, at as int);
    }
    Ok(order_view(db, at))
}

/// Removing one line leaves the other lines sound in themselves.
proof fn lemma_line_removed(pre: Records, k: int)
    requires
        pre.wf(),
        0 <= k < pre.items.len(),
    ensures
        unique_keys(pre.items.remove(k)),
        attached(pre.items.remove(k), pre.orders),
        positive_quantities(pre.items.remove(k)),
        closed_are_paid(pre.orders, pre.items.remove(k)),
{
    let lines = pre.items.remove(k);
    assert forall|i: int| 0 <= i < lines.len() implies #[trigger] lines[i] == pre.items[if i < k {
        i
    } else {
        i + 1
    }] by {}
    assert forall|i: int, j: int| 0 <= i < j < lines.len() implies (#[trigger] lines[i]).key() != (
    #[trigger] lines[j]).key() by {
        let a = if i < k { i } else { i + 1 };
        let b = if j < k { j } else { j + 1 };
        assert(pre.items[a].key() != pre.items[b].key());
    }
    assert forall|i: int| 0 <= i < lines.len() implies has_key(
        pre.orders,
        (#[trigger] lines[i]).owner(),
    ) by {
        let a = if i < k { i } else { i + 1 };
        assert(has_key(pre.orders, pre.items[a].owner()));
    }
    assert forall|i: int| 0 <= i < lines.len() implies (#[trigger] lines[i]).quantity > 0 by {
        let a = if i < k { i } else { i + 1 };
        assert(pre.items[a].quantity > 0);
    }
    assert forall|j: int|
        0 <= j < pre.orders.len() && (#[trigger] pre.orders[j]).status
            == OrderStatus::Closed implies all_paid(lines, pre.orders[j].id@) by {
        assert(all_paid(pre.items, pre.orders[j].id@));
        assert forall|i: int|
            0 <= i < lines.len() && (#[trigger] lines[i]).order_id@
                == pre.orders[j].id@ implies lines[i].is_paid by {
            let a = if i < k { i } else { i + 1 };
            assert(pre.items[a].order_id@ == pre.orders[j].id@);
        }
    }
}

/// Sets the line `item_id` to `quantity` units at the instant read from
/// the clock; whatever that instant is, the outcome is that of
/// `update_order_item_with` for it.
pub fn update_order_item(
    db: &mut Database,
    item_id: String,
    quantity: i32,
    _notes: Option<String>,
) -> (out: Result<OrderResponse, AppError>)
    requires
        old(db).wf(),
    ensures
        final(db).wf(),
        exists|now: Timestamp|
            now.second < SECONDS_PER_DAY && item_updated(
                old(db)@,
                final(db)@,
                item_id@,
                quantity,
                now,
                out,
            ),
{
    let now = local_now();
    let out = update_order_item_with(db, item_id, quantity, _notes, now);
    proof {
        assert(item_updated(old(db)@, db@, item_id@, quantity, now, out));
    }
    out
}

/// Why the line `item` cannot be removed, if it cannot.
pub open spec fn remove_refusal(pre: Records, item: Seq<char>) -> Option<(ErrorKind, Seq<char>)> {
    if !has_key(pre.items, item) {
        Some((ErrorKind::NotFound, "Item not found"@))
    } else if record_of(pre.orders, record_of(pre.items, item).order_id@).is_locked {
        Some((ErrorKind::Validation, "Cannot change items of locked order"@))
    } else if !fits_i32(
        total_of(pre.items.remove(index_of(pre.items, item)), record_of(pre.items, item).order_id@),
    ) {
        Some((ErrorKind::Validation, "Amount out of range"@))
    } else {
        None
    }
}

/// What removing the line `item` at the instant `now` does.
pub open spec fn item_removed(
    pre: Records,
    post: Records,
    item: Seq<char>,
    now: Timestamp,
    out: Result<OrderResponse, AppError>,
) -> bool {
    match remove_refusal(pre, item) {
        Some((kind, text)) => post == pre && refused(out, kind, text),
        None => {
            let order = record_of(pre.items, item).order_id@;
            let items = pre.items.remove(index_of(pre.items, item));
            &&& post == (Records { items, orders: retotaled(pre.orders, items, order, now), ..pre })
            &&& out matches Ok(shown) && shown.shows(record_of(post.orders, order), post)
        },
    }
}

/// Removes the line `item_id` and recomputes the tab's total.
pub fn remove_order_item_with(db: &mut Database, item_id: String, now: Timestamp) -> (out: Result<
    OrderResponse,
    AppError,
>)
    requires
        old(db).wf(),
    ensures
        final(db).wf(),
        item_removed(old(db)@, final(db)@, item_id@, now, out),
{
    update_order_item_with(db, item_id, 0, None, now)
}

/// Removes the line `item_id` at the instant read from the clock; whatever
/// that instant is, the outcome is that of `remove_order_item_with` for it.
pub fn remove_order_item(db: &mut Database, item_id: String) -> (out: Result<
    OrderResponse,
    AppError,
>)
    requires
        old(db).wf(),
    ensures
        final(db).wf(),
        exists|now: Timestamp|
            now.second < SECONDS_PER_DAY && item_removed(old(db)@, final(db)@, item_id@, now, out),
{
    let now = local_now();
    let out = remove_order_item_with(db, item_id, now);
    proof {
        assert(item_removed(old(db)@, db@, item_id@, now, out));
    }
    out
}

/// Deletes the tab `id` together with its lines and its payments. A key
/// that no tab has deletes nothing.
pub fn delete_order(db: &mut Database, id: String) -> (out: Result<(), AppError>)
    requires
        old(db).wf(),
    ensures
        final(db).wf(),
        out is Ok,
        final(db)@ == without_orders(old(db)@, only(id@)),
{
    let items = discard_for(&db.items, &id);
    let payments = discard_for(&db.transactions, &id);
    let orders = discard_key(&db.orders, &id);
    db.items = items;
    db.transactions = payments;
    db.orders = orders;
    proof {
        lemma_orders_dropped(old(db)@, only(id@));
    }
    Ok(())
}

/// Why the tab `id` cannot be moved to the table `to`, if it cannot.
pub open spec fn transfer_refusal(pre: Records, id: Seq<char>, to: Seq<char>) -> Option<
    (ErrorKind, Seq<char>),
> {
    if occupied(pre.orders, to) {
        Some((ErrorKind::Conflict, "Target table is occupied"@))
    } else if !has_key(pre.orders, id) {
        Some((ErrorKind::NotFound, "Order not found"@))
    } else if !has_key(pre.tables, to) {
        Some((ErrorKind::NotFound, "Table not found"@))
    } else {
        None
    }
}

/// What moving the tab `id` to the table `to_table_id` does.
pub open spec fn order_transferred(
    pre: Records,
    post: Records,
    id: Seq<char>,
    to_table_id: String,
    out: Result<OrderResponse, AppError>,
) -> bool {
    match transfer_refusal(pre, id, to_table_id@) {
        Some((kind, text)) => post == pre && refused(out, kind, text),
        None => {
            let moved = order::Model { table_id: to_table_id, ..record_of(pre.orders, id) };
            &&& post == (Records { orders: pre.orders.update(index_of(pre.orders, id), moved), ..pre })
            &&& out matches Ok(shown) && shown.shows(moved, post)
        },
    }
}

/// Moves the tab `id` to the table `to_table_id`, which must exist and
/// have no open tab.
pub fn transfer_order(db: &mut Database, id: String, to_table_id: String) -> (out: Result<
    OrderResponse,
    AppError,
>)
    requires
        old(db).wf(),
    ensures
        final(db).wf(),
        order_transferred(old(db)@, final(db)@, id@, to_table_id, out),
{
    if let Err(e) = ensure_unoccupied(db, &to_table_id) {
        return Err(e);
    }
    let at = match position(&db.orders, &id) {
        Some(at) => at,
        None => { return Err(AppError::not_found("Order not found")); },
    };
    if position(&db.tables, &to_table_id).is_none() {
        return Err(AppError::not_found("Table not found"));
    }
    db.orders[at].table_id = to_table_id;
    proof {
        let pre = old(db)@;
        let moved = order::Model { table_id: to_table_id, ..pre.orders[at as int] };
        assert(db@.orders =~= pre.orders.update(at as int, moved));
        lemma_orders_relabeled(pre, db@.orders);
    }
    Ok(order_view(db, at))
}

/// Changing tabs in place, keys and totals untouched, keeps the records
/// well-formed as long as the tables exist, no table gets a second open
/// tab, and the tabs that are closed afterwards have all their lines paid.
proof fn lemma_orders_relabeled(pre: Records, orders: Seq<order::Model>)
    requires
        pre.wf(),
        orders.len() == pre.orders.len(),
        forall|i: int|
            0 <= i < orders.len() ==> (#[trigger] orders[i]).id == pre.orders[i].id
                && orders[i].total_amount == pre.orders[i].total_amount,
        seated(orders, pre.tables),
        one_open_per_table(orders),
        closed_are_paid(orders, pre.items),
    ensures
        (Records { orders, ..pre }).wf(),
{
    let post = Records { orders, ..pre };
    assert(unique_keys(orders)) by {
        assert forall|i: int, j: int| 0 <= i < j < orders.len() implies (#[trigger] orders[i]).key()
            != (#[trigger] orders[j]).key() by {
            assert(pre.orders[i].key() != pre.orders[j].key());
        }
    }
    assert forall|k: int| 0 <= k < post.items.len() implies has_key(
        orders,
        (#[trigger] post.items[k]).owner(),
    ) by {
        let j = choose|j: int|
            0 <= j < pre.orders.len() && (#[trigger] pre.orders[j]).key() == pre.items[k].owner();
        assert(orders[j].key() == post.items[k].owner());
    }
    assert forall|k: int| 0 <= k < post.transactions.len() implies has_key(
        orders,
        (#[trigger] post.transactions[k]).owner(),
    ) by {
        let j = choose|j: int|
            0 <= j < pre.orders.len() && (#[trigger] pre.orders[j]).key()
                == pre.transactions[k].owner();
        assert(orders[j].key() == post.transactions[k].owner());
    }
    assert forall|i: int| 0 <= i < orders.len() implies (#[trigger] orders[i]).total_amount
        == total_of(post.items, orders[i].id@) by {
        assert(pre.orders[i].total_amount == total_of(pre.items, pre.orders[i].id@));
    }
}

/// One line to mark as paid.
pub struct MarkItemPaidInput {
    pub id: String,
    /// Carried for the operator's sake; the whole line is marked.
    pub quantity: i32,
}

/// Whether some entry of `marks` names the line `item`.
pub open spec fn marked(marks: Seq<MarkItemPaidInput>, item: Seq<char>) -> bool {
    exists|i: int| 0 <= i < marks.len() && (#[trigger] marks[i]).id@ == item
}

/// Whether every entry of `marks` names a line that exists.
pub open spec fn marks_exist(items: Seq<order_item::Model>, marks: Seq<MarkItemPaidInput>) -> bool {
    forall|i: int| 0 <= i < marks.len() ==> has_key(items, (#[trigger] marks[i]).id@)
}

/// The lines with those that `marks` names set as paid.
pub open spec fn lines_marked(
    items: Seq<order_item::Model>,
    marks: Seq<MarkItemPaidInput>,
) -> Seq<order_item::Model> {
    Seq::new(
        items.len(),
        |k: int|
            if marked(marks, items[k].id@) {
                order_item::Model { is_paid: true, ..items[k] }
            } else {
                items[k]
            },
    )
}

/// Marks the named lines as paid, whether or not a payment stands behind
/// them: the operator's override for comps and write-offs. Either every
/// named line exists and all are marked, or nothing changes.
pub fn mark_items_paid(db: &mut Database, items: Vec<MarkItemPaidInput>) -> (out: Result<
    (),
    AppError,
>)
    requires
        old(db).wf(),
    ensures
        final(db).wf(),
        marks_exist(old(db)@.items, items@) ==> out is Ok && final(db)@ == (Records {
            items: lines_marked(old(db)@.items, items@),
            ..old(db)@
        }),
        !marks_exist(old(db)@.items, items@) ==> final(db)@ == old(db)@ && refused(
            out,
            ErrorKind::NotFound,
            "Item not found"@,
        ),
{
    let mut i: usize = 0;
    while i < items.len()
        invariant
            i <= items.len(),
            old(db).wf(),
            db@ == old(db)@,
            marks_exist(db@.items, items@.take(i as int)),
        decreases items.len() - i,
    {
        if position(&db.items, &items[i].id).is_none() {
            proof {
                assert(!has_key(old(db)@.items, items@[i as int].id@));
            }
            return Err(AppError::not_found("Item not found"));
        }
        proof {
            assert forall|j: int| 0 <= j < i + 1 implies has_key(
                db@.items,
                (#[trigger] items@.take(i + 1)[j]).id@,
            ) by {
                if j < i {
                    assert(items@.take(i as int)[j] == items@.take(i + 1)[j]);
                }
            }
        }
        i += 1;
    }
    proof {
        assert(items@.take(items.len() as int) =~= items@);
        assert(lines_marked(db@.items, items@.take(0)) =~= db@.items);
    }
    let mut n: usize = 0;
    while n < items.len()
        invariant
            n <= items.len(),
            old(db).wf(),
            marks_exist(old(db)@.items, items@),
            db@ == (Records {
                items: lines_marked(old(db)@.items, items@.take(n as int)),
                ..old(db)@
            }),
        decreases items.len() - n,
    {
        let ghost before = db@.items;
        let ghost pre = old(db)@.items;
        let found = position(&db.items, &items[n].id);
        proof {
            let j = choose|j: int| 0 <= j < pre.len() && (#[trigger] pre[j]).key() == items@[n as int].id@;
            assert(before[j].key() == items@[n as int].id@);
        }
        if let Some(p) = found {
            db.items[p].is_paid = true;
            proof {
                let after = lines_marked(pre, items@.take(n + 1));
                assert(pre[p as int].key() == items@[n as int].id@);
                assert forall|k: int| 0 <= k < after.len() implies #[trigger] db@.items[k]
                    == after[k] by {
                    if k == p {
                        assert(items@.take(n + 1)[n as int].id@ == pre[k].id@);
                    } else {
                        assert(pre[k].key() != pre[p as int].key());
                        if marked(items@.take(n + 1), pre[k].id@) {
                            let w = choose|w: int|
                                0 <= w < n + 1 && (#[trigger] items@.take(n + 1)[w]).id@
                                    == pre[k].id@;
                            assert(items@.take(n as int)[w].id@ == pre[k].id@);
                        }
                        if marked(items@.take(n as int), pre[k].id@) {
                            let w = choose|w: int|
                                0 <= w < n && (#[trigger] items@.take(n as int)[w]).id@
                                    == pre[k].id@;
                            assert(items@.take(n + 1)[w].id@ == pre[k].id@);
                        }
                    }
                }
                assert(db@.items =~= after);
            }
        }
        n += 1;
    }
    proof {
        assert(items@.take(items.len() as int) =~= items@);
        lemma_lines_marked(old(db)@, items@);
    }
    Ok(())
}

/// Marking lines as paid keeps the records well-formed.
proof fn lemma_lines_marked(pre: Records, marks: Seq<MarkItemPaidInput>)
    requires
        pre.wf(),
    ensures
        (Records { items: lines_marked(pre.items, marks), ..pre }).wf(),
{
    let lines = lines_marked(pre.items, marks);
    let post = Records { items: lines, ..pre };
    assert forall|k: int| 0 <= k < lines.len() implies (#[trigger] lines[k]).id == pre.items[k].id
        && lines[k].order_id == pre.items[k].order_id && lines[k].quantity == pre.items[k].quantity
        && lines[k].unit_price == pre.items[k].unit_price && (pre.items[k].is_paid
        ==> lines[k].is_paid) by {}
    assert(unique_keys(lines)) by {
        assert forall|i: int, j: int| 0 <= i < j < lines.len() implies (#[trigger] lines[i]).key()
            != (#[trigger] lines[j]).key() by {
            assert(pre.items[i].key() != pre.items[j].key());
        }
    }
    assert forall|k: int| 0 <= k < lines.len() implies has_key(
        pre.orders,
        (#[trigger] lines[k]).owner(),
    ) by {
        assert(has_key(pre.orders, pre.items[k].owner()));
    }
    assert forall|k: int| 0 <= k < lines.len() implies (#[trigger] lines[k]).quantity > 0 by {
        assert(pre.items[k].quantity > 0);
    }
    assert forall|i: int| 0 <= i < pre.orders.len() implies (#[trigger] pre.orders[i]).total_amount
        == total_of(lines, pre.orders[i].id@) by {
        lemma_total_moved(pre.items, lines, pre.orders[i].id@, pre.orders[i].id@, pre.orders[i].id@);
    }
    assert forall|i: int|
        0 <= i < pre.orders.len() && (#[trigger] pre.orders[i]).status
            == OrderStatus::Closed implies all_paid(lines, pre.orders[i].id@) by {
        assert(all_paid(pre.items, pre.orders[i].id@));
        assert forall|k: int|
            0 <= k < lines.len() && (#[trigger] lines[k]).order_id@
                == pre.orders[i].id@ implies lines[k].is_paid by {
            assert(pre.items[k].order_id@ == pre.orders[i].id@);
        }
    }
}

/// The lines with those of the tab `from` handed over to the tab `to`.
pub open spec fn lines_moved(
    items: Seq<order_item::Model>,
    from: Seq<char>,
    to: String,
) -> Seq<order_item::Model> {
    Seq::new(
        items.len(),
        |k: int|
            if items[k].order_id@ == from {
                order_item::Model { order_id: to, ..items[k] }
            } else {
                items[k]
            },
    )
}

/// The payments with those of the tab `from` handed over to the tab `to`.
pub open spec fn payments_moved(
    payments: Seq<transaction::Model>,
    from: Seq<char>,
    to: String,
) -> Seq<transaction::Model> {
    Seq::new(
        payments.len(),
        |k: int|
            if payments[k].order_id@ == from {
                transaction::Model { order_id: to, ..payments[k] }
            } else {
                payments[k]
            },
    )
}

/// Why the tab `source` cannot be merged into the tab `target`, if it
/// cannot. A closed target takes the lines of the source only when all of
/// them are paid.
pub open spec fn merge_refusal(pre: Records, source: Seq<char>, target: Seq<char>) -> Option<
    (ErrorKind, Seq<char>),
> {
    if !has_key(pre.orders, source) || !has_key(pre.orders, target) {
        Some((ErrorKind::NotFound, "Order not found"@))
    } else if source == target {
        Some((ErrorKind::Validation, "Cannot merge an order with itself"@))
    } else if record_of(pre.orders, source).is_locked || record_of(pre.orders, target).is_locked {
        Some((ErrorKind::Validation, "Cannot change items of locked order"@))
    } else if record_of(pre.orders, target).status == OrderStatus::Closed && !all_paid(
        pre.items,
        source,
    ) {
        Some((ErrorKind::Validation, "Cannot add unpaid items to closed order"@))
    } else if !fits_i32(
        record_of(pre.orders, source).total_amount + record_of(pre.orders, target).total_amount,
    ) {
        Some((ErrorKind::Validation, "Amount out of range"@))
    } else {
        None
    }
}

/// The records after the tab `source` was merged into the tab `target` at
/// the instant `now`: its lines and payments belong to the target, the
/// target's total is recomputed, and the source is gone.
pub open spec fn merged_records(pre: Records, source: Seq<char>, target: String, now: Timestamp) -> Records {
    let items = lines_moved(pre.items, source, target);
    Records {
        items,
        transactions: payments_moved(pre.transactions, source, target),
        orders: retotaled(pre.orders, items, target@, now).filter(key_stays(only(source))),
        ..pre
    }
}

/// What merging the tab `source` into the tab `target` at the instant
/// `now` does.
pub open spec fn orders_merged(
    pre: Records,
    post: Records,
    source: Seq<char>,
    target: String,
    now: Timestamp,
    out: Result<OrderResponse, AppError>,
) -> bool {
    match merge_refusal(pre, source, target@) {
        Some((kind, text)) => post == pre && refused(out, kind, text),
        None => {
            &&& post == merged_records(pre, source, target, now)
            &&& out matches Ok(shown) && shown.shows(record_of(post.orders, target@), post)
        },
    }
}

/// A merge that is not refused keeps the records well-formed and conserves
/// money: the source is gone, the target is still there, and the target's
/// total is the sum of the two totals before.
pub proof fn lemma_merge_conserves(pre: Records, source: Seq<char>, target: String, now: Timestamp)
    requires
        pre.wf(),
        merge_refusal(pre, source, target@) is None,
    ensures
        merged_records(pre, source, target, now).wf(),
        !has_key(merged_records(pre, source, target, now).orders, source),
        has_key(merged_records(pre, source, target, now).orders, target@),
        record_of(merged_records(pre, source, target, now).orders, target@).total_amount
            == record_of(pre.orders, source).total_amount + record_of(
            pre.orders,
            target@,
        ).total_amount,
        total_of(merged_records(pre, source, target, now).items, target@) == total_of(
            pre.items,
            source,
        ) + total_of(pre.items, target@),
{
    let post = merged_records(pre, source, target, now);
    let items = post.items;
    let payments = post.transactions;
    lemma_first_exists(pre.orders, source);
    lemma_first_exists(pre.orders, target@);
    let s = index_of(pre.orders, source);
    let t = index_of(pre.orders, target@);
    let raw = retotaled(pre.orders, items, target@, now);
    let zeroed = raw.update(s, order::Model { total_amount: 0, ..raw[s] });
    let mid = Records { items, transactions: payments, orders: zeroed, ..pre };
    assert forall|j: int| 0 <= j < zeroed.len() implies (#[trigger] zeroed[j]).id == pre.orders[j].id
        && zeroed[j].table_id == pre.orders[j].table_id && zeroed[j].status
        == pre.orders[j].status by {}
    assert forall|k: int| 0 <= k < items.len() implies (#[trigger] items[k]).id == pre.items[k].id
        && items[k].quantity == pre.items[k].quantity && items[k].unit_price
        == pre.items[k].unit_price && items[k].is_paid == pre.items[k].is_paid && items[k].owner()
        == (if pre.items[k].owner() == source {
        target@
    } else {
        pre.items[k].owner()
    }) by {}
    assert forall|k: int| 0 <= k < payments.len() implies (#[trigger] payments[k]).id
        == pre.transactions[k].id && payments[k].amount == pre.transactions[k].amount
        && payments[k].owner() == (if pre.transactions[k].owner() == source {
        target@
    } else {
        pre.transactions[k].owner()
    }) by {}
    assert(unique_keys(zeroed)) by {
        assert forall|i: int, j: int| 0 <= i < j < zeroed.len() implies (#[trigger] zeroed[i]).key()
            != (#[trigger] zeroed[j]).key() by {
            assert(pre.orders[i].key() != pre.orders[j].key());
        }
    }
    assert(unique_keys(items)) by {
        assert forall|i: int, j: int| 0 <= i < j < items.len() implies (#[trigger] items[i]).key()
            != (#[trigger] items[j]).key() by {
            assert(pre.items[i].key() != pre.items[j].key());
        }
    }
    assert(unique_keys(payments)) by {
        assert forall|i: int, j: int| 0 <= i < j < payments.len() implies (
        #[trigger] payments[i]).key() != (#[trigger] payments[j]).key() by {
            assert(pre.transactions[i].key() != pre.transactions[j].key());
        }
    }
    assert(seated(zeroed, pre.tables)) by {
        assert forall|j: int| 0 <= j < zeroed.len() implies has_key(
            pre.tables,
            (#[trigger] zeroed[j]).table_id@,
        ) by {
            assert(has_key(pre.tables, pre.orders[j].table_id@));
        }
    }
    assert forall|key: Seq<char>| has_key(pre.orders, key) implies has_key(zeroed, key) by {
        let j = choose|j: int| 0 <= j < pre.orders.len() && (#[trigger] pre.orders[j]).key() == key;
        assert(zeroed[j].key() == key);
    }
    assert(attached(items, zeroed)) by {
        assert forall|k: int| 0 <= k < items.len() implies has_key(
            zeroed,
            (#[trigger] items[k]).owner(),
        ) by {
            assert(has_key(pre.orders, pre.items[k].owner()));
        }
    }
    assert(attached(payments, zeroed)) by {
        assert forall|k: int| 0 <= k < payments.len() implies has_key(
            zeroed,
            (#[trigger] payments[k]).owner(),
        ) by {
            assert(has_key(pre.orders, pre.transactions[k].owner()));
        }
    }
    assert(positive_quantities(items)) by {
        assert forall|k: int| 0 <= k < items.len() implies (#[trigger] items[k]).quantity > 0 by {
            assert(pre.items[k].quantity > 0);
        }
    }
    assert(positive_amounts(payments)) by {
        assert forall|k: int| 0 <= k < payments.len() implies (#[trigger] payments[k]).amount
            > 0 by {
            assert(pre.transactions[k].amount > 0);
        }
    }
    assert forall|o: Seq<char>|
        #[trigger] total_of(items, o) == (if o == target@ {
            total_of(pre.items, source) + total_of(pre.items, target@)
        } else if o == source {
            0
        } else {
            total_of(pre.items, o)
        }) by {
        lemma_total_moved(pre.items, items, source, target@, o);
    }
    assert(pre.orders[s].total_amount == total_of(pre.items, pre.orders[s].id@));
    assert(pre.orders[t].total_amount == total_of(pre.items, pre.orders[t].id@));
    assert(totals_agree(zeroed, items)) by {
        assert forall|j: int| 0 <= j < zeroed.len() implies (#[trigger] zeroed[j]).total_amount
            == total_of(items, zeroed[j].id@) by {
            assert(pre.orders[j].total_amount == total_of(pre.items, pre.orders[j].id@));
            if j != s && j != t {
                if j < s {
                    assert(pre.orders[j].key() != pre.orders[s].key());
                } else {
                    assert(pre.orders[s].key() != pre.orders[j].key());
                }
                if j < t {
                    assert(pre.orders[j].key() != pre.orders[t].key());
                } else {
                    assert(pre.orders[t].key() != pre.orders[j].key());
                }
            }
        }
    }
    assert(one_open_per_table(zeroed)) by {
        assert forall|i: int, j: int|
            0 <= i < j < zeroed.len() && (#[trigger] zeroed[i]).status == OrderStatus::Open && (
            #[trigger] zeroed[j]).status == OrderStatus::Open implies zeroed[i].table_id@
            != zeroed[j].table_id@ by {
            assert(pre.orders[i].status == OrderStatus::Open && pre.orders[j].status
                == OrderStatus::Open);
        }
    }
    assert(closed_are_paid(zeroed, items)) by {
        assert forall|j: int|
            0 <= j < zeroed.len() && (#[trigger] zeroed[j]).status
                == OrderStatus::Closed implies all_paid(items, zeroed[j].id@) by {
            assert(pre.orders[j].status == OrderStatus::Closed);
            assert(all_paid(pre.items, pre.orders[j].id@));
            assert forall|k: int|
                0 <= k < items.len() && (#[trigger] items[k]).order_id@
                    == zeroed[j].id@ implies items[k].is_paid by {
                if pre.items[k].order_id@ == source {
                    // A line that came over: the target is closed, so the
                    // source had paid lines only.
                    assert(zeroed[j].key() == pre.orders[t].key());
                    if j != t {
                        if j < t {
                            assert(pre.orders[j].key() != pre.orders[t].key());
                        } else {
                            assert(pre.orders[t].key() != pre.orders[j].key());
                        }
                    }
                    assert(all_paid(pre.items, source));
                    assert(pre.items[k].is_paid);
                } else {
                    assert(pre.items[k].order_id@ == pre.orders[j].id@);
                }
            }
        }
    }
    assert(mid.wf());
    lemma_orders_dropped(mid, only(source));
    lemma_filter_agree(zeroed, raw, key_stays(only(source)));
    lemma_filter_all(items, owner_stays(only(source)));
    lemma_filter_all(payments, owner_stays(only(source)));
    assert(without_orders(mid, only(source)) == post);
    // The source is gone and the target has stayed.
    if has_key(post.orders, source) {
        let i = choose|i: int| 0 <= i < post.orders.len() && (#[trigger] post.orders[i]).key() == source;
        lemma_filter_source(raw, key_stays(only(source)), i);
    }
    lemma_filter_keeps(raw, key_stays(only(source)), t);
    let i = choose|i: int| 0 <= i < post.orders.len() && #[trigger] post.orders[i] == raw[t];
    assert(post.orders[i].key() == target@);
    lemma_unique_index(post.orders, i);
}

/// A merge that is not refused keeps every line and every payment: each
/// stays what it was but for the tab it belongs to, the target has as many
/// lines and payments as the two tabs had together, nothing is left with
/// the source, and what was paid towards the two tabs is paid towards the
/// target.
pub proof fn lemma_merge_keeps_entries(pre: Records, source: Seq<char>, target: String, now: Timestamp)
    requires
        pre.wf(),
        merge_refusal(pre, source, target@) is None,
    ensures
        merged_records(pre, source, target, now).items.len() == pre.items.len(),
        forall|k: int|
            0 <= k < pre.items.len() ==> #[trigger] merged_records(pre, source, target, now).items[k]
                == (if pre.items[k].order_id@ == source {
                order_item::Model { order_id: target, ..pre.items[k] }
            } else {
                pre.items[k]
            }),
        entries_of(merged_records(pre, source, target, now).items, target@).len() == entries_of(
            pre.items,
            source,
        ).len() + entries_of(pre.items, target@).len(),
        entries_of(merged_records(pre, source, target, now).items, source).len() == 0,
        merged_records(pre, source, target, now).transactions.len() == pre.transactions.len(),
        forall|k: int|
            0 <= k < pre.transactions.len() ==> #[trigger] merged_records(
                pre,
                source,
                target,
                now,
            ).transactions[k] == (if pre.transactions[k].order_id@ == source {
                transaction::Model { order_id: target, ..pre.transactions[k] }
            } else {
                pre.transactions[k]
            }),
        entries_of(merged_records(pre, source, target, now).transactions, target@).len()
            == entries_of(pre.transactions, source).len() + entries_of(
            pre.transactions,
            target@,
        ).len(),
        entries_of(merged_records(pre, source, target, now).transactions, source).len() == 0,
        total_of(merged_records(pre, source, target, now).transactions, target@) == total_of(
            pre.transactions,
            source,
        ) + total_of(pre.transactions, target@),
{
    let post = merged_records(pre, source, target, now);
    assert forall|k: int| 0 <= k < pre.items.len() implies (#[trigger] post.items[k]).owner() == (
    if pre.items[k].owner() == source {
        target@
    } else {
        pre.items[k].owner()
    }) by {}
    assert forall|k: int| 0 <= k < pre.transactions.len() implies (
    #[trigger] post.transactions[k]).owner() == (if pre.transactions[k].owner() == source {
        target@
    } else {
        pre.transactions[k].owner()
    }) && post.transactions[k].worth() == pre.transactions[k].worth() by {}
    lemma_entries_moved(pre.items, post.items, source, target@);
    lemma_entries_moved(pre.transactions, post.transactions, source, target@);
    lemma_total_moved(pre.transactions, post.transactions, source, target@, target@);
}

/// Merges the tab `source_order_id` into the tab `target_order_id`: the
/// source's lines and payments become the target's, the source is
/// deleted, and the target's total is recomputed. Either all of it
/// happens or none.
pub fn merge_orders_with(
    db: &mut Database,
    source_order_id: String,
    target_order_id: String,
    now: Timestamp,
) -> (out: Result<OrderResponse, AppError>)
    requires
        old(db).wf(),
    ensures
        final(db).wf(),
        orders_merged(old(db)@, final(db)@, source_order_id@, target_order_id, now, out),
{
    let s = match position(&db.orders, &source_order_id) {
        Some(s) => s,
        None => { return Err(AppError::not_found("Order not found")); },
    };
    let t = match position(&db.orders, &target_order_id) {
        Some(t) => t,
        None => { return Err(AppError::not_found("Order not found")); },
    };
    if source_order_id == target_order_id {
        return Err(AppError::validation("Cannot merge an order with itself"));
    }
    if db.orders[s].is_locked || db.orders[t].is_locked {
        return Err(AppError::validation("Cannot change items of locked order"));
    }
    if db.orders[t].status == OrderStatus::Closed && !lines_are_paid(&db.items, &source_order_id) {
        return Err(AppError::validation("Cannot add unpaid items to closed order"));
    }
    let sum: i64 = db.orders[s].total_amount as i64 + db.orders[t].total_amount as i64;
    if sum < i32::MIN as i64 || sum > i32::MAX as i64 {
        return Err(AppError::validation("Amount out of range"));
    }
    let ghost pre = db@;
    proof {
        lemma_merge_conserves(pre, source_order_id@, target_order_id, now);
    }
    let mut i: usize = 0;
    while i < db.items.len()
        invariant
            i <= db.items.len(),
            db.items@.len() == pre.items.len(),
            forall|k: int|
                0 <= k < i ==> #[trigger] db.items@[k] == lines_moved(
                    pre.items,
                    source_order_id@,
                    target_order_id,
                )[k],
            forall|k: int| i <= k < db.items.len() ==> #[trigger] db.items@[k] == pre.items[k],
            db@ == (Records { items: db.items@, ..pre }),
        decreases db.items.len() - i,
    {
        if db.items[i].order_id == source_order_id {
            db.items[i].order_id = target_order_id.clone();
        }
        i += 1;
    }
    proof {
        assert(db@.items =~= lines_moved(pre.items, source_order_id@, target_order_id));
    }
    let mut n: usize = 0;
    while n < db.transactions.len()
        invariant
            n <= db.transactions.len(),
            db.items@ == lines_moved(pre.items, source_order_id@, target_order_id),
            db.transactions@.len() == pre.transactions.len(),
            forall|k: int|
                0 <= k < n ==> #[trigger] db.transactions@[k] == payments_moved(
                    pre.transactions,
                    source_order_id@,
                    target_order_id,
                )[k],
            forall|k: int|
                n <= k < db.transactions.len() ==> #[trigger] db.transactions@[k]
                    == pre.transactions[k],
            db@ == (Records { items: db.items@, transactions: db.transactions@, ..pre }),
        decreases db.transactions.len() - n,
    {
        if db.transactions[n].order_id == source_order_id {
            db.transactions[n].order_id = target_order_id.clone();
        }
        n += 1;
    }
    proof {
        assert(db@.transactions =~= payments_moved(
            pre.transactions,
            source_order_id@,
            target_order_id,
        ));
    }
    recalculate_order_total(db, t, now);
    let orders = discard_key(&db.orders, &source_order_id);
    db.orders = orders;
    proof {
        assert(db@ == merged_records(pre, source_order_id@, target_order_id, now));
    }
    match position(&db.orders, &target_order_id) {
        Some(at) => Ok(order_view(db, at)),
        None => {
            // The target is never dropped by a merge.
            Err(AppError::not_found("Order not found"))
        },
    }
}

/// Merges the tab `source_order_id` into the tab `target_order_id` at the
/// instant read from the clock; whatever that instant is, the outcome is
/// that of `merge_orders_with` for it.
pub fn merge_orders(db: &mut Database, source_order_id: String, target_order_id: String) -> (out:
    Result<OrderResponse, AppError>)
    requires
        old(db).wf(),
    ensures
        final(db).wf(),
        exists|now: Timestamp|
            now.second < SECONDS_PER_DAY && orders_merged(
                old(db)@,
                final(db)@,
                source_order_id@,
                target_order_id,
                now,
                out,
            ),
{
    let now = local_now();
    let out = merge_orders_with(db, source_order_id, target_order_id, now);
    proof {
        assert(orders_merged(old(db)@, db@, source_order_id@, target_order_id, now, out));
    }
    out
}

/// What to change of a tab; what is absent stays.
pub struct UpdateOrderInput {
    pub status: Option<OrderStatus>,
    /// The total is derived from the lines: naming the total that the tab
    /// has is accepted, any other is refused.
    pub total_amount: Option<i32>,
    pub is_locked: Option<bool>,
}

/// The tab `order` with the changes of `input` applied at the instant
/// `now`.
pub open spec fn order_changed(order: order::Model, input: UpdateOrderInput, now: Timestamp) -> order::Model {
    order::Model {
        status: match input.status {
            Some(status) => status,
            None => order.status,
        },
        is_locked: match input.is_locked {
            Some(locked) => locked,
            None => order.is_locked,
        },
        updated_at: now,
        ..order
    }
}

/// Why the tab `id` cannot be changed as `input` says, if it cannot: the
/// total can only be the sum of the lines, a tab is closed only when all
/// its lines are paid and its payments reach its total, and it is opened
/// again only on a table that has no open tab.
pub open spec fn change_refusal(pre: Records, id: Seq<char>, input: UpdateOrderInput) -> Option<
    (ErrorKind, Seq<char>),
> {
    if !has_key(pre.orders, id) {
        Some((ErrorKind::NotFound, "Order not found"@))
    } else {
        let order = record_of(pre.orders, id);
        if input.total_amount matches Some(total) && total != order.total_amount {
            Some((ErrorKind::Validation, "Total is derived from the items"@))
        } else if order.status == OrderStatus::Open && input.status == Some(OrderStatus::Closed)
            && !(all_paid(pre.items, id) && total_of(pre.transactions, id) >= order.total_amount) {
            Some((ErrorKind::Validation, "Order is not settled"@))
        } else if order.status == OrderStatus::Closed && input.status == Some(OrderStatus::Open)
            && occupied(pre.orders, order.table_id@) {
            Some((ErrorKind::Conflict, "Table is occupied"@))
        } else {
            None
        }
    }
}

/// What changing the tab `id` as `input` says at the instant `now` does.
pub open spec fn order_updated(
    pre: Records,
    post: Records,
    id: Seq<char>,
    input: UpdateOrderInput,
    now: Timestamp,
    out: Result<OrderResponse, AppError>,
) -> bool {
    match change_refusal(pre, id, input) {
        Some((kind, text)) => post == pre && refused(out, kind, text),
        None => {
            let changed = order_changed(record_of(pre.orders, id), input, now);
            &&& post == (Records { orders: pre.orders.update(index_of(pre.orders, id), changed), ..pre })
            &&& out matches Ok(shown) && shown.shows(changed, post)
        },
    }
}

/// Changes the state and the lock of the tab `id` as `input` says and
/// stamps the tab with `now`.
pub fn update_order_with(db: &mut Database, id: String, input: UpdateOrderInput, now: Timestamp) -> (out:
    Result<OrderResponse, AppError>)
    requires
        old(db).wf(),
    ensures
        final(db).wf(),
        order_updated(old(db)@, final(db)@, id@, input, now, out),
{
    let at = match position(&db.orders, &id) {
        Some(at) => at,
        None => { return Err(AppError::not_found("Order not found")); },
    };
    if let Some(total) = input.total_amount {
        if total != db.orders[at].total_amount {
            return Err(AppError::validation("Total is derived from the items"));
        }
    }
    let was = db.orders[at].status;
    if let Some(status) = input.status {
        if was == OrderStatus::Open && status == OrderStatus::Closed {
            let paid = sum_for(&db.transactions, &id);
            if !(lines_are_paid(&db.items, &id) && paid >= db.orders[at].total_amount as i128) {
                return Err(AppError::validation("Order is not settled"));
            }
        }
        if was == OrderStatus::Closed && status == OrderStatus::Open {
            if open_position(&db.orders, &db.orders[at].table_id).is_some() {
                return Err(AppError::conflict("Table is occupied"));
            }
        }
        db.orders[at].status = status;
    }
    if let Some(locked) = input.is_locked {
        db.orders[at].is_locked = locked;
    }
    db.orders[at].updated_at = now;
    proof {
        let pre = old(db)@;
        let changed = order_changed(pre.orders[at as int], input, now);
        assert(db@.orders =~= pre.orders.update(at as int, changed));
        assert forall|j: int| 0 <= j < db@.orders.len() implies has_key(
            pre.tables,
            (#[trigger] db@.orders[j]).table_id@,
        ) by {
            assert(has_key(pre.tables, pre.orders[j].table_id@));
        }
        assert forall|i: int, j: int|
            0 <= i < j < db@.orders.len() && (#[trigger] db@.orders[i]).status == OrderStatus::Open
                && (#[trigger] db@.orders[j]).status == OrderStatus::Open implies db@.orders[i].table_id@
            != db@.orders[j].table_id@ by {
            if i != at && j != at {
                assert(pre.orders[i].status == OrderStatus::Open && pre.orders[j].status
                    == OrderStatus::Open);
            } else if pre.orders[at as int].status == OrderStatus::Open {
                assert(pre.orders[i].status == OrderStatus::Open && pre.orders[j].status
                    == OrderStatus::Open);
            } else {
                let other = if i == at { j } else { i };
                assert(pre.orders[other].status == OrderStatus::Open);
            }
        }
        assert forall|j: int|
            0 <= j < db@.orders.len() && (#[trigger] db@.orders[j]).status
                == OrderStatus::Closed implies all_paid(pre.items, db@.orders[j].id@) by {
            if j != at {
                assert(pre.orders[j].status == OrderStatus::Closed);
            } else if pre.orders[j].status == OrderStatus::Closed {
            }
        }
        lemma_orders_relabeled(pre, db@.orders);
    }
    Ok(order_view(db, at))
}

/// Changes the tab `id` as `input` says at the instant read from the
/// clock; whatever that instant is, the outcome is that of
/// `update_order_with` for it.
pub fn update_order(db: &mut Database, id: String, input: UpdateOrderInput) -> (out: Result<
    OrderResponse,
    AppError,
>)
    requires
        old(db).wf(),
    ensures
        final(db).wf(),
        exists|now: Timestamp|
            now.second < SECONDS_PER_DAY && order_updated(old(db)@, final(db)@, id@, input, now, out),
{
    let now = local_now();
    let out = update_order_with(db, id, input, now);
    proof {
        assert(order_updated(old(db)@, db@, id@, input, now, out));
    }
    out
}

/// A page of the tabs that are no longer open.
#[derive(Debug, PartialEq, Eq)]
pub struct OrderHistoryResult {
    pub orders: Vec<OrderResponse>,
    pub total_count: u64,
    pub has_more: bool,
}

/// Tabs shown on a page when the caller names no limit.
pub const DEFAULT_HISTORY_LIMIT: u64 = 50;

/// The test for the tabs of the history: those no longer open, and where
/// a calendar day is named, those created on it.
pub open spec fn in_history(date: Option<i64>) -> spec_fn(order::Model) -> bool {
    |order: order::Model|
        order.status != OrderStatus::Open && (date matches Some(day) ==> order.created_at.day
            == day)
}

/// The number that puts the tab created last first.
pub open spec fn order_recency() -> spec_fn(order::Model) -> u128 {
    |order: order::Model| newest_first_key(order.created_at)
}

/// The positions of the tabs of the history, the one created last first.
pub open spec fn history(orders: Seq<order::Model>, date: Option<i64>) -> Seq<usize> {
    ranked(marks_of(orders, in_history(date)), keys_of(orders, order_recency()))
}

impl OrderHistoryResult {
    /// Whether this is the page of the history of `records` that starts
    /// after `offset` tabs and holds at most `limit`, with the number of
    /// tabs in the whole history and whether more follow the page.
    pub open spec fn tells(&self, records: Records, date: Option<i64>, offset: int, limit: int) -> bool {
        let all = history(records.orders, date);
        let at = page(all, offset, limit);
        &&& self.total_count == all.len()
        &&& self.has_more == (offset + limit < all.len())
        &&& self.orders@.len() == at.len()
        &&& forall|j: int|
            0 <= j < at.len() ==> (#[trigger] self.orders@[j]).shows(
                records.orders[at[j] as int],
                records,
            )
    }
}

/// The tabs that are no longer open, the one created last first: those
/// created on the calendar day `date` where one is named, skipping
/// `offset` tabs and showing at most `limit`, 50 where no limit is named.
pub fn get_order_history(
    db: &Database,
    date: Option<i64>,
    limit: Option<u64>,
    offset: Option<u64>,
) -> (out: Result<OrderHistoryResult, AppError>)
    ensures
        out matches Ok(found) && found.tells(
            db@,
            date,
            (match offset {
                Some(n) => n as int,
                None => 0,
            }),
            (match limit {
                Some(n) => n as int,
                None => DEFAULT_HISTORY_LIMIT as int,
            }),
        ),
{
    let limit = match limit {
        Some(n) => n,
        None => DEFAULT_HISTORY_LIMIT,
    };
    let offset = match offset {
        Some(n) => n,
        None => 0,
    };
    let mut marks: Vec<bool> = Vec::new();
    let mut keys: Vec<u128> = Vec::new();
    let mut i: usize = 0;
    while i < db.orders.len()
        invariant
            i <= db.orders.len(),
            marks.len() == i,
            keys.len() == i,
            forall|k: int| 0 <= k < i ==> #[trigger] marks[k] == in_history(date)(db.orders@[k]),
            forall|k: int| 0 <= k < i ==> #[trigger] keys[k] == order_recency()(db.orders@[k]),
        decreases db.orders.len() - i,
    {
        let record = &db.orders[i];
        marks.push(record.status != OrderStatus::Open && (match date {
            Some(day) => record.created_at.day as i64 == day,
            None => true,
        }));
        keys.push(newest_first_rank(record.created_at));
        i += 1;
    }
    proof {
        assert(marks@ =~= marks_of(db.orders@, in_history(date)));
        assert(keys@ =~= keys_of(db.orders@, order_recency()));
    }
    let all = select_ranked(&marks, &keys);
    let at = page_of(&all, offset, limit, Ghost(db.orders.len() as int));
    let mut orders: Vec<OrderResponse> = Vec::new();
    let mut j: usize = 0;
    while j < at.len()
        invariant
            j <= at.len(),
            within(at@, db.orders.len() as int),
            orders.len() == j,
            forall|k: int|
                0 <= k < j ==> (#[trigger] orders@[k]).shows(db@.orders[at@[k] as int], db@),
        decreases at.len() - j,
    {
        orders.push(order_view(db, at[j]));
        j += 1;
    }
    let total = all.len() as u64;
    let has_more = (offset as u128) + (limit as u128) < (total as u128);
    Ok(OrderHistoryResult { orders, total_count: total, has_more })
}

/// Putting units of an existing product on an open, unlocked tab succeeds
/// whenever the quantity is positive, the key of a new line is unused and
/// the sums fit. The answer is then the tab with its lines as they are
/// kept, and its total, in the answer and as kept, is the sum over those
/// lines of quantity times unit price.
pub proof fn lemma_add_totals(
    pre: Records,
    post: Records,
    order_id: String,
    product_id: String,
    quantity: i32,
    id: String,
    now: Timestamp,
    out: Result<OrderResponse, AppError>,
)
    requires
        item_added(pre, post, order_id, product_id, quantity, id, now, out),
        has_key(pre.orders, order_id@),
        !record_of(pre.orders, order_id@).is_locked,
        record_of(pre.orders, order_id@).status == OrderStatus::Open,
        has_key(pre.products, product_id@),
        quantity > 0,
        mergeable(pre.items, order_id@, product_id@) || !has_key(pre.items, id@),
        mergeable(pre.items, order_id@, product_id@) ==> fits_i32(
            pre.items[merge_index(pre.items, order_id@, product_id@)].quantity + quantity,
        ),
        fits_i32(total_of(lines_after_add(pre, order_id, product_id, quantity, id), order_id@)),
    ensures
        out matches Ok(shown) && shown.id@ == order_id@ && shown.total_amount == total_of(
            post.items,
            order_id@,
        ) && shown.items@ == item_rows(post.items, post.products, order_id@),
        post.items == lines_after_add(pre, order_id, product_id, quantity, id),
        record_of(post.orders, order_id@).total_amount == total_of(post.items, order_id@),
{
    lemma_retotaled_record(pre.orders, post.items, order_id@, now);
}

/// Setting a line of an unlocked tab to a positive quantity succeeds
/// whenever the new total fits. The line then has the new quantity at the
/// price and paid state it had, every other line is as it was, and the
/// tab's total has moved by the difference in quantity times the line's
/// unit price: it is again the sum over the tab's lines.
pub proof fn lemma_update_totals(
    pre: Records,
    post: Records,
    item: Seq<char>,
    quantity: i32,
    now: Timestamp,
    out: Result<OrderResponse, AppError>,
)
    requires
        pre.wf(),
        item_updated(pre, post, item, quantity, now, out),
        has_key(pre.items, item),
        !record_of(pre.orders, record_of(pre.items, item).order_id@).is_locked,
        quantity > 0,
        fits_i32(
            total_of(
                lines_after_update(pre.items, item, quantity),
                record_of(pre.items, item).order_id@,
            ),
        ),
    ensures
        out matches Ok(shown) && shown.id@ == record_of(pre.items, item).order_id@
            && shown.total_amount == total_of(post.items, record_of(pre.items, item).order_id@)
            && shown.total_amount == record_of(
            pre.orders,
            record_of(pre.items, item).order_id@,
        ).total_amount + (quantity - record_of(pre.items, item).quantity) * record_of(
            pre.items,
            item,
        ).unit_price && shown.items@ == item_rows(
            post.items,
            post.products,
            record_of(pre.items, item).order_id@,
        ),
        post.items == pre.items.update(
            index_of(pre.items, item),
            order_item::Model { quantity, ..record_of(pre.items, item) },
        ),
        post.transactions == pre.transactions,
{
    lemma_first_exists(pre.items, item);
    let k = index_of(pre.items, item);
    let order = pre.items[k].order_id@;
    assert(has_key(pre.orders, pre.items[k].owner()));
    lemma_first_exists(pre.orders, order);
    lemma_retotaled_record(pre.orders, post.items, order, now);
    lemma_total_update(pre.items, k, order_item::Model { quantity, ..pre.items[k] }, order);
    assert(pre.orders[index_of(pre.orders, order)].total_amount == total_of(
        pre.items,
        pre.orders[index_of(pre.orders, order)].id@,
    ));
    assert((quantity - pre.items[k].quantity) * pre.items[k].unit_price == quantity
        * pre.items[k].unit_price - pre.items[k].quantity * pre.items[k].unit_price)
        by (nonlinear_arith);
}

/// Removing a line of an unlocked tab succeeds whenever the new total
/// fits. The line is then gone, every other line and every payment is as
/// it was, and the tab's total has dropped by the line's quantity times its
/// unit price: it is again the sum over the tab's lines.
pub proof fn lemma_remove_totals(
    pre: Records,
    post: Records,
    item: Seq<char>,
    now: Timestamp,
    out: Result<OrderResponse, AppError>,
)
    requires
        pre.wf(),
        item_removed(pre, post, item, now, out),
        has_key(pre.items, item),
        !record_of(pre.orders, record_of(pre.items, item).order_id@).is_locked,
        fits_i32(
            total_of(
                pre.items.remove(index_of(pre.items, item)),
                record_of(pre.items, item).order_id@,
            ),
        ),
    ensures
        out matches Ok(shown) && shown.id@ == record_of(pre.items, item).order_id@
            && shown.total_amount == total_of(post.items, record_of(pre.items, item).order_id@)
            && shown.total_amount == record_of(
            pre.orders,
            record_of(pre.items, item).order_id@,
        ).total_amount - record_of(pre.items, item).quantity * record_of(pre.items, item).unit_price
            && shown.items@ == item_rows(
            post.items,
            post.products,
            record_of(pre.items, item).order_id@,
        ),
        post.items == pre.items.remove(index_of(pre.items, item)),
        !has_key(post.items, item),
        post.transactions == pre.transactions,
{
    lemma_first_exists(pre.items, item);
    let k = index_of(pre.items, item);
    let order = pre.items[k].order_id@;
    assert(has_key(pre.orders, pre.items[k].owner()));
    lemma_first_exists(pre.orders, order);
    lemma_retotaled_record(pre.orders, post.items, order, now);
    lemma_total_remove(pre.items, k, order);
    assert(pre.orders[index_of(pre.orders, order)].total_amount == total_of(
        pre.items,
        pre.orders[index_of(pre.orders, order)].id@,
    ));
    if has_key(post.items, item) {
        let j = choose|j: int| 0 <= j < post.items.len() && (#[trigger] post.items[j]).key() == item;
        let from = if j < k { j } else { j + 1 };
        assert(post.items[j] == pre.items[from]);
        if from < k {
            assert(pre.items[from].key() != pre.items[k].key());
        } else {
            assert(pre.items[k].key() != pre.items[from].key());
        }
    }
}

} // verus!
