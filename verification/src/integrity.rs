//! Checking records that come from outside: whether they are well-formed.

use crate::db::Database;
use crate::db::all_paid;
use crate::db::closed_are_paid;
use crate::db::one_open_per_table;
use crate::db::one_summary_per_day;
use crate::db::positive_amounts;
use crate::db::positive_quantities;
use crate::db::seated;
use crate::db::totals_agree;
use crate::db::unique_names;
use crate::entities::daily_summary;
use crate::entities::order::OrderStatus;
use crate::entities::order;
use crate::entities::order_item;
use crate::entities::table;
use crate::entities::transaction;
use crate::record::Entry;
use crate::record::Record;
use crate::record::attached;
use crate::record::has_key;
use crate::record::position;
use crate::record::sum_for;
use crate::record::total_of;
use crate::record::unique_keys;
use vstd::prelude::*;

verus! {

/// Whether no two records of `v` share a key.
pub fn keys_are_unique<T: Record>(v: &Vec<T>) -> (ok: bool)
    ensures
        ok == unique_keys(v@),
{
    let mut j: usize = 0;
    while j < v.len()
        invariant
            j <= v.len(),
            forall|a: int, b: int| 0 <= a < b < j ==> (#[trigger] v[a]).key() != (#[trigger] v[b]).key(),
        decreases v.len() - j,
    {
        let mut i: usize = 0;
        while i < j
            invariant
                i <= j,
                j < v.len(),
                forall|a: int| 0 <= a < i ==> (#[trigger] v[a]).key() != v[j as int].key(),
            decreases j - i,
        {
            if *v[i].id() == *v[j].id() {
                return false;
            }
            i += 1;
        }
        j += 1;
    }
    true
}

/// Whether no two tables share a name.
pub fn names_are_unique(tables: &Vec<table::Model>) -> (ok: bool)
    ensures
        ok == unique_names(tables@),
{
    let mut j: usize = 0;
    while j < tables.len()
        invariant
            j <= tables.len(),
            forall|a: int, b: int|
                0 <= a < b < j ==> (#[trigger] tables[a]).name@ != (#[trigger] tables[b]).name@,
        decreases tables.len() - j,
    {
        let mut i: usize = 0;
        while i < j
            invariant
                i <= j,
                j < tables.len(),
                forall|a: int| 0 <= a < i ==> (#[trigger] tables[a]).name@ != tables[j as int].name@,
            decreases j - i,
        {
            if tables[i].name == tables[j].name {
                return false;
            }
            i += 1;
        }
        j += 1;
    }
    true
}

/// Whether no business day has two summaries.
pub fn days_are_unique(summaries: &Vec<daily_summary::Model>) -> (ok: bool)
    ensures
        ok == one_summary_per_day(summaries@),
{
    let mut j: usize = 0;
    while j < summaries.len()
        invariant
            j <= summaries.len(),
            forall|a: int, b: int|
                0 <= a < b < j ==> (#[trigger] summaries[a]).date != (#[trigger] summaries[b]).date,
        decreases summaries.len() - j,
    {
        let mut i: usize = 0;
        while i < j
            invariant
                i <= j,
                j < summaries.len(),
                forall|a: int| 0 <= a < i ==> (#[trigger] summaries[a]).date != summaries[j as int].date,
            decreases j - i,
        {
            if summaries[i].date == summaries[j].date {
                return false;
            }
            i += 1;
        }
        j += 1;
    }
    true
}

/// Whether no table has two open tabs.
pub fn tables_have_one_tab(orders: &Vec<order::Model>) -> (ok: bool)
    ensures
        ok == one_open_per_table(orders@),
{
    let mut j: usize = 0;
    while j < orders.len()
        invariant
            j <= orders.len(),
            forall|a: int, b: int|
                0 <= a < b < j && (#[trigger] orders[a]).status == OrderStatus::Open && (
                #[trigger] orders[b]).status == OrderStatus::Open ==> orders[a].table_id@
                    != orders[b].table_id@,
        decreases orders.len() - j,
    {
        if orders[j].status == OrderStatus::Open {
            let mut i: usize = 0;
            while i < j
                invariant
                    i <= j,
                    j < orders.len(),
                    orders[j as int].status == OrderStatus::Open,
                    forall|a: int|
                        0 <= a < i && (#[trigger] orders[a]).status == OrderStatus::Open
                            ==> orders[a].table_id@ != orders[j as int].table_id@,
                decreases j - i,
            {
                if orders[i].status == OrderStatus::Open && orders[i].table_id
                    == orders[j].table_id {
                    return false;
                }
                i += 1;
            }
        }
        j += 1;
    }
    true
}

/// Whether every tab stands on a table that exists.
pub fn tabs_are_seated(orders: &Vec<order::Model>, tables: &Vec<table::Model>) -> (ok: bool)
    ensures
        ok == seated(orders@, tables@),
{
    let mut i: usize = 0;
    while i < orders.len()
        invariant
            i <= orders.len(),
            forall|a: int| 0 <= a < i ==> has_key(tables@, (#[trigger] orders[a]).table_id@),
        decreases orders.len() - i,
    {
        if position(tables, &orders[i].table_id).is_none() {
            return false;
        }
        i += 1;
    }
    true
}

/// Whether every record of `v` belongs to a tab that exists.
pub fn entries_are_attached<T: Entry>(v: &Vec<T>, orders: &Vec<order::Model>) -> (ok: bool)
    ensures
        ok == attached(v@, orders@),
{
    let mut i: usize = 0;
    while i < v.len()
        invariant
            i <= v.len(),
            forall|a: int| 0 <= a < i ==> has_key(orders@, (#[trigger] v[a]).owner()),
        decreases v.len() - i,
    {
        if position(orders, v[i].owner_id()).is_none() {
            return false;
        }
        i += 1;
    }
    true
}

/// Whether every line counts at least one unit.
pub fn quantities_are_positive(items: &Vec<order_item::Model>) -> (ok: bool)
    ensures
        ok == positive_quantities(items@),
{
    let mut i: usize = 0;
    while i < items.len()
        invariant
            i <= items.len(),
            forall|a: int| 0 <= a < i ==> (#[trigger] items[a]).quantity > 0,
        decreases items.len() - i,
    {
        if items[i].quantity <= 0 {
            return false;
        }
        i += 1;
    }
    true
}

/// Whether every payment is of more than nothing.
pub fn amounts_are_positive(payments: &Vec<transaction::Model>) -> (ok: bool)
    ensures
        ok == positive_amounts(payments@),
{
    let mut i: usize = 0;
    while i < payments.len()
        invariant
            i <= payments.len(),
            forall|a: int| 0 <= a < i ==> (#[trigger] payments[a]).amount > 0,
        decreases payments.len() - i,
    {
        if payments[i].amount <= 0 {
            return false;
        }
        i += 1;
    }
    true
}

/// Whether every tab's total is the sum over its lines of quantity times
/// unit price.
pub fn totals_are_right(orders: &Vec<order::Model>, items: &Vec<order_item::Model>) -> (ok: bool)
    ensures
        ok == totals_agree(orders@, items@),
{
    let mut i: usize = 0;
    while i < orders.len()
        invariant
            i <= orders.len(),
            forall|a: int|
                0 <= a < i ==> (#[trigger] orders[a]).total_amount == total_of(items@, orders[a].id@),
        decreases orders.len() - i,
    {
        if sum_for(items, &orders[i].id) != orders[i].total_amount as i128 {
            return false;
        }
        i += 1;
    }
    true
}

/// Whether every line of the tab `order_id` is paid.
pub fn lines_are_paid(items: &Vec<order_item::Model>, order_id: &String) -> (paid: bool)
    ensures
        paid == all_paid(items@, order_id@),
{
    let mut k: usize = 0;
    while k < items.len()
        invariant
            k <= items.len(),
            forall|j: int| 0 <= j < k && (#[trigger] items[j]).order_id@ == order_id@ ==> items[j].is_paid,
        decreases items.len() - k,
    {
        if items[k].order_id == *order_id && !items[k].is_paid {
            return false;
        }
        k += 1;
    }
    true
}

/// Whether every line of every closed tab is paid.
pub fn closed_tabs_are_paid(orders: &Vec<order::Model>, items: &Vec<order_item::Model>) -> (ok:
    bool)
    ensures
        ok == closed_are_paid(orders@, items@),
{
    let mut i: usize = 0;
    while i < orders.len()
        invariant
            i <= orders.len(),
            forall|a: int|
                0 <= a < i && (#[trigger] orders[a]).status == OrderStatus::Closed ==> all_paid(
                    items@,
                    orders[a].id@,
                ),
        decreases orders.len() - i,
    {
        if orders[i].status == OrderStatus::Closed && !lines_are_paid(items, &orders[i].id) {
            return false;
        }
        i += 1;
    }
    true
}

impl Database {
    /// Whether the records are well-formed: what every operation asks of
    /// the records it is given.
    pub fn is_well_formed(&self) -> (ok: bool)
        ensures
            ok == self.wf(),
    {
        keys_are_unique(&self.categories) && keys_are_unique(&self.products) && keys_are_unique(
            &self.tables,
        ) && names_are_unique(&self.tables) && keys_are_unique(&self.orders) && keys_are_unique(
            &self.items,
        ) && keys_are_unique(&self.transactions) && keys_are_unique(&self.summaries)
            && keys_are_unique(&self.expenses) && keys_are_unique(&self.logs) && keys_are_unique(
            &self.monthly_reports,
        ) && keys_are_unique(&self.settings) && tabs_are_seated(&self.orders, &self.tables)
            && entries_are_attached(&self.items, &self.orders) && entries_are_attached(
            &self.transactions,
            &self.orders,
        ) && quantities_are_positive(&self.items) && amounts_are_positive(&self.transactions)
            && totals_are_right(&self.orders, &self.items) && tables_have_one_tab(&self.orders)
            && closed_tabs_are_paid(&self.orders, &self.items) && days_are_unique(&self.summaries)
    }
}

} // verus!
