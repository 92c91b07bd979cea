//! The once-per-day financial close-out record.

use crate::clock::Timestamp;
use crate::record::Record;
use vstd::prelude::*;

verus! {

/// The close-out of one business day.
#[derive(Debug, PartialEq, Eq)]
pub struct Model {
    pub id: String,
    /// The business day, counted as `Timestamp::day` is.
    pub date: i64,
    pub total_cash: i32,
    /// The cash the operator counted, if entered.
    pub actual_cash: Option<i32>,
    pub total_card: i32,
    pub total_expenses: i32,
    pub net_profit: i32,
    pub cancel_count: i32,
    pub total_vat: i32,
    pub order_count: i32,
    pub total_revenue: i32,
    pub created_at: Timestamp,
}

impl Clone for Model {
    fn clone(&self) -> (copy: Self)
        ensures
            copy == *self,
    {
        Model {
            id: self.id.clone(),
            date: self.date,
            total_cash: self.total_cash,
            actual_cash: self.actual_cash,
            total_card: self.total_card,
            total_expenses: self.total_expenses,
            net_profit: self.net_profit,
            cancel_count: self.cancel_count,
            total_vat: self.total_vat,
            order_count: self.order_count,
            total_revenue: self.total_revenue,
            created_at: self.created_at,
        }
    }
}

impl Record for Model {
    open spec fn key(&self) -> Seq<char> {
        self.id@
    }

    fn id(&self) -> (id: &String) {
        &self.id
    }

    fn duplicate(&self) -> (copy: Self) {
        self.clone()
    }
}

} // verus!
