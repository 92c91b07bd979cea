//! Per-month roll-ups of the daily summaries.

use crate::clock::Timestamp;
use crate::record::Record;
use vstd::prelude::*;

verus! {

/// One month's figures.
#[derive(Debug, PartialEq, Eq)]
pub struct Model {
    pub id: String,
    pub month_date: String,
    pub total_revenue: i32,
    pub total_expenses: i32,
    pub net_profit: i32,
    pub order_count: i32,
    pub updated_at: Timestamp,
}

impl Clone for Model {
    fn clone(&self) -> (copy: Self)
        ensures
            copy == *self,
    {
        Model {
            id: self.id.clone(),
            month_date: self.month_date.clone(),
            total_revenue: self.total_revenue,
            total_expenses: self.total_expenses,
            net_profit: self.net_profit,
            order_count: self.order_count,
            updated_at: self.updated_at,
        }
    }
}

impl Record for Model {
    open spec fn key(&self) -> Seq<char> {
        self.id@
    }

    fn id(&self) -> (id: &String) {
        &self.id
    }

    fn duplicate(&self) -> (copy: Self) {
        self.clone()
    }
}

} // verus!
