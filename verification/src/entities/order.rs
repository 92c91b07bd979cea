//! Tabs.

use crate::clock::Timestamp;
use crate::record::Record;
use vstd::prelude::*;

verus! {

/// Where a tab stands in its life.
#[derive(Clone, Copy, Debug, PartialEq, Eq, Structural)]
pub enum OrderStatus {
    Open,
    Closed,
}

/// One tab, open or settled, on one table.
#[derive(Debug, PartialEq, Eq)]
pub struct Model {
    pub id: String,
    pub table_id: String,
    pub status: OrderStatus,
    /// Always the sum of quantity times unit price over the tab's lines.
    pub total_amount: i32,
    /// While set, the tab's lines cannot be added to, changed or removed.
    pub is_locked: bool,
    pub created_at: Timestamp,
    pub updated_at: Timestamp,
}

impl Clone for Model {
    fn clone(&self) -> (copy: Self)
        ensures
            copy == *self,
    {
        Model {
            id: self.id.clone(),
            table_id: self.table_id.clone(),
            status: self.status,
            total_amount: self.total_amount,
            is_locked: self.is_locked,
            created_at: self.created_at,
            updated_at: self.updated_at,
        }
    }
}

impl Record for Model {
    open spec fn key(&self) -> Seq<char> {
        self.id@
    }

    fn id(&self) -> (id: &String) {
        &self.id
    }

    fn duplicate(&self) -> (copy: Self) {
        self.clone()
    }
}

impl OrderStatus {
    /// The name the state is stored and shown under.
    pub open spec fn name_of(self) -> Seq<char> {
        match self {
            OrderStatus::Open => "OPEN"@,
            OrderStatus::Closed => "CLOSED"@,
        }
    }

    /// The name the state is stored and shown under.
    pub fn name(self) -> (name: String)
        ensures
            name@ == self.name_of(),
    {
        match self {
            OrderStatus::Open => String::from_str("OPEN"),
            OrderStatus::Closed => String::from_str("CLOSED"),
        }
    }

    /// The state stored under `name`, if `name` names one.
    pub fn from_name(name: &str) -> (status: Option<OrderStatus>)
        ensures
            status == (if name@ == OrderStatus::Open.name_of() {
                Some(OrderStatus::Open)
            } else if name@ == OrderStatus::Closed.name_of() {
                Some(OrderStatus::Closed)
            } else {
                None
            }),
    {
        let given = String::from_str(name);
        if given == String::from_str("OPEN") {
            Some(OrderStatus::Open)
        } else if given == String::from_str("CLOSED") {
            Some(OrderStatus::Closed)
        } else {
            None
        }
    }
}

} // verus!
