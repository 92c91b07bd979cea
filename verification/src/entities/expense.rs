//! Money paid out of the till.

use crate::clock::Timestamp;
use crate::record::Record;
use crate::record::copy_text;
use vstd::prelude::*;

verus! {

/// One expense.
#[derive(Debug, PartialEq, Eq)]
pub struct Model {
    pub id: String,
    pub description: String,
    pub amount: i32,
    pub category: Option<String>,
    pub payment_method: Option<String>,
    pub created_at: Timestamp,
}

impl Clone for Model {
    fn clone(&self) -> (copy: Self)
        ensures
            copy == *self,
    {
        Model {
            id: self.id.clone(),
            description: self.description.clone(),
            amount: self.amount,
            category: copy_text(&self.category),
            payment_method: copy_text(&self.payment_method),
            created_at: self.created_at,
        }
    }
}

impl Record for Model {
    open spec fn key(&self) -> Seq<char> {
        self.id@
    }

    fn id(&self) -> (id: &String) {
        &self.id
    }

    fn duplicate(&self) -> (copy: Self) {
        self.clone()
    }
}

} // verus!
