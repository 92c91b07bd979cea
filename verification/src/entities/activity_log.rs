//! The operator-visible trail of what was done.

use crate::clock::Timestamp;
use crate::record::Record;
use crate::record::copy_text;
use vstd::prelude::*;

verus! {

/// One entry of the trail.
#[derive(Debug, PartialEq, Eq)]
pub struct Model {
    pub id: String,
    pub action: String,
    pub table_name: Option<String>,
    pub user_name: Option<String>,
    pub details: Option<String>,
    pub created_at: Timestamp,
}

impl Clone for Model {
    fn clone(&self) -> (copy: Self)
        ensures
            copy == *self,
    {
        Model {
            id: self.id.clone(),
            action: self.action.clone(),
            table_name: copy_text(&self.table_name),
            user_name: copy_text(&self.user_name),
            details: copy_text(&self.details),
            created_at: self.created_at,
        }
    }
}

impl Record for Model {
    open spec fn key(&self) -> Seq<char> {
        self.id@
    }

    fn id(&self) -> (id: &String) {
        &self.id
    }

    fn duplicate(&self) -> (copy: Self) {
        self.clone()
    }
}

} // verus!
