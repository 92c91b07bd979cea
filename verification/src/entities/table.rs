//! A place in the room that a tab can be opened on.

use crate::record::Record;
use vstd::prelude::*;

verus! {

/// One table of the room.
#[derive(Debug, PartialEq, Eq)]
pub struct Model {
    pub id: String,
    /// Shown to the operator; no two tables share a name.
    pub name: String,
}

impl Clone for Model {
    fn clone(&self) -> (copy: Self)
        ensures
            copy == *self,
    {
        Model {
            id: self.id.clone(),
            name: self.name.clone(),
        }
    }
}

impl Record for Model {
    open spec fn key(&self) -> Seq<char> {
        self.id@
    }

    fn id(&self) -> (id: &String) {
        &self.id
    }

    fn duplicate(&self) -> (copy: Self) {
        self.clone()
    }
}

} // verus!
