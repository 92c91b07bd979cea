//! Groups of the product catalog.

use crate::record::Record;
use crate::record::copy_text;
use vstd::prelude::*;

verus! {

/// One category of products.
#[derive(Debug, PartialEq, Eq)]
pub struct Model {
    pub id: String,
    pub name: String,
    pub icon: Option<String>,
    /// Set when the category was removed from the catalog.
    pub is_deleted: bool,
}

impl Clone for Model {
    fn clone(&self) -> (copy: Self)
        ensures
            copy == *self,
    {
        Model {
            id: self.id.clone(),
            name: self.name.clone(),
            icon: copy_text(&self.icon),
            is_deleted: self.is_deleted,
        }
    }
}

impl Record for Model {
    open spec fn key(&self) -> Seq<char> {
        self.id@
    }

    fn id(&self) -> (id: &String) {
        &self.id
    }

    fn duplicate(&self) -> (copy: Self) {
        self.clone()
    }
}

} // verus!
