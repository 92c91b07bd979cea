//! Products of the catalog.

use crate::record::Record;
use vstd::prelude::*;

verus! {

/// One product with its current price.
#[derive(Debug, PartialEq, Eq)]
pub struct Model {
    pub id: String,
    pub name: String,
    pub price: i32,
    pub category_id: String,
    pub is_favorite: bool,
    /// Set when the product was removed from the catalog.
    pub is_deleted: bool,
}

impl Clone for Model {
    fn clone(&self) -> (copy: Self)
        ensures
            copy == *self,
    {
        Model {
            id: self.id.clone(),
            name: self.name.clone(),
            price: self.price,
            category_id: self.category_id.clone(),
            is_favorite: self.is_favorite,
            is_deleted: self.is_deleted,
        }
    }
}

impl Record for Model {
    open spec fn key(&self) -> Seq<char> {
        self.id@
    }

    fn id(&self) -> (id: &String) {
        &self.id
    }

    fn duplicate(&self) -> (copy: Self) {
        self.clone()
    }
}

} // verus!
