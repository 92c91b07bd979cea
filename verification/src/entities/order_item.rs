//! Lines of a tab.

use crate::record::Entry;
use crate::record::Record;
use vstd::prelude::*;

verus! {

/// One line of a tab: a product, how many, and the price it was added at.
#[derive(Debug, PartialEq, Eq)]
pub struct Model {
    pub id: String,
    pub order_id: String,
    pub product_id: String,
    pub quantity: i32,
    /// The product's price when the line was created; never updated afterwards.
    pub unit_price: i32,
    pub is_paid: bool,
}

impl Clone for Model {
    fn clone(&self) -> (copy: Self)
        ensures
            copy == *self,
    {
        Model {
            id: self.id.clone(),
            order_id: self.order_id.clone(),
            product_id: self.product_id.clone(),
            quantity: self.quantity,
            unit_price: self.unit_price,
            is_paid: self.is_paid,
        }
    }
}

impl Record for Model {
    open spec fn key(&self) -> Seq<char> {
        self.id@
    }

    fn id(&self) -> (id: &String) {
        &self.id
    }

    fn duplicate(&self) -> (copy: Self) {
        self.clone()
    }
}

impl Entry for Model {
    open spec fn owner(&self) -> Seq<char> {
        self.order_id@
    }

    open spec fn worth(&self) -> int {
        self.quantity * self.unit_price
    }

    fn owner_id(&self) -> (id: &String) {
        &self.order_id
    }

    fn amount(&self) -> (w: i128) {
        let quantity: i128 = self.quantity as i128;
        let price: i128 = self.unit_price as i128;
        proof {
            lemma_product_bound(self.quantity as int, self.unit_price as int);
        }
        quantity * price
    }
}

/// The product of two 32-bit numbers stays within the worth limit.
pub proof fn lemma_product_bound(a: int, b: int)
    requires
        -0x8000_0000 <= a < 0x8000_0000,
        -0x8000_0000 <= b < 0x8000_0000,
    ensures
        -0x4000_0000_0000_0000 <= a * b <= 0x4000_0000_0000_0000,
{
    assert(-0x4000_0000_0000_0000 <= a * b <= 0x4000_0000_0000_0000) by (nonlinear_arith)
        requires
            -0x8000_0000 <= a < 0x8000_0000,
            -0x8000_0000 <= b < 0x8000_0000,
    ;
}

} // verus!
