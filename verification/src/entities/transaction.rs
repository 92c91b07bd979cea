//! Payments recorded against a tab.

use crate::clock::Timestamp;
use crate::record::Entry;
use crate::record::Record;
use vstd::prelude::*;

verus! {

/// How a payment was made.
#[derive(Clone, Copy, Debug, PartialEq, Eq, Structural)]
pub enum PaymentMethod {
    Cash,
    Card,
}

/// One payment. Never changed once recorded.
#[derive(Debug, PartialEq, Eq)]
pub struct Model {
    pub id: String,
    pub order_id: String,
    pub amount: i32,
    pub payment_method: PaymentMethod,
    pub created_at: Timestamp,
}

impl Clone for Model {
    fn clone(&self) -> (copy: Self)
        ensures
            copy == *self,
    {
        Model {
            id: self.id.clone(),
            order_id: self.order_id.clone(),
            amount: self.amount,
            payment_method: self.payment_method,
            created_at: self.created_at,
        }
    }
}

impl Record for Model {
    open spec fn key(&self) -> Seq<char> {
        self.id@
    }

    fn id(&self) -> (id: &String) {
        &self.id
    }

    fn duplicate(&self) -> (copy: Self) {
        self.clone()
    }
}

impl Entry for Model {
    open spec fn owner(&self) -> Seq<char> {
        self.order_id@
    }

    open spec fn worth(&self) -> int {
        self.amount as int
    }

    fn owner_id(&self) -> (id: &String) {
        &self.order_id
    }

    fn amount(&self) -> (w: i128) {
        self.amount as i128
    }
}

impl PaymentMethod {
    /// The name the method is stored and shown under.
    pub open spec fn name_of(self) -> Seq<char> {
        match self {
            PaymentMethod::Cash => "CASH"@,
            PaymentMethod::Card => "CARD"@,
        }
    }

    /// The name the method is stored and shown under.
    pub fn name(self) -> (name: String)
        ensures
            name@ == self.name_of(),
    {
        match self {
            PaymentMethod::Cash => String::from_str("CASH"),
            PaymentMethod::Card => String::from_str("CARD"),
        }
    }

    /// The method stored under `name`, if `name` names one.
    pub fn from_name(name: &str) -> (method: Option<PaymentMethod>)
        ensures
            method == (if name@ == PaymentMethod::Cash.name_of() {
                Some(PaymentMethod::Cash)
            } else if name@ == PaymentMethod::Card.name_of() {
                Some(PaymentMethod::Card)
            } else {
                None
            }),
    {
        let given = String::from_str(name);
        if given == String::from_str("CASH") {
            Some(PaymentMethod::Cash)
        } else if given == String::from_str("CARD") {
            Some(PaymentMethod::Card)
        } else {
            None
        }
    }
}

} // verus!
