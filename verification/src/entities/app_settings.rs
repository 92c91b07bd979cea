//! The till's administrative settings.

use crate::record::Record;
use crate::record::copy_text;
use vstd::prelude::*;

verus! {

/// The single settings record.
#[derive(Debug, PartialEq, Eq)]
pub struct Model {
    pub id: String,
    pub admin_pin: Option<String>,
    pub security_answer: Option<String>,
    pub security_question: Option<String>,
}

impl Clone for Model {
    fn clone(&self) -> (copy: Self)
        ensures
            copy == *self,
    {
        Model {
            id: self.id.clone(),
            admin_pin: copy_text(&self.admin_pin),
            security_answer: copy_text(&self.security_answer),
            security_question: copy_text(&self.security_question),
        }
    }
}

impl Record for Model {
    open spec fn key(&self) -> Seq<char> {
        self.id@
    }

    fn id(&self) -> (id: &String) {
        &self.id
    }

    fn duplicate(&self) -> (copy: Self) {
        self.clone()
    }
}

} // verus!
