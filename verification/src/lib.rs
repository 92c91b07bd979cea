//! A single point-of-sale till: tables, open tabs, line items, payments and
//! the nightly closing procedure, over an in-memory image of the till's
//! records.
//!
//! Every operation is a function from the records before the call to the
//! records after it, and states what it keeps true of them.

pub mod clock;
pub mod commands;
pub mod db;
pub mod entities;
pub mod error;
pub mod figures;
pub mod ident;
pub mod integrity;
pub mod listing;
pub mod record;
pub mod sorting;
pub mod tally;
pub mod text;
