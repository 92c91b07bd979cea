//! The operations of the till, grouped as the operator sees them.

pub mod admin;
pub mod categories;
pub mod dashboard;
pub mod expenses;
pub mod maintenance;
pub mod orders;
pub mod payments;
pub mod products;
pub mod reports;
pub mod tables;
