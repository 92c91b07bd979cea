//! The records the till keeps, one module per kind.

pub mod activity_log;
pub mod app_settings;
pub mod category;
pub mod daily_summary;
pub mod expense;
pub mod monthly_report;
pub mod order;
pub mod order_item;
pub mod product;
pub mod table;
pub mod transaction;
