//! Shipment tracking: reads tracking log lines into time-ordered records,
//! infers and fills in each record's country, and measures transit times.

pub mod builder;
pub mod calc;
pub mod error;
pub mod extract;
pub mod locale;
pub mod record;
pub mod timestamp;
pub mod transfer;
