//! A small bill-splitting library: exact decimal-cents money, bills made of
//! line items, proportional apportionment of a shared total across
//! participants, and a keyed in-memory store of bills.

pub mod bill;
pub mod config;
pub mod currency;
pub mod data;
pub mod error;
pub mod item;
pub mod memory;
