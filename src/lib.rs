//! Data-access layer for the `item` table: audit-stamped create / get / list /
//! update / delete over a table model, with a composable filter language and
//! list options.
pub mod bmc;
pub mod ctx;
pub mod error;
pub mod filter;
pub mod item;
pub mod model;
pub mod order;
pub mod time;
