//! Portfolio cash economics, allocation worksheet arithmetic and activity cash
//! diagnostics, with their contracts proved by Verus.

pub mod activity_cash_integrity;
pub mod allocation;
pub mod cash_migration;
pub mod decimal;
pub mod economic_events;
pub mod text;

use vstd::prelude::*;

verus! {

} // verus!
