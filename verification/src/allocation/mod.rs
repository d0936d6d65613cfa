//! Allocation targets and the user-authored rebalancing worksheet.

pub mod model;
pub mod worksheet_service;
pub mod fx_path;
pub mod worksheet_calc;
