//! Backpack exchange rows and how they become orders, positions and
//! collateral figures.

pub mod dto;
pub mod backpack;
pub mod client;
