//! Verified core of a short-only-first grid trading bot for Backpack futures:
//! decimal precision handling, grid planning, risk gating, order reconciliation,
//! fill inference and the service cycle that ties them together.

pub mod clock;
pub mod decimal;
pub mod domain;
pub mod text;
pub mod config;
pub mod precision;
pub mod risk;
pub mod sort;
pub mod planner;
pub mod keys;
pub mod execution;
pub mod reconcile;
pub mod health;
pub mod events;
pub mod state;
pub mod service;
pub mod observability;
pub mod persistence;
pub mod adapter;
pub mod model;
pub mod settings;
pub mod strategy;
pub mod exchange;
pub mod stream;
pub mod cycle;
pub mod runtime;
pub mod signing;
