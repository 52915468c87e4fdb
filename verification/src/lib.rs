//! Deterministic simulation core.

pub mod air;
pub mod casualties;
pub mod catalogue;
pub mod conservation;
pub mod economy;
pub mod json;
pub mod laws;
pub mod numbers;
pub mod operations;
pub mod order;
pub mod paycycle;
pub mod production;
pub mod reinforcement;
pub mod rounding;
pub mod runtime;
pub mod scalar;
pub mod scenario;
pub mod settlement;
pub mod simulation;
pub mod strategic;
pub mod tables;
pub mod taskforce;
pub mod text;
pub mod units;
pub mod views;
pub mod worksheet;
