//! Deterministic orchestration of the kernels: one tick, one transaction, one publication.

pub mod aftermath;
pub mod airstage;
pub mod assembly;
pub mod battlefield;
pub mod boot;
pub mod campaign;
pub mod clash;
pub mod command;
pub mod counters;
pub mod course;
pub mod dispatch;
pub mod dynamics;
pub mod effects;
pub mod enlistment;
pub mod error;
pub mod execution;
pub mod influence;
pub mod logistics;
pub mod losses;
pub mod mobilization;
pub mod native;
pub mod opening;
pub mod orders;
pub mod planning;
pub mod policy;
pub mod recruitment;
pub mod publication;
pub mod reign;
pub mod renewal;
pub mod skirmish;
pub mod spreading;
pub mod stages;
pub mod step;
pub mod tactics;
pub mod tick;
pub mod upkeep;
pub mod validation;
pub mod visuals;
pub mod world;
