//! Laws: what the rules of the war come to, stated of their inputs and results.

pub mod accounting;
pub mod admitting;
pub mod cycling;
pub mod drafting;
pub mod fighting;
pub mod intelligence;
pub mod losing;
pub mod measuring;
pub mod operating;
pub mod paying;
pub mod planning;
pub mod proceeding;
pub mod reckoning;
pub mod recruiting;
pub mod selecting;
pub mod settling;
pub mod staging;
pub mod steering;
pub mod surrendering;
pub mod ticking;
pub mod validating;
