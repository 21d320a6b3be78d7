//! Banker's safety check over one class of resources.
//!
//! A [`Demand`] holds what is free of each resource, what every thread holds
//! and what every thread still asks for.  The state is safe when the active
//! threads can be put in an order in which each finds its need covered by
//! what is free plus what its predecessors gave back.

pub mod demand;
pub mod model;

pub use demand::{Demand, ResourceUse, ResourceUseView, EXCLUDED_TID};
pub use model::DemandView;
