//! Decision logic of the orca agent and of its AI operations assistant:
//! what a node deploys, reconciles and reports, and how alerts are planned,
//! kept and rendered. Input and output stay with the caller.

pub mod agent;
pub mod ai;
pub mod number;
pub mod text;
