//! The kernel: one loop that takes events through a chain of stages, each of
//! them deterministic. `model` spells the steps out, `machine` takes them,
//! `driver` runs plugins and the model for them, and `progress`, `soundness`,
//! `moves`, `laws`, `chain`, `asked`, `told`, `offer`, `tally` and `trust` say what holds of every run, and `bare`
//! what comes of one without plugins.

pub mod answers;
pub mod asked;
pub mod bare;
pub mod builder;
pub mod chain;
pub mod command;
pub mod driver;
pub mod laws;
pub mod machine;
pub mod mind;
pub mod model;
pub mod moves;
pub mod offer;
pub mod payload;
pub mod progress;
pub mod run;
pub mod soundness;
pub mod state;
pub mod tally;
pub mod told;
pub mod trust;
pub mod words;
