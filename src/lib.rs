//! Collects named circuit inputs and assembles circuit instances for an
//! R1CS proving pipeline.
pub mod builder;
pub mod input;

pub use builder::{BuildError, CircomBuilder, CircomCircuit, CircomConfig, WitnessRequest, R1CS};
pub use input::{InputError, JsonValue, R1CSInputs};
