pub mod amount;
pub mod engine;
pub mod laws;
