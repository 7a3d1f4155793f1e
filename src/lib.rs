//! A turn-based contagion model on a square grid: agents hold an optional
//! symptom-onset turn, symptomatic agents put infection pressure on the
//! eight cells around them, and each turn healthy agents under pressure may
//! be exposed.

pub mod agent;
pub mod pressure;
pub mod random;
pub mod simulation;
pub mod laws;
