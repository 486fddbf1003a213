//! Fuzzy inference: membership functions, rule bases, and the checks they
//! pass before Mamdani, Sugeno or Tsukamoto inference.
pub mod defuzz;
pub mod engine;
pub mod sugeno;
pub mod tsukamoto;
pub mod types;
