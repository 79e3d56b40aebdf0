//! Verified core of a direct-summation N-body simulation: the bounded
//! trajectory history of a body, the enumeration of the interacting pairs,
//! and the record validation of the initial-condition loader.

pub mod trajectory;
pub mod loader;
pub mod pairs;
