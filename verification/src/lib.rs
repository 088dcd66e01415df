//! Fit recommendation and skill planning engine.
//!
//! The engine is a set of pure, synchronous computations over immutable
//! catalog and skill data: eligibility filtering, multi-objective fit
//! generation, fit validation, alternative-fit repair, skill-plan
//! aggregation, ship-tier progression advice, and plan export formatting.
//! It performs no I/O; the surrounding application supplies catalogs and
//! skills and consumes plain data in return.

pub mod model;
pub mod skills;
pub mod validator;
pub mod export;
pub mod plan;
pub mod generator;
pub mod alternatives;
pub mod progression;
pub mod recommend;
pub mod session;
