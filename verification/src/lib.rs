//! A load-test configuration engine: configuration models, shorthand
//! normalization, placeholder interpolation, macro and environment
//! resolution, control-flow conditions, assertions, pacing, reporting
//! helpers and configuration overrides, each with a verified contract.

pub mod engine;
pub mod json;
pub mod models;
pub mod normalizer;
pub mod options;
pub mod strmap;
pub mod text;
pub mod translator;
