//! Data models.

pub mod config;
