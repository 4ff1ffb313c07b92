pub mod base;
pub mod configuration;
