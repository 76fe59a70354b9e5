pub mod error;
pub mod text;
pub mod time;
pub mod config;
pub mod persistence;
pub mod serialization;
pub mod threading;
