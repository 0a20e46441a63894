//! Core domain model, validation rules and orchestration decisions of the
//! NexaNet container platform.

pub mod clock;
pub mod config;
pub mod domain;
pub mod duration;
pub mod error;
pub mod keyed;
pub mod ports;
pub mod text;
