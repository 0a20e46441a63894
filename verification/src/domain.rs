pub mod health;
pub mod models;
pub mod orchestrator;
pub mod restart;
pub mod scheduler;
