pub mod metrics;
pub mod proxy;
pub mod route_store_memory;
pub mod runtime;
pub mod secrets_memory;
pub mod state_memory;
