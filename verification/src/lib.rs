pub mod text;
pub mod model;
pub mod sorting;
pub mod keyed;
pub mod clock;
pub mod config;
pub mod scheduler;
pub mod pressure;
pub mod eviction;
pub mod colocation;
pub mod llama_swap;
pub mod runtime;
pub mod reconcile;
pub mod staging;
pub mod status;
pub mod control;
pub mod gateway;
pub mod telemetry;
pub mod rust_source;
pub mod guard;
pub mod report;
pub mod mcp;
pub mod env_expand;
