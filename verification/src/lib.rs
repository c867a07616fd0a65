//! Verified core of the `axes` workflow orchestrator.

pub mod arg_parser;
pub mod cache;
pub mod color;
pub mod commons;
pub mod compiler;
pub mod context;
pub mod dev_utils;
pub mod dispatch;
pub mod display;
pub mod executor;
pub mod handlers;
pub mod index_manager;
pub mod loader;
pub mod models;
pub mod onboarding;
pub mod operations;
pub mod parameters;
pub mod paths;
pub mod resolved;
pub mod shell;
pub mod state;
pub mod task_executor;
pub mod text;
