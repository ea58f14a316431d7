//! The package review server: submissions from the community forge, build
//! jobs, and the administrators who approve them.

pub mod models;
pub mod config;
pub mod auth;
pub mod build_queue;
pub mod webhooks;
pub mod handlers;
