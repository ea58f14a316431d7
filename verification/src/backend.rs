//! The community package site's API server and its build worker.

pub mod config;
pub mod db;
pub mod models;
pub mod services;
pub mod middleware;
pub mod worker;
