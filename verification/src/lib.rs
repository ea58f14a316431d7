pub mod text;
pub mod version;
pub mod deps;
pub mod package;
pub mod crypto;
pub mod config;
pub mod i18n;
pub mod flatpak;
pub mod db;
pub mod cli_types;
pub mod commands;
pub mod repo;
pub mod cms;
pub mod backend;
