//! Decisions of a desktop manager for containerised chat agents.

pub mod bots;
pub mod chat;
pub mod clock;
pub mod config;
pub mod error;
pub mod events;
pub mod json;
pub mod lifecycle;
pub mod logs;
pub mod models;
pub mod paths;
pub mod ports;
pub mod skill_commands;
pub mod skills;
pub mod telegram;
pub mod terminal;
pub mod text;
pub mod unicode;
pub mod validation;
pub mod workspace;
