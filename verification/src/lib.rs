//! Verified core of a Telegram bot that watches Kaspa wallets: text
//! formatting, address validation, subscription bookkeeping, anti-spam
//! rate limiting, reward detection and the command decisions.

pub mod text;
pub mod utils;
pub mod state;
pub mod commands;
pub mod kaspa_features;
pub mod api;
pub mod dag_buffer;
pub mod bot;
pub mod monitor;
