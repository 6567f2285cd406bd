//! The verified core of the SEI'21 Discord bot: the company and tier tables
//! that the bot keeps per guild, how names are normalised, and the decisions
//! that the bot's commands, HTTP endpoints and event handlers take.
pub mod assoc;
pub mod names;
pub mod company;
pub mod tier;
pub mod guild;
pub mod tiers;
pub mod requests;
pub mod text;
pub mod handler;
pub mod api;
pub mod config;
pub mod commands;
pub mod listing;
