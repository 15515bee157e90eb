//! Verified core of a home-network presence monitor.
pub mod text;
pub mod mac;
pub mod collections;
pub mod monitor;
pub mod persistence;
pub mod stores;
pub mod config;
pub mod discord;
pub mod scanning;
pub mod message_tracker;
