//! Core logic for a chat-community rating-role bot: parsing rating-band
//! role labels, a per-community registry of rating ranges, the
//! reconciliation that turns fresh ratings into role changes, and a
//! single-use PKCE linking challenge protocol.

pub mod bot;
pub mod config;
pub mod lichess;
pub mod models;
pub mod ratings;
pub mod text;
pub mod web;
