//! The bot's decision core: rating-band role labels, the per-community
//! role registry, text-command parsing, and the reconciliation planner.

pub mod command;
pub mod rating_range;
pub mod reconcile;
pub mod role_manager;
