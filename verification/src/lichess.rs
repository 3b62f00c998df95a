//! Types for the external rating service: rating categories, the rating
//! profile as plain values, the linked-account identity, and the OAuth
//! redirect URL.

pub mod api;
pub mod auth;
pub mod client;
pub mod format;
