//! The web-facing decision core: OAuth callback parameters, the
//! account-linking outcome, and how each rejection is reported.

pub mod link;
