//! Verified core of the CyberKent event app: sign-up and sign-in rules,
//! the in-memory account store, the coin wallet and the shop filter.

pub mod text;
pub mod auth;
pub mod store;
pub mod shop;
pub mod map;
pub mod sdk;
