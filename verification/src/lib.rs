//! Verified core of the Maximum League desktop companion: discovery of the
//! League Client (LCU) credentials, request framing for the LCU API, and the
//! decisions that turn LCU replies into draft, champion and mastery data.

pub mod text;
pub mod number;
pub mod credentials;
pub mod client;
pub mod status;
pub mod draft;
pub mod champions;
pub mod mastery;
pub mod debug;
