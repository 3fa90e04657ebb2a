//! Verified core of the trail-racing backend: who a request speaks for,
//! the rider queue at the start, session and device tokens, and the
//! password rules of registration and login.

pub mod auth;
pub mod password;
pub mod que;
pub mod token;
