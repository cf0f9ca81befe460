//! User registration: input policy, password hashing, a user store with
//! unique emails, and signed, time-bound session tokens.

pub mod text;

pub mod policy;
pub mod hasher;
pub mod token;
pub mod store;
pub mod register;
