//! An iterative DNS stub resolver: a verified wire-format codec for DNS
//! messages and the referral-following state machine that drives it.
pub mod error;
pub mod cursor;
pub mod name;
pub mod header;
pub mod question;
pub mod record;
pub mod packet;
pub mod text;
pub mod query;
pub mod resolver;
