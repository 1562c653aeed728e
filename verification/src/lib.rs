//! Verified core of NymX Mail: the wire format spoken between the mail
//! client and the mixnet mail server, the receiver's transfer bookkeeping,
//! the fetch helpers and the contact book.

pub mod codec;
pub mod text;
pub mod protocol;
pub mod receiver;
pub mod digest;
pub mod tokens;
pub mod sender;
pub mod delivery;
pub mod fetch;
pub mod config;
pub mod contacts;
pub mod paths;
pub mod activity;
