//! A client library for the Roon extension protocol.
//!
//! An extension looks for cores on the network ([`sood`]), connects with them ([`moo`]),
//! registers with them and answers what they ask ([`hub`]). It can provide services of its own
//! ([`service`], [`settings`], [`status`], [`pairing`]) and use those of a core ([`transport`],
//! [`browse`], [`image`]).
//!
//! The library decides what is sent, what is answered and what is stored. Sockets, files and
//! timers are left to its users, who hand in what came in and send what is to go out.

pub mod api;
pub mod browse;
pub mod cores;
pub mod hub;
pub mod image;
pub mod info;
pub mod json;
pub mod json_text;
pub mod logger;
pub mod moo;
pub mod pairing;
pub mod parsed;
pub mod ping;
pub mod service;
pub mod settings;
pub mod sood;
pub mod status;
pub mod table;
pub mod text;
pub mod transport;

pub use api::{RoonApi, ROON_API_VERSION};
pub use cores::{Core, CoreEvent, Services};
pub use info::Info;
pub use parsed::{Parsed, RoonApiError};
pub use service::{RespProps, Sub, Svc, SvcSpec};
