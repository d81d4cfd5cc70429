//! Sharing a terminal over the web: the rules of the server, the relay and
//! the targets that connect out to a relay.

pub mod auth;
pub mod frame;
pub mod ids;
pub mod pages;
pub mod protocol;
pub mod proxy;
pub mod read_buffer;
pub mod relay_url;
pub mod session;
pub mod settings;
pub mod text;
