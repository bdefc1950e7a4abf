//! A command channel carried inside ICMP Echo traffic: packet codec, marker
//! framing, the per-peer session registry and the step that answers one
//! inbound Echo Request.

pub mod codec;
pub mod framing;
pub mod session;
pub mod registry;
pub mod engine;
pub mod layout;
