//! Local inference gateway: a process supervisor and an authenticating
//! reverse proxy in front of a local worker process, together with the
//! text-chunking utilities the host application ships with.
//!
//! The modules hold the decision logic only; binding sockets, spawning the
//! worker and moving bytes are left to the embedding application.

pub mod chunking;
pub mod extensions;
pub mod gateway;
pub mod hardware;
pub mod proxy;
pub mod strings;
pub mod supervisor;
