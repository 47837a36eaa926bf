//! Emits events into a cluster of real-time messaging servers through a
//! publish/subscribe broker, without holding a client connection.
//!
//! The crate covers the protocol layer: the name of the broker channel an
//! event is published on, and the binary envelope that carries it.
//!
//! - [`emitter`] is the builder: it collects the rooms and the flag of the
//!   next emission and turns a message into what is to be published.
//! - [`channel`] names the broker channel of an emission.
//! - [`envelope`] encodes and decodes the envelope, and [`wire`] holds the
//!   MessagePack formats it is made of.
//! - [`broker`] holds the client of the broker and the address it is opened
//!   on. Publishing itself is left to the caller.

pub mod broker;
pub mod channel;
pub mod emitter;
pub mod envelope;
pub mod wire;

pub use crate::broker::ConnectionError;
pub use crate::emitter::{Emission, Emitter, EmitterOpts, IntoEmitter};
pub use crate::envelope::{decode, encode, EncodingError, Opts, Packet};
