//! Framing and descriptor passing for a datagram channel between two
//! cooperating processes.
//!
//! The library computes what one send hands to the channel and what one
//! receive makes of a datagram that arrived. Performing the send and the
//! receive is left to the host.

pub mod ancillary;
pub mod buffers;
pub mod errors;
pub mod header;
pub mod laws;
pub mod message;
pub mod socket;

pub use crate::errors::FramingError;
pub use crate::message::{ControlMessage, Datagram, RawFd};
pub use crate::socket::Socket;
