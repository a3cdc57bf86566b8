//! A broadcast relay for CTMP, a small binary framing protocol.
//!
//! One source sends frames; every well-formed frame is forwarded verbatim to
//! all destinations on the roster. The crate holds the protocol rules and the
//! relay's bookkeeping as verified code over plain values; sockets and threads
//! are the caller's business.

pub mod frame;
pub mod frame_laws;
pub mod roster;
pub mod admission;
pub mod session;
pub mod pool;

pub use crate::admission::{AdmissionError, AdmissionSlot};
pub use crate::frame::{is_checksum_valid, validate_header, verify_checksum, HeaderError};
pub use crate::pool::{PoolError, PoolPhase, ThreadPool, Worker, WorkerStep};
pub use crate::roster::{broadcast_message, Destinations};
pub use crate::session::{handle_transmitter, SourceSession, Step, Termination};
