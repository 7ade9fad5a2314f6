//! Analysis and pacing of MPEG transport streams: packet synchronisation,
//! per-PID statistics, the program topology, elementary-stream units, and
//! output pacing by the program clock.
//!
//! Every component consumes whole 188-byte packets from byte buffers and
//! hands its results back as values. None of them reads a file, a socket or
//! a clock: instants are parameters, in microseconds.
use vstd::prelude::*;

pub mod clock;
pub mod counter;
pub mod crc;
pub mod error;
pub mod packet;
pub mod pcr_smoother;
pub mod pes;
pub mod pes_extractor;
pub mod pid_stats;
pub mod psi;
pub mod stream_model;
pub mod sync;
pub mod text;

pub use clock::Clock;
pub use error::Error;
pub use pcr_smoother::PcrSmoother;
pub use pes::PesPacket;
pub use pes_extractor::PesExtractor;
pub use pid_stats::PidStats;
pub use stream_model::StreamModel;

verus! {

/// Length of a single MPEG-TS packet, in bytes.
pub const TS_PACKET_LEN: usize = 188;

/// The byte every transport-stream packet starts with.
pub const TS_SYNC_BYTE: u8 = 0x47;

} // verus!
