//! The core of a Named-Data Networking forwarder.
//!
//! - `tlv`, `name`, `ndn`, `packet`: the type-length-value wire format and
//!   the Interest and Data packets, with the hash by which names are keyed
//!   (`hash`).
//! - `table`, `cs`, `pit`, `fib`: the bounded tables, that is the content
//!   store, the pending-interest table and the forwarding base, over the
//!   shared records of `types`, whose byte layout is in `layout`.
//! - `forwarder`: the state machine that decides what becomes of each
//!   Interest and Data, and keeps the counts of `metrics`.
//! - `classifier`, `utils`: the fast path from a frame to the keys of the
//!   tables.
//! - `fragmentation`, `face`, `transport`, `config`: the framing of packets
//!   on a session, the waiters of a face, the registry of faces and the
//!   options of a transport.
//! - `buf`, `clock`: the byte buffers and the clocks that the core stands on.

pub mod buf;
pub mod classifier;
pub mod clock;
pub mod config;
pub mod cs;
pub mod error;
pub mod face;
pub mod fib;
pub mod forwarder;
pub mod fragmentation;
pub mod hash;
pub mod layout;
pub mod metrics;
pub mod name;
pub mod ndn;
pub mod packet;
pub mod pit;
pub mod table;
pub mod text;
pub mod tlv;
pub mod transport;
pub mod types;
pub mod utils;

pub use error::Error;
