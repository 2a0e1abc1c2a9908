//! A bounded, keyed pool of reusable instances, and the byte encoding of the
//! values handed to them.
//!
//! The pool is a state machine: it keeps the books of every key and tells
//! each caller what to do next, and leaves the waiting and the creating to
//! whoever drives it. See [`pool`] for the registry of keys, [`slot`] for the
//! accounting of one key, and [`to_bytes`] for the encodings.

pub mod little_endian;
pub mod pool;
pub mod slot;
pub mod to_bytes;

pub use pool::{Checkout, Pool, PoolError, Registered, Reservation, Step};
pub use slot::{Decision, Factory, KeySlot};
pub use to_bytes::{Encoded, Error, ToBytes};
