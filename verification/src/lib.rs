//! Canonical: a serialization library built for content addressed (merkle)
//! data.
//!
//! The `Canon` trait describes how a value is encoded to and decoded from
//! bytes. Every implementation states its byte format as a spec function and
//! proves that decoding what was encoded gives the value back.

pub mod call;
pub mod canon;
pub mod cow;
pub mod debug;
pub mod dry_sink;
pub mod formats;
pub mod hash_store;
pub mod host;
pub mod id;
pub mod implementations;
pub mod query;
pub mod repr;
pub mod signal;
pub mod store;
pub mod transaction;
pub mod varint;

pub use call::{read_reply, read_transaction_reply, write_call};
pub use canon::{Canon, CanonError, Decoded, EncodeToVec};
pub use hash_store::Store;
pub use host::{host_get, host_hash, host_message, host_put, host_signal};
pub use cow::Cow;
pub use debug::DebugMsg;
pub use dry_sink::DrySink;
pub use id::{Id, IdHash};
pub use implementations::{zigzag_decode, zigzag_encode};
pub use query::Query;
pub use repr::{Repr, ReprKind, ValMut};
pub use signal::Signal;
pub use transaction::Transaction;
pub use store::{Sink, Source};

