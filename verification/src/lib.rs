//! Local-first event sourcing: content-addressed event identity, the value
//! types of the event store, and the decisions the store makes around its
//! SQLite file (what to dispatch, how snapshots resume, how causation walks
//! and correlation reads are ordered).

pub mod bindings;
pub mod branches;
pub mod causation;
pub mod delivery;
pub mod cross_stream;
pub mod error;
pub mod hex;
pub mod json;
pub mod msgpack;
pub mod reducers;
pub mod serialization;
pub mod similarity;
pub mod store;
pub mod text;
pub mod types;

pub use cross_stream::{AggregateQuery, WalkDirection};
pub use error::{FossicError, InvalidArgument, InvalidEventId, Unsupported};
pub use reducers::DynReducer;
pub use store::{SubscribeQuery, SubscriptionMode};
pub use types::{
    Append, BranchInfo, CheckpointMode, CreateBranch, EncryptionMode, EventId, FirstOpenPolicy,
    OpenOptions, ReadQuery, SnapshotInfo, StoredEvent, StreamInfo,
};
