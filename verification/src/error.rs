use vstd::prelude::*;

verus! {

/// Why a textual event id was rejected.
#[derive(Debug, Clone, Copy, PartialEq, Eq, Structural)]
pub enum InvalidEventId {
    /// The text was not 64 bytes long; carries the length that was seen.
    WrongLength(usize),
    /// The text held a byte that is not a hexadecimal digit.
    BadChar(char),
}

/// A capability that this version does not provide.
#[derive(Debug, Clone, Copy, PartialEq, Eq, Structural)]
pub enum Unsupported {
    /// Encryption modes other than plaintext.
    Encryption,
    /// Manual WAL checkpointing.
    ManualCheckpoint,
    /// Similarity search without a provider wired in.
    SimilarityQuery,
}

/// Why an argument handed in by a language binding was refused.
#[derive(Debug)]
pub enum InvalidArgument {
    /// A walk direction other than `forward`, `backward` or `both`.
    UnknownDirection(String),
    /// An encryption mode other than `plaintext`.
    UnknownEncryption(String),
    /// A first-open policy other than `create_if_missing` or `fail_if_not_found`.
    UnknownFirstOpenPolicy(String),
    /// Raw event id bytes of a length other than 32.
    EventIdLength(usize),
}

/// Errors of the event store.
#[derive(Debug)]
pub enum FossicError {
    InvalidEventId(InvalidEventId),
    MsgpackDecode(rmp_serde::decode::Error),
    MsgpackEncode(rmp_serde::encode::Error),
    NotImplemented { feature: Unsupported },
    StoreNotFound { path: String },
    NoEventsToSnapshot { stream_id: String, branch: String },
    ReducerNotFound { stream_id: String },
    ReducerNotFoundByName { name: String },
    /// A reducer failed to produce a state; carries its message.
    ReducerFailed(String),
    /// An argument that a binding passed in could not be interpreted.
    InvalidArgument(InvalidArgument),
    /// An embedding of the wrong length.
    InvalidDimensions { expected: usize, got: usize },
}

} // verus!
