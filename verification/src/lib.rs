//! Logic of a family of supercontract modules: a token distribution run that
//! reads a shareholder manifest from host storage, a matrix-multiplication
//! contract working on tab-delimited tables, and a market-price oracle that
//! validates an HTTP response. All decisions are made here, with contracts;
//! the host calls themselves (storage, transactions, HTTP) are performed by a
//! thin unverified driver that feeds their results back in as plain values.
use vstd::prelude::*;

pub mod ico;
pub mod manifest;
pub mod matrix;
pub mod numtext;
pub mod oracle;
pub mod table;
pub mod text;

verus! {

/// Status code an entry point returns when it succeeds and has no result of
/// its own.
pub const FUNCTION_RETURN_SUCCESS: i64 = 0;

/// Generic negative sentinel returned for nearly every caught failure.
pub const FUNCTION_ERROR: i64 = -1000;

/// Any host call result below this threshold counts as a failure.
pub const SUCCESS_THRESHOLD: i64 = 0;

/// The named failure categories of the modules. Every one of them is reported
/// to the host as the single sentinel `FUNCTION_ERROR`; the distinctions exist
/// for diagnostics and for stating exactly which step failed.
#[derive(Clone, Copy, Debug, PartialEq, Eq, Structural)]
pub enum Fault {
    HostLookupFailed,
    MosaicCreationFailed,
    SupplyChangeFailed,
    FlushFailed,
    MosaicIdLookupFailed,
    PersistFailed,
    ManifestLoadFailed,
    ManifestParseFailed,
    TransferFailed,
    CallerLookupFailed,
    AddressDecodeFailed,
    NotOwner,
    MatrixALoadFailed,
    MatrixAParseFailed,
    MatrixBLoadFailed,
    MatrixBParseFailed,
    DimensionMismatch,
    SerializeFailed,
    CredentialLoadFailed,
    CredentialDecodeFailed,
    UrlParseFailed,
    ResponseParseFailed,
    UpstreamError,
}

impl Fault {
    /// The signed status code the host observes for this failure.
    pub fn status(&self) -> (r: i64)
        ensures
            r == FUNCTION_ERROR,
    {
        FUNCTION_ERROR
    }
}

} // verus!
