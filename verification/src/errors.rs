//! Errors of the area-preparation API: the three kinds a failed operation is
//! sorted into, and the HTTP status and client-safe message each becomes.
//! The detailed cause is carried as an `anyhow::Error` for the server log and
//! is never shown to the client.

use vstd::prelude::*;

use crate::text::contains_text;

verus! {

#[verifier::external_type_specification]
#[verifier::external_body]
pub struct ExAnyhowError(anyhow::Error);

/// A failed area operation: the caller's fault, a failure of an upstream
/// service, or a failure on this server.
#[derive(Debug)]
pub enum PrepareAreaError {
    BadRequest { source: anyhow::Error },
    Upstream { client_message: &'static str, source: anyhow::Error },
    Internal { client_message: &'static str, source: anyhow::Error },
}

impl PrepareAreaError {
    /// A validation or parsing failure of the request.
    pub fn bad_request(source: anyhow::Error) -> (r: Self)
        ensures
            r == (PrepareAreaError::BadRequest { source }),
    {
        PrepareAreaError::BadRequest { source }
    }

    /// A failure of an external service (map data, elevation data).
    pub fn upstream(client_message: &'static str, source: anyhow::Error) -> (r: Self)
        ensures
            r == (PrepareAreaError::Upstream { client_message, source }),
    {
        PrepareAreaError::Upstream { client_message, source }
    }

    /// An unexpected failure on this server (filesystem, serialization).
    pub fn internal(client_message: &'static str, source: anyhow::Error) -> (r: Self)
        ensures
            r == (PrepareAreaError::Internal { client_message, source }),
    {
        PrepareAreaError::Internal { client_message, source }
    }
}

/// An API error response: the HTTP status and the message the client sees.
#[derive(Clone, Copy, Debug)]
pub struct ApiError {
    pub status: u16,
    pub client_message: &'static str,
}

impl ApiError {
    /// A malformed request body (400).
    pub fn invalid_request() -> (r: Self)
        ensures
            r.status == 400,
            r.client_message@ == "invalid request"@,
    {
        ApiError { status: 400, client_message: "invalid request" }
    }

    /// A failed background task (500).
    pub fn internal() -> (r: Self)
        ensures
            r.status == 500,
            r.client_message@ == "failed to prepare area"@,
    {
        ApiError { status: 500, client_message: "failed to prepare area" }
    }

    /// The response for a failed area operation: a bad request is answered
    /// 400 with a generic message, an upstream failure 502 and an internal
    /// failure 500, each with its own client message.
    pub fn from_prepare_error(err: PrepareAreaError) -> (r: Self)
        ensures
            match err {
                PrepareAreaError::BadRequest { .. } => r.status == 400 && r.client_message@
                    == "invalid request"@,
                PrepareAreaError::Upstream { client_message, .. } => r.status == 502
                    && r.client_message == client_message,
                PrepareAreaError::Internal { client_message, .. } => r.status == 500
                    && r.client_message == client_message,
            },
    {
        match err {
            PrepareAreaError::BadRequest { .. } => ApiError::invalid_request(),
            PrepareAreaError::Upstream { client_message, .. } => ApiError {
                status: 502,
                client_message,
            },
            PrepareAreaError::Internal { client_message, .. } => ApiError {
                status: 500,
                client_message,
            },
        }
    }
}

/// The text of an error and its chain of causes, as `format!("{err:#}")`
/// writes it.
pub uninterp spec fn chain_text_of(err: anyhow::Error) -> Seq<char>;

/// The error and its chain of causes as one line (`format!("{err:#}")`):
/// anyhow writes the error's own message followed by the message of each
/// cause, each after `": "`. The result is named by `chain_text_of`; the
/// messages themselves are held inside the error, out of Verus's sight.
#[verifier::external_body]
fn error_chain_text(err: &anyhow::Error) -> (r: String)
    ensures
        r@ == chain_text_of(*err),
{
    format!("{err:#}")
}

/// An error carrying `message` (`anyhow::Error::msg`). Such an error has no
/// cause, and displays as the message itself, so its chain text is the
/// message.
#[verifier::external_body]
pub(crate) fn message_error(message: &str) -> (r: anyhow::Error)
    ensures
        chain_text_of(r) == message@,
{
    anyhow::Error::msg(message.to_string())
}

/// Where an elevation download failed.
#[derive(Clone, Copy, Debug, PartialEq, Eq, Structural)]
pub enum SrtmFailure {
    /// Writing the downloaded tile to the cache failed.
    Filesystem,
    /// Fetching the tile failed.
    Network,
}

/// A download failure whose message mentions a failed temporary-file write or
/// rename happened on this server's filesystem; any other is a network one.
pub open spec fn srtm_failure_kind(message: Seq<char>) -> SrtmFailure {
    if crate::text::contains_seq(message, "Failed to write tmp file"@)
        || crate::text::contains_seq(message, "Failed to rename"@) {
        SrtmFailure::Filesystem
    } else {
        SrtmFailure::Network
    }
}

/// Sorts an elevation download failure by its message.
pub fn classify_srtm_message(message: &str) -> (r: SrtmFailure)
    ensures
        r == srtm_failure_kind(message@),
{
    if contains_text(message, "Failed to write tmp file") || contains_text(
        message,
        "Failed to rename",
    ) {
        SrtmFailure::Filesystem
    } else {
        SrtmFailure::Network
    }
}

/// The area error for a failed elevation download: an internal error when
/// the failure was on this server's filesystem, an upstream one otherwise.
pub fn srtm_error_for(kind: SrtmFailure, err: anyhow::Error) -> (r: PrepareAreaError)
    ensures
        kind == SrtmFailure::Filesystem ==> (r matches PrepareAreaError::Internal {
            client_message,
            source,
        } && client_message@ == "failed to prepare area"@ && source == err),
        kind == SrtmFailure::Network ==> (r matches PrepareAreaError::Upstream {
            client_message,
            source,
        } && client_message@ == "failed to fetch elevation data"@ && source == err),
{
    match kind {
        SrtmFailure::Filesystem => PrepareAreaError::internal("failed to prepare area", err),
        SrtmFailure::Network => PrepareAreaError::upstream("failed to fetch elevation data", err),
    }
}

/// Classifies an elevation download error by the text of its cause chain:
/// a failed temporary-file write or rename is this server's fault (500),
/// anything else the elevation service's (502).
pub fn classify_srtm_error(err: anyhow::Error) -> (r: PrepareAreaError)
    ensures
        srtm_failure_kind(chain_text_of(err)) == SrtmFailure::Filesystem ==> (
        r matches PrepareAreaError::Internal { client_message, source } && client_message@
            == "failed to prepare area"@ && source == err),
        srtm_failure_kind(chain_text_of(err)) == SrtmFailure::Network ==> (
        r matches PrepareAreaError::Upstream { client_message, source } && client_message@
            == "failed to fetch elevation data"@ && source == err),
{
    let message = error_chain_text(&err);
    let kind = classify_srtm_message(message.as_str());
    srtm_error_for(kind, err)
}

} // verus!
