//! The error taxonomy of the ingestion pipeline. Every error is fatal to the
//! query being built; the whole run stops at the first one.
use vstd::prelude::*;

verus! {

/// One failure of a single query's build, by pipeline stage.
#[derive(Debug)]
pub enum BuildError {
    /// The query's leading comments declare no `endpoint` directive.
    MissingEndpoint,
    /// A `paginate` directive's value is not a positive integer.
    InvalidPageSize,
    /// The query text could not be parsed into its algebraic form; carries
    /// the parser's message.
    QueryParseError(String),
    /// The query's top-level shape is neither a slice, a projection nor a
    /// de-duplication, so no bounded slice can be injected.
    UnsupportedQueryShape,
    /// The endpoint answered with a non-success status; carries the status
    /// code and the response body verbatim.
    TransportError { status: u16, body: String },
    /// The endpoint's response body was not a well-formed result payload.
    MalformedResultPayload(String),
    /// The build catalog could not be read or written.
    CatalogIOError(String),
    /// The storage engine failed to materialize a table.
    LoadError(String),
}

impl BuildError {
    /// A short stable label for the error's kind, for reporting.
    pub fn kind_name(&self) -> (r: &'static str)
        ensures
            r@ == match self {
                BuildError::MissingEndpoint => "missing endpoint"@,
                BuildError::InvalidPageSize => "invalid page size"@,
                BuildError::QueryParseError(_) => "query parse error"@,
                BuildError::UnsupportedQueryShape => "unsupported query shape"@,
                BuildError::TransportError { .. } => "transport error"@,
                BuildError::MalformedResultPayload(_) => "malformed result payload"@,
                BuildError::CatalogIOError(_) => "catalog i/o error"@,
                BuildError::LoadError(_) => "load error"@,
            },
    {
        match self {
            BuildError::MissingEndpoint => "missing endpoint",
            BuildError::InvalidPageSize => "invalid page size",
            BuildError::QueryParseError(_) => "query parse error",
            BuildError::UnsupportedQueryShape => "unsupported query shape",
            BuildError::TransportError { .. } => "transport error",
            BuildError::MalformedResultPayload(_) => "malformed result payload",
            BuildError::CatalogIOError(_) => "catalog i/o error",
            BuildError::LoadError(_) => "load error",
        }
    }
}

} // verus!
