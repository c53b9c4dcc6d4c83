use vstd::prelude::*;

verus! {

/// Everything that can go wrong while serving a proxied request, together
/// with the HTTP status code and body text each kind surfaces as.
#[derive(Clone, Copy, Debug, PartialEq, Eq, Structural)]
pub enum ProxyError {
    /// The `Authorization` header was absent.
    Unauthorized,
    /// The embeddings body had no `input` array.
    MissingInput,
    /// The embeddings body had no `model` string.
    MissingModel,
    /// `dimensions` was absent and the model has no known default.
    UnknownModel,
    /// The upstream call exceeded its deadline.
    UpstreamTimeout,
    /// The upstream answered with a non-success status, an unparsable body,
    /// a wrong model, or an embedding of the wrong size.
    UpstreamFailure,
    /// An upstream embedding was not valid base64.
    DecodeFailure,
    /// An insert into the cache store failed.
    CacheWriteFailure,
    /// The requested `encoding_format` is neither `"base64"` nor `"float"`.
    UnsupportedFormat,
}

impl ProxyError {
    /// The HTTP status code this error surfaces as.
    pub open spec fn spec_status(self) -> u16 {
        match self {
            ProxyError::Unauthorized => 401,
            ProxyError::MissingInput => 400,
            ProxyError::MissingModel => 400,
            ProxyError::UnknownModel => 400,
            ProxyError::UpstreamTimeout => 500,
            ProxyError::UpstreamFailure => 500,
            ProxyError::DecodeFailure => 500,
            ProxyError::CacheWriteFailure => 500,
            ProxyError::UnsupportedFormat => 500,
        }
    }

    pub fn status(&self) -> (s: u16)
        ensures
            s == self.spec_status(),
    {
        match self {
            ProxyError::Unauthorized => 401,
            ProxyError::MissingInput => 400,
            ProxyError::MissingModel => 400,
            ProxyError::UnknownModel => 400,
            ProxyError::UpstreamTimeout => 500,
            ProxyError::UpstreamFailure => 500,
            ProxyError::DecodeFailure => 500,
            ProxyError::CacheWriteFailure => 500,
            ProxyError::UnsupportedFormat => 500,
        }
    }

    /// The response body text for this error.
    pub open spec fn spec_message(self) -> Seq<char> {
        match self {
            ProxyError::Unauthorized => "Missing API key"@,
            ProxyError::MissingInput => "Embeddings call missing input"@,
            ProxyError::MissingModel => "Embeddings call missing model"@,
            ProxyError::UnknownModel => "Embeddings call missing dimensions"@,
            ProxyError::UpstreamTimeout => "Upstream request timed out"@,
            ProxyError::UpstreamFailure => "Upstream request failed"@,
            ProxyError::DecodeFailure => "Failed to decode upstream embedding"@,
            ProxyError::CacheWriteFailure => "Failed to get embeddings"@,
            ProxyError::UnsupportedFormat => "Unsupported encoding format"@,
        }
    }

    pub fn message(&self) -> (m: String)
        ensures
            m@ == self.spec_message(),
    {
        match self {
            ProxyError::Unauthorized => String::from_str("Missing API key"),
            ProxyError::MissingInput => String::from_str("Embeddings call missing input"),
            ProxyError::MissingModel => String::from_str("Embeddings call missing model"),
            ProxyError::UnknownModel => String::from_str("Embeddings call missing dimensions"),
            ProxyError::UpstreamTimeout => String::from_str("Upstream request timed out"),
            ProxyError::UpstreamFailure => String::from_str("Upstream request failed"),
            ProxyError::DecodeFailure => String::from_str("Failed to decode upstream embedding"),
            ProxyError::CacheWriteFailure => String::from_str("Failed to get embeddings"),
            ProxyError::UnsupportedFormat => String::from_str("Unsupported encoding format"),
        }
    }
}

} // verus!
