use vstd::prelude::*;
use crate::errors::ProxyError;

verus! {

/// The fields of an embeddings request body that the core reads, as plain
/// values. The caller parses the wire JSON and fills this in: a field that
/// is absent or of the wrong type becomes `None`.
#[derive(Debug)]
pub struct RequestBody {
    /// `model`, when present and a string.
    pub model: Option<String>,
    /// `input`, when present and an array of strings.
    pub input: Option<Vec<String>>,
    /// `dimensions`, when present and a non-negative integer.
    pub dimensions: Option<u64>,
    /// `encoding_format`, when present and a string.
    pub encoding_format: Option<String>,
}

/// The encoding a client asked its response in.
#[derive(Clone, Copy, Debug, PartialEq, Eq, Structural)]
pub enum RequestedFormat {
    /// Arrays of 32-bit IEEE-754 numbers; the default.
    Float,
    /// Base64 strings over the raw blobs.
    Base64,
    /// Anything else; the request fails when the response is assembled.
    Unsupported,
}

/// An embeddings request that passed validation.
#[derive(Debug)]
pub struct ValidRequest {
    pub model: String,
    pub input: Vec<String>,
    /// The requested or defaulted dimensions.
    pub dimensions: u64,
    pub format: RequestedFormat,
}

/// The default dimensions of the known models; `None` for any other model.
pub open spec fn spec_default_dimensions(model: Seq<char>) -> Option<u64> {
    if model == "text-embedding-3-large"@ {
        Some(3072u64)
    } else if model == "text-embedding-3-small"@ {
        Some(1536u64)
    } else if model == "text-embedding-ada-002"@ {
        Some(1536u64)
    } else {
        None
    }
}

/// Look up the default dimensions for `model`.
pub fn default_dimensions(model: &String) -> (r: Option<u64>)
    ensures
        r == spec_default_dimensions(model@),
{
    let lit_large = String::from_str("text-embedding-3-large");
    let lit_small = String::from_str("text-embedding-3-small");
    let lit_ada = String::from_str("text-embedding-ada-002");
    if *model == lit_large {
        Some(3072)
    } else if *model == lit_small {
        Some(1536)
    } else if *model == lit_ada {
        Some(1536)
    } else {
        None
    }
}

/// What `encoding_format` resolves to: absent means `"float"`.
pub open spec fn spec_format_of(f: Option<Seq<char>>) -> RequestedFormat {
    match f {
        None => RequestedFormat::Float,
        Some(s) => if s == "float"@ {
            RequestedFormat::Float
        } else if s == "base64"@ {
            RequestedFormat::Base64
        } else {
            RequestedFormat::Unsupported
        },
    }
}

/// Resolve the client's `encoding_format` field.
pub fn resolve_format(f: &Option<String>) -> (r: RequestedFormat)
    ensures
        r == spec_format_of(match f {
            Some(s) => Some(s@),
            None => None,
        }),
{
    match f {
        None => RequestedFormat::Float,
        Some(s) => {
            let lit_float = String::from_str("float");
            let lit_b64 = String::from_str("base64");
            if *s == lit_float {
                RequestedFormat::Float
            } else if *s == lit_b64 {
                RequestedFormat::Base64
            } else {
                RequestedFormat::Unsupported
            }
        },
    }
}

/// The dimensions a valid request resolves to: the explicit field when
/// present, else the model's default.
pub open spec fn spec_resolved_dimensions(model: Seq<char>, dims: Option<u64>) -> Option<u64> {
    match dims {
        Some(d) => Some(d),
        None => spec_default_dimensions(model),
    }
}

/// Validate an embeddings request body. `input` must be an array and
/// `model` a string, in that order of checking; `dimensions`, when absent,
/// is defaulted from the model, and an unknown model without explicit
/// `dimensions` is rejected.
pub fn validate(body: RequestBody) -> (r: Result<ValidRequest, ProxyError>)
    ensures
        match r {
            Ok(v) => {
                &&& body.input matches Some(input) && v.input == input
                &&& body.model matches Some(model) && v.model == model
                &&& Some(v.dimensions) == spec_resolved_dimensions(
                    v.model@,
                    body.dimensions,
                )
                &&& v.format == spec_format_of(match body.encoding_format {
                    Some(s) => Some(s@),
                    None => None,
                })
            },
            Err(e) => {
                &&& (e == ProxyError::MissingInput <==> body.input is None)
                &&& (e == ProxyError::MissingModel <==> body.input is Some
                    && body.model is None)
                &&& (e == ProxyError::UnknownModel <==> (body.input is Some
                    && body.model is Some
                    && spec_resolved_dimensions(body.model.unwrap()@, body.dimensions) is None))
            },
        },
        r is Err <==> (body.input is None || body.model is None
            || spec_resolved_dimensions(body.model.unwrap()@, body.dimensions) is None),
{
    let RequestBody { model, input, dimensions, encoding_format } = body;
    let input = match input {
        Some(i) => i,
        None => {
            return Err(ProxyError::MissingInput);
        },
    };
    let model = match model {
        Some(m) => m,
        None => {
            return Err(ProxyError::MissingModel);
        },
    };
    let dims = match dimensions {
        Some(d) => d,
        None => {
            match default_dimensions(&model) {
                Some(d) => d,
                None => {
                    return Err(ProxyError::UnknownModel);
                },
            }
        },
    };
    let format = resolve_format(&encoding_format);
    Ok(ValidRequest { model, input, dimensions: dims, format })
}

} // verus!
