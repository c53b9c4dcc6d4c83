use vstd::prelude::*;
use crate::codec::{b64_decode_of, b64_encode_of, decode_upstream, encode_client_base64,
    encode_client_float_bits, words_of};
use crate::errors::ProxyError;
use crate::fingerprint::{fingerprint, fingerprint_of};
use crate::request::{spec_format_of, spec_resolved_dimensions, validate, RequestBody,
    RequestedFormat, ValidRequest};
use crate::store::{clone_bytes, CacheStore};

verus! {

/// A cached blob, carried on its own.
#[derive(Debug)]
pub struct Hit {
    pub data: Vec<u8>,
}

/// A position in the miss-list, carried on its own.
#[derive(Debug)]
pub struct Miss {
    pub where_to_find: usize,
}

/// What one input position resolved to against the cache: the cached blob,
/// or the position of this input in the ordered miss-list.
#[derive(Debug)]
pub enum CacheHitOrMiss {
    Hit(Vec<u8>),
    Miss(usize),
}

/// The outcome of one cache probe. A read error counts as a miss; it is
/// never fatal.
#[derive(Debug)]
pub enum LookupOutcome {
    Found(Vec<u8>),
    Absent,
    ReadError,
}

impl LookupOutcome {
    /// The cached blob, when the probe found one.
    pub open spec fn spec_found(self) -> Option<Seq<u8>> {
        match self {
            LookupOutcome::Found(v) => Some(v@),
            LookupOutcome::Absent => None,
            LookupOutcome::ReadError => None,
        }
    }
}

/// The tags for every input position together with the ordered miss-list,
/// built in one pass.
#[derive(Debug)]
pub struct ResolutionPlan {
    pub tags: Vec<CacheHitOrMiss>,
    pub miss_indices: Vec<usize>,
}

/// `miss` lists, in increasing order, exactly the positions tagged as
/// misses, and every `Miss(k)` tag points back at position `k` of `miss`.
pub open spec fn plan_wf(tags: Seq<CacheHitOrMiss>, miss: Seq<usize>) -> bool {
    &&& forall|k: int|
        0 <= k < miss.len() ==> (#[trigger] miss[k]) < tags.len() && tags[miss[k] as int]
            == CacheHitOrMiss::Miss(k as usize)
    &&& forall|k1: int, k2: int| 0 <= k1 < k2 < miss.len() ==> miss[k1] < miss[k2]
    &&& forall|i: int|
        0 <= i < tags.len() ==> ((#[trigger] tags[i]) matches CacheHitOrMiss::Miss(k) ==> k
            < miss.len() && miss[k as int] == i)
}

/// Tag every input position as a hit or a miss. Miss positions are numbered
/// in order of first occurrence; duplicate inputs stay duplicates.
pub fn plan(lookups: &Vec<LookupOutcome>) -> (p: ResolutionPlan)
    ensures
        p.tags@.len() == lookups@.len(),
        plan_wf(p.tags@, p.miss_indices@),
        forall|i: int|
            0 <= i < lookups@.len() ==> match lookups@[i].spec_found() {
                Some(b) => (#[trigger] p.tags@[i]) matches CacheHitOrMiss::Hit(v) && v@ == b,
                None => p.tags@[i] is Miss,
            },
        (p.miss_indices@.len() == 0 <==> forall|i: int|
            0 <= i < lookups@.len() ==> (#[trigger] lookups@[i]).spec_found() is Some),
{
    let mut tags: Vec<CacheHitOrMiss> = Vec::new();
    let mut miss_indices: Vec<usize> = Vec::new();
    let mut i: usize = 0;
    while i < lookups.len()
        invariant
            i <= lookups@.len(),
            tags@.len() == i,
            plan_wf(tags@, miss_indices@),
            forall|i0: int|
                0 <= i0 < i ==> match lookups@[i0].spec_found() {
                    Some(b) => (#[trigger] tags@[i0]) matches CacheHitOrMiss::Hit(v) && v@ == b,
                    None => tags@[i0] is Miss,
                },
            (miss_indices@.len() == 0 <==> forall|i0: int|
                0 <= i0 < i ==> (#[trigger] lookups@[i0]).spec_found() is Some),
        decreases lookups@.len() - i,
    {
        match &lookups[i] {
            LookupOutcome::Found(b) => {
                tags.push(CacheHitOrMiss::Hit(clone_bytes(b)));
            },
            _ => {
                let k = miss_indices.len();
                miss_indices.push(i);
                tags.push(CacheHitOrMiss::Miss(k));
            },
        }
        i += 1;
    }
    ResolutionPlan { tags, miss_indices }
}

/// The ordered miss-subset of the inputs: what the coalesced upstream
/// request carries in place of the client's `input`.
pub fn miss_inputs(inputs: &Vec<String>, miss_indices: &Vec<usize>) -> (out: Vec<String>)
    requires
        forall|k: int|
            0 <= k < miss_indices@.len() ==> (#[trigger] miss_indices@[k]) < inputs@.len(),
    ensures
        out@.len() == miss_indices@.len(),
        forall|k: int|
            0 <= k < out@.len() ==> (#[trigger] out@[k])@ == inputs@[miss_indices@[k] as int]@,
{
    let mut out: Vec<String> = Vec::new();
    let mut k: usize = 0;
    while k < miss_indices.len()
        invariant
            forall|k0: int|
                0 <= k0 < miss_indices@.len() ==> (#[trigger] miss_indices@[k0]) < inputs@.len(),
            k <= miss_indices@.len(),
            out@.len() == k,
            forall|k0: int|
                0 <= k0 < k ==> (#[trigger] out@[k0])@ == inputs@[miss_indices@[k0] as int]@,
        decreases miss_indices@.len() - k,
    {
        let idx = miss_indices[k];
        out.push(inputs[idx].clone());
        k += 1;
    }
    out
}

/// The body of the one coalesced upstream call: the client's request with
/// `input` narrowed to the ordered miss-list and `encoding_format` pinned
/// to `"base64"`, the canonical storage form. The caller forwards any other
/// client fields unchanged.
#[derive(Debug)]
pub struct UpstreamRequest {
    pub model: String,
    pub dimensions: u64,
    pub input: Vec<String>,
    pub encoding_format: String,
}

/// Build the upstream request for the misses of a plan.
pub fn build_upstream_request(req: &ValidRequest, miss_indices: &Vec<usize>) -> (u: UpstreamRequest)
    requires
        forall|k: int|
            0 <= k < miss_indices@.len() ==> (#[trigger] miss_indices@[k]) < req.input@.len(),
    ensures
        u.model == req.model,
        u.dimensions == req.dimensions,
        u.encoding_format@ == "base64"@,
        u.input@.len() == miss_indices@.len(),
        forall|k: int|
            0 <= k < u.input@.len() ==> (#[trigger] u.input@[k])@ == req.input@[miss_indices@[k]
                as int]@,
{
    UpstreamRequest {
        model: req.model.clone(),
        dimensions: req.dimensions,
        input: miss_inputs(&req.input, miss_indices),
        encoding_format: String::from_str("base64"),
    }
}

/// What the core reads of the upstream response: its `model` and, for each
/// element of `data` in order, the base64 `embedding` string, or `None`
/// where that field was missing.
#[derive(Debug)]
pub struct UpstreamResponse {
    pub model: String,
    pub embeddings: Vec<Option<String>>,
}

impl UpstreamResponse {
    /// Whether element `k` exists and carries an embedding that decodes.
    pub open spec fn entry_decodes(self, k: int) -> bool {
        &&& 0 <= k < self.embeddings@.len()
        &&& self.embeddings@[k] matches Some(s) && b64_decode_of(s@) is Some
    }

    /// The blob element `k` decodes to.
    pub open spec fn entry_blob(self, k: int) -> Seq<u8> {
        b64_decode_of(self.embeddings@[k].unwrap()@).unwrap()
    }

    /// Whether element `k` exists, decodes, and holds exactly `dims`
    /// four-byte numbers.
    pub open spec fn entry_good(self, k: int, dims: u64) -> bool {
        &&& self.entry_decodes(k)
        &&& self.entry_blob(k).len() == 4 * dims
    }
}

/// Every miss tag points at a good element of the upstream response.
pub open spec fn all_misses_good(
    tags: Seq<CacheHitOrMiss>,
    resp: UpstreamResponse,
    dims: u64,
) -> bool {
    forall|i: int|
        0 <= i < tags.len() ==> ((#[trigger] tags[i]) matches CacheHitOrMiss::Miss(k)
            ==> resp.entry_good(k as int, dims))
}

/// One pending cache insert.
#[derive(Debug)]
pub struct StoreWrite {
    pub hash: Vec<u8>,
    pub value: Vec<u8>,
}

/// The blob for every input position, in the client's input order, and the
/// inserts the cache is owed, in miss order.
#[derive(Debug)]
pub struct Resolution {
    pub blobs: Vec<Vec<u8>>,
    pub writes: Vec<StoreWrite>,
}

/// Resolve a plan that has no miss: every blob comes straight from the
/// cache and no upstream call is made.
pub fn resolve_all_hits(plan: &ResolutionPlan) -> (blobs: Vec<Vec<u8>>)
    requires
        plan_wf(plan.tags@, plan.miss_indices@),
        plan.miss_indices@.len() == 0,
    ensures
        blobs@.len() == plan.tags@.len(),
        forall|i: int|
            0 <= i < plan.tags@.len() ==> ((#[trigger] plan.tags@[i]) matches CacheHitOrMiss::Hit(
                b,
            ) && blobs@[i]@ == b@),
{
    let mut blobs: Vec<Vec<u8>> = Vec::new();
    let mut i: usize = 0;
    while i < plan.tags.len()
        invariant
            plan_wf(plan.tags@, plan.miss_indices@),
            plan.miss_indices@.len() == 0,
            i <= plan.tags@.len(),
            blobs@.len() == i,
            forall|i0: int|
                0 <= i0 < i ==> ((#[trigger] plan.tags@[i0]) matches CacheHitOrMiss::Hit(b)
                    && blobs@[i0]@ == b@),
        decreases plan.tags@.len() - i,
    {
        match &plan.tags[i] {
            CacheHitOrMiss::Hit(b) => {
                blobs.push(clone_bytes(b));
            },
            CacheHitOrMiss::Miss(_) => {
                proof {
                    assert(plan.tags@[i as int] matches CacheHitOrMiss::Miss(k) ==> k
                        < plan.miss_indices@.len());
                    assert(false);
                }
                vstd::pervasive::unreached()
            },
        }
        i += 1;
    }
    blobs
}

/// Resolve a plan with at least one miss against the upstream response:
/// check the model, decode every missed element, check its size, and list
/// the inserts the cache is owed. Succeeds exactly when the response model
/// matches and every missed element is present, decodes, and has the
/// resolved dimensions.
pub fn resolve(
    plan: &ResolutionPlan,
    hashes: &Vec<Vec<u8>>,
    resp: &UpstreamResponse,
    expected_model: &String,
    dimensions: u64,
) -> (r: Result<Resolution, ProxyError>)
    requires
        plan_wf(plan.tags@, plan.miss_indices@),
        hashes@.len() == plan.tags@.len(),
    ensures
        match r {
            Ok(res) => {
                &&& resp.model@ == expected_model@
                &&& all_misses_good(plan.tags@, *resp, dimensions)
                &&& res.blobs@.len() == plan.tags@.len()
                &&& forall|i: int|
                    0 <= i < plan.tags@.len() ==> ((#[trigger] plan.tags@[i]) matches
                        CacheHitOrMiss::Hit(b) ==> res.blobs@[i]@ == b@)
                &&& forall|i: int|
                    0 <= i < plan.tags@.len() ==> ((#[trigger] plan.tags@[i]) matches
                        CacheHitOrMiss::Miss(k) ==> res.blobs@[i]@ == resp.entry_blob(k as int)
                        && res.blobs@[i]@.len() == 4 * dimensions)
                &&& res.writes@.len() == plan.miss_indices@.len()
                &&& forall|k: int|
                    0 <= k < res.writes@.len() ==> (#[trigger] res.writes@[k]).hash@
                        == hashes@[plan.miss_indices@[k] as int]@ && res.writes@[k].value@
                        == res.blobs@[plan.miss_indices@[k] as int]@ && res.writes@[k].value@.len()
                        == 4 * dimensions
            },
            Err(e) => {
                &&& (e == ProxyError::UpstreamFailure || e == ProxyError::DecodeFailure)
                &&& (resp.model@ != expected_model@ || !all_misses_good(
                    plan.tags@,
                    *resp,
                    dimensions,
                ))
                &&& (resp.model@ != expected_model@ ==> e == ProxyError::UpstreamFailure)
                &&& (e == ProxyError::DecodeFailure ==> exists|i: int|
                    0 <= i < plan.tags@.len() && ((#[trigger] plan.tags@[i]) matches
                        CacheHitOrMiss::Miss(k) && 0 <= k < resp.embeddings@.len()
                        && resp.embeddings@[k as int] is Some && !resp.entry_decodes(k as int)))
            },
        },
{
    if !(*expected_model == resp.model) {
        return Err(ProxyError::UpstreamFailure);
    }
    let mut blobs: Vec<Vec<u8>> = Vec::new();
    let mut i: usize = 0;
    while i < plan.tags.len()
        invariant
            plan_wf(plan.tags@, plan.miss_indices@),
            resp.model@ == expected_model@,
            i <= plan.tags@.len(),
            blobs@.len() == i,
            forall|i0: int|
                0 <= i0 < i ==> ((#[trigger] plan.tags@[i0]) matches CacheHitOrMiss::Hit(b)
                    ==> blobs@[i0]@ == b@),
            forall|i0: int|
                0 <= i0 < i ==> ((#[trigger] plan.tags@[i0]) matches CacheHitOrMiss::Miss(k)
                    ==> resp.entry_good(k as int, dimensions) && blobs@[i0]@ == resp.entry_blob(
                    k as int,
                ) && blobs@[i0]@.len() == 4 * dimensions),
        decreases plan.tags@.len() - i,
    {
        match &plan.tags[i] {
            CacheHitOrMiss::Hit(b) => {
                blobs.push(clone_bytes(b));
            },
            CacheHitOrMiss::Miss(k) => {
                let k = *k;
                if k >= resp.embeddings.len() {
                    proof {
                        assert(!resp.entry_good(k as int, dimensions));
                        assert(!all_misses_good(plan.tags@, *resp, dimensions));
                    }
                    return Err(ProxyError::UpstreamFailure);
                }
                match &resp.embeddings[k] {
                    None => {
                        proof {
                            assert(!resp.entry_good(k as int, dimensions));
                            assert(!all_misses_good(plan.tags@, *resp, dimensions));
                        }
                        return Err(ProxyError::UpstreamFailure);
                    },
                    Some(s) => {
                        match decode_upstream(s.as_str()) {
                            Err(e) => {
                                proof {
                                    assert(!resp.entry_decodes(k as int));
                                    assert(!resp.entry_good(k as int, dimensions));
                                    assert(!all_misses_good(plan.tags@, *resp, dimensions));
                                }
                                return Err(e);
                            },
                            Ok(blob) => {
                                if (blob.len() as u128) != 4 * (dimensions as u128) {
                                    proof {
                                        assert(!resp.entry_good(k as int, dimensions));
                                        assert(!all_misses_good(plan.tags@, *resp, dimensions));
                                    }
                                    return Err(ProxyError::UpstreamFailure);
                                }
                                blobs.push(blob);
                            },
                        }
                    },
                }
            },
        }
        i += 1;
    }
    let mut writes: Vec<StoreWrite> = Vec::new();
    let mut k: usize = 0;
    while k < plan.miss_indices.len()
        invariant
            plan_wf(plan.tags@, plan.miss_indices@),
            hashes@.len() == plan.tags@.len(),
            blobs@.len() == plan.tags@.len(),
            forall|i0: int|
                0 <= i0 < plan.tags@.len() ==> ((#[trigger] plan.tags@[i0]) matches
                    CacheHitOrMiss::Miss(kk) ==> blobs@[i0]@.len() == 4 * dimensions),
            k <= plan.miss_indices@.len(),
            writes@.len() == k,
            forall|k0: int|
                0 <= k0 < k ==> (#[trigger] writes@[k0]).hash@ == hashes@[plan.miss_indices@[k0]
                    as int]@ && writes@[k0].value@ == blobs@[plan.miss_indices@[k0] as int]@
                    && writes@[k0].value@.len() == 4 * dimensions,
        decreases plan.miss_indices@.len() - k,
    {
        let idx = plan.miss_indices[k];
        writes.push(StoreWrite { hash: clone_bytes(&hashes[idx]), value: clone_bytes(&blobs[idx]) });
        k += 1;
    }
    Ok(Resolution { blobs, writes })
}

/// The total byte length of a list of blobs.
pub open spec fn sum_lens(bs: Seq<Seq<u8>>) -> int
    decreases bs.len(),
{
    if bs.len() == 0 {
        0
    } else {
        sum_lens(bs.drop_last()) + bs.last().len()
    }
}

proof fn lemma_sum_lens_nonneg(bs: Seq<Seq<u8>>)
    ensures
        sum_lens(bs) >= 0,
    decreases bs.len(),
{
    if bs.len() > 0 {
        lemma_sum_lens_nonneg(bs.drop_last());
    }
}

/// The usage count reported for a response over these blobs: the total
/// byte length divided by four (the response calls it a token count).
/// A total beyond the 64-bit range saturates.
pub open spec fn spec_usage(bs: Seq<Seq<u8>>) -> int {
    if sum_lens(bs) <= u64::MAX {
        sum_lens(bs) / 4
    } else {
        (u64::MAX as int) / 4
    }
}

/// The views of a list of blobs.
pub open spec fn blob_views(blobs: Seq<Vec<u8>>) -> Seq<Seq<u8>> {
    blobs.map_values(|b: Vec<u8>| b@)
}

fn total_len(blobs: &Vec<Vec<u8>>) -> (t: u64)
    ensures
        t as int == (if sum_lens(blob_views(blobs@)) <= u64::MAX {
            sum_lens(blob_views(blobs@))
        } else {
            u64::MAX as int
        }),
{
    let ghost all = blob_views(blobs@);
    let mut acc: u64 = 0;
    let mut i: usize = 0;
    while i < blobs.len()
        invariant
            all == blob_views(blobs@),
            i <= blobs@.len(),
            acc as int == (if sum_lens(all.subrange(0, i as int)) <= u64::MAX {
                sum_lens(all.subrange(0, i as int))
            } else {
                u64::MAX as int
            }),
        decreases blobs@.len() - i,
    {
        let len64 = blobs[i].len() as u64;
        proof {
            let pre = all.subrange(0, i as int);
            let post = all.subrange(0, i + 1);
            assert(post.drop_last() =~= pre);
            assert(post.last() == blobs@[i as int]@);
            lemma_sum_lens_nonneg(pre);
        }
        acc = acc.saturating_add(len64);
        i += 1;
    }
    proof {
        assert(all.subrange(0, blobs@.len() as int) =~= all);
    }
    acc
}

/// One embedding of a response, in the client's requested form: a base64
/// string over the raw blob, or the 32-bit IEEE-754 bit patterns the blob
/// holds.
#[derive(Debug)]
pub enum EmbeddingValue {
    Base64(String),
    FloatBits(Vec<u32>),
}

/// One element of the response's `data`, tagged with its position.
#[derive(Debug)]
pub struct EmbeddingItem {
    pub embedding: EmbeddingValue,
    pub index: usize,
}

/// An assembled embeddings response: `data` aligned one to one with the
/// request's `input`, the model, and the usage count (reported for both
/// `prompt_tokens` and `total_tokens`).
#[derive(Debug)]
pub struct EmbeddingsResponse {
    pub data: Vec<EmbeddingItem>,
    pub model: String,
    pub usage_tokens: u64,
}

/// Assemble the client-facing response from the resolved blobs, in input
/// order: `data[i]` carries index `i` and the encoding of blob `i` in the
/// requested format. Fails exactly on an unsupported format.
pub fn assemble_response(blobs: &Vec<Vec<u8>>, format: RequestedFormat, model: &String) -> (r:
    Result<EmbeddingsResponse, ProxyError>)
    ensures
        match r {
            Ok(resp) => {
                &&& format != RequestedFormat::Unsupported
                &&& resp.model@ == model@
                &&& resp.data@.len() == blobs@.len()
                &&& forall|i: int|
                    0 <= i < resp.data@.len() ==> (#[trigger] resp.data@[i]).index == i
                &&& forall|i: int|
                    0 <= i < resp.data@.len() && format == RequestedFormat::Base64 ==> ((
                    #[trigger] resp.data@[i]).embedding matches EmbeddingValue::Base64(s) && s@
                        == b64_encode_of(blobs@[i]@))
                &&& forall|i: int|
                    0 <= i < resp.data@.len() && format == RequestedFormat::Float ==> ((
                    #[trigger] resp.data@[i]).embedding matches EmbeddingValue::FloatBits(w) && w@
                        == words_of(blobs@[i]@))
                &&& resp.usage_tokens == spec_usage(blob_views(blobs@))
            },
            Err(e) => e == ProxyError::UnsupportedFormat && format == RequestedFormat::Unsupported,
        },
{
    if format == RequestedFormat::Unsupported {
        return Err(ProxyError::UnsupportedFormat);
    }
    let mut data: Vec<EmbeddingItem> = Vec::new();
    let mut i: usize = 0;
    while i < blobs.len()
        invariant
            format != RequestedFormat::Unsupported,
            i <= blobs@.len(),
            data@.len() == i,
            forall|i0: int| 0 <= i0 < i ==> (#[trigger] data@[i0]).index == i0,
            forall|i0: int|
                0 <= i0 < i && format == RequestedFormat::Base64 ==> ((#[trigger] data@[i0]).embedding
                    matches EmbeddingValue::Base64(s) && s@ == b64_encode_of(blobs@[i0]@)),
            forall|i0: int|
                0 <= i0 < i && format == RequestedFormat::Float ==> ((#[trigger] data@[i0]).embedding
                    matches EmbeddingValue::FloatBits(w) && w@ == words_of(blobs@[i0]@)),
        decreases blobs@.len() - i,
    {
        let embedding = if format == RequestedFormat::Base64 {
            EmbeddingValue::Base64(encode_client_base64(&blobs[i]))
        } else {
            EmbeddingValue::FloatBits(encode_client_float_bits(&blobs[i]))
        };
        data.push(EmbeddingItem { embedding, index: i });
        i += 1;
    }
    let total = total_len(blobs);
    Ok(EmbeddingsResponse { data, model: model.clone(), usage_tokens: total / 4 })
}

/// What one embeddings request still needs after the cache pass: the
/// validated request, the plan, and the fingerprint of every input.
#[derive(Debug)]
pub struct PendingExchange {
    pub request: ValidRequest,
    pub plan: ResolutionPlan,
    pub hashes: Vec<Vec<u8>>,
}

/// Internal consistency of a pending exchange: a well-formed plan over all
/// inputs, a fingerprint per input, and at least one miss (an exchange with
/// no miss is answered without the upstream).
pub open spec fn pending_wf(p: PendingExchange) -> bool {
    &&& plan_wf(p.plan.tags@, p.plan.miss_indices@)
    &&& p.plan.tags@.len() == p.request.input@.len()
    &&& p.hashes@.len() == p.request.input@.len()
    &&& forall|i: int|
        0 <= i < p.hashes@.len() ==> (#[trigger] p.hashes@[i])@ == fingerprint_of(
            p.request.input@[i]@,
            p.request.model@,
            p.request.dimensions,
        ) && p.hashes@[i]@.len() == 32
    &&& p.plan.miss_indices@.len() > 0
}

/// The blob position `i` of the response is owed: the cached blob of a hit,
/// or the decoded upstream element of a miss.
pub open spec fn spec_blob_at(p: PendingExchange, resp: UpstreamResponse, i: int) -> Seq<u8> {
    match p.plan.tags@[i] {
        CacheHitOrMiss::Hit(b) => b@,
        CacheHitOrMiss::Miss(k) => resp.entry_blob(k as int),
    }
}

/// Whether the owed inserts can all land: the missed fingerprints are
/// pairwise distinct and none is in the store yet.
pub open spec fn spec_writes_clean(store: CacheStore, p: PendingExchange) -> bool {
    &&& forall|k1: int, k2: int|
        0 <= k1 < k2 < p.plan.miss_indices@.len() ==> p.hashes@[p.plan.miss_indices@[k1] as int]@
            != p.hashes@[p.plan.miss_indices@[k2] as int]@
    &&& forall|k: int|
        0 <= k < p.plan.miss_indices@.len() ==> !store.spec_contains(
            p.hashes@[(#[trigger] p.plan.miss_indices@[k]) as int]@,
        )
}

/// Whether the body carries everything a valid request needs.
pub open spec fn spec_valid_of(body: RequestBody) -> bool {
    &&& body.input is Some
    &&& body.model is Some
    &&& spec_resolved_dimensions(body.model.unwrap()@, body.dimensions) is Some
}

/// The dimensions a valid body resolves to.
pub open spec fn spec_dims_of(body: RequestBody) -> u64 {
    spec_resolved_dimensions(body.model.unwrap()@, body.dimensions).unwrap()
}

/// The format a body resolves to.
pub open spec fn spec_fmt_of(body: RequestBody) -> RequestedFormat {
    spec_format_of(
        match body.encoding_format {
            Some(s) => Some(s@),
            None => None,
        },
    )
}

/// The fingerprint of input `i` of a valid body.
pub open spec fn spec_body_fp(body: RequestBody, i: int) -> Seq<u8> {
    fingerprint_of(body.input.unwrap()@[i]@, body.model.unwrap()@, spec_dims_of(body))
}

/// Whether every input of a valid body is cached.
pub open spec fn spec_all_cached(store: CacheStore, body: RequestBody) -> bool {
    forall|i: int|
        0 <= i < body.input.unwrap()@.len() ==> store.spec_contains(#[trigger] spec_body_fp(body, i))
}

/// What the cache pass decided: the finished response, or the one upstream
/// call to make together with the state its answer needs.
#[derive(Debug)]
pub enum EmbeddingsStep {
    Done(EmbeddingsResponse),
    CallUpstream(UpstreamRequest, PendingExchange),
}

/// The cache-side half of one embeddings request: validate the body,
/// fingerprint and probe every input, and either answer outright — when
/// every input is cached, no upstream call is asked for and the response is
/// a function of the store and the request alone — or say exactly what to
/// ask the upstream.
pub fn embeddings_begin(store: &CacheStore, body: RequestBody) -> (r: Result<
    EmbeddingsStep,
    ProxyError,
>)
    requires
        store.wf(),
    ensures
        match r {
            Ok(step) => {
                &&& spec_valid_of(body)
                &&& match step {
                    EmbeddingsStep::Done(resp) => {
                        &&& spec_all_cached(*store, body)
                        &&& spec_fmt_of(body) != RequestedFormat::Unsupported
                        &&& resp.model@ == body.model.unwrap()@
                        &&& resp.data@.len() == body.input.unwrap()@.len()
                        &&& forall|i: int|
                            0 <= i < resp.data@.len() ==> (#[trigger] resp.data@[i]).index == i
                        &&& forall|i: int|
                            0 <= i < resp.data@.len() && spec_fmt_of(body)
                                == RequestedFormat::Base64 ==> ((#[trigger] resp.data@[i]).embedding
                                matches EmbeddingValue::Base64(s) && s@ == b64_encode_of(
                                store.spec_value_of(spec_body_fp(body, i)),
                            ))
                        &&& forall|i: int|
                            0 <= i < resp.data@.len() && spec_fmt_of(body)
                                == RequestedFormat::Float ==> ((#[trigger] resp.data@[i]).embedding
                                matches EmbeddingValue::FloatBits(w) && w@ == words_of(
                                store.spec_value_of(spec_body_fp(body, i)),
                            ))
                        &&& resp.usage_tokens == spec_usage(
                            Seq::new(
                                body.input.unwrap()@.len(),
                                |i: int| store.spec_value_of(spec_body_fp(body, i)),
                            ),
                        )
                    },
                    EmbeddingsStep::CallUpstream(u, pend) => {
                        &&& !spec_all_cached(*store, body)
                        &&& pending_wf(pend)
                        &&& pend.request.model@ == body.model.unwrap()@
                        &&& pend.request.input@ == body.input.unwrap()@
                        &&& pend.request.dimensions == spec_dims_of(body)
                        &&& pend.request.format == spec_fmt_of(body)
                        &&& forall|i: int|
                            0 <= i < pend.plan.tags@.len() ==> ((#[trigger] pend.plan.tags@[i])
                                is Hit <==> store.spec_contains(spec_body_fp(body, i)))
                        &&& forall|i: int|
                            0 <= i < pend.plan.tags@.len() ==> ((#[trigger] pend.plan.tags@[i])
                                matches CacheHitOrMiss::Hit(b) ==> b@ == store.spec_value_of(
                                spec_body_fp(body, i),
                            ))
                        &&& u.model@ == body.model.unwrap()@
                        &&& u.dimensions == spec_dims_of(body)
                        &&& u.encoding_format@ == "base64"@
                        &&& u.input@.len() == pend.plan.miss_indices@.len()
                        &&& forall|k: int|
                            0 <= k < u.input@.len() ==> (#[trigger] u.input@[k])@
                                == body.input.unwrap()@[pend.plan.miss_indices@[k] as int]@
                    },
                }
            },
            Err(e) => {
                &&& (e == ProxyError::MissingInput <==> body.input is None)
                &&& (e == ProxyError::MissingModel <==> body.input is Some && body.model is None)
                &&& (e == ProxyError::UnknownModel <==> (body.input is Some && body.model is Some
                    && spec_resolved_dimensions(body.model.unwrap()@, body.dimensions) is None))
                &&& (e == ProxyError::UnsupportedFormat <==> (spec_valid_of(body) && spec_fmt_of(
                    body,
                ) == RequestedFormat::Unsupported && spec_all_cached(*store, body)))
            },
        },
        r is Err <==> (!spec_valid_of(body) || (spec_fmt_of(body) == RequestedFormat::Unsupported
            && spec_all_cached(*store, body))),
{
    let req = match validate(body) {
        Ok(v) => v,
        Err(e) => {
            return Err(e);
        },
    };
    let mut hashes: Vec<Vec<u8>> = Vec::new();
    let mut lookups: Vec<LookupOutcome> = Vec::new();
    let mut i: usize = 0;
    while i < req.input.len()
        invariant
            store.wf(),
            spec_valid_of(body),
            req.model@ == body.model.unwrap()@,
            req.input@ == body.input.unwrap()@,
            req.dimensions == spec_dims_of(body),
            i <= req.input@.len(),
            hashes@.len() == i,
            lookups@.len() == i,
            forall|i0: int|
                0 <= i0 < i ==> (#[trigger] hashes@[i0])@ == spec_body_fp(body, i0)
                    && hashes@[i0]@.len() == 32,
            forall|i0: int|
                0 <= i0 < i ==> (#[trigger] lookups@[i0]).spec_found() == (
                if store.spec_contains(spec_body_fp(body, i0)) {
                    Some(store.spec_value_of(spec_body_fp(body, i0)))
                } else {
                    None::<Seq<u8>>
                }),
        decreases req.input@.len() - i,
    {
        let fp = fingerprint(req.input[i].as_str(), req.model.as_str(), req.dimensions);
        let outcome = match store.lookup(&fp) {
            Some(v) => LookupOutcome::Found(v),
            None => LookupOutcome::Absent,
        };
        hashes.push(fp);
        lookups.push(outcome);
        i += 1;
    }
    let p = plan(&lookups);
    if p.miss_indices.len() == 0 {
        proof {
            assert forall|i0: int|
                0 <= i0 < body.input.unwrap()@.len() implies store.spec_contains(
                #[trigger] spec_body_fp(body, i0),
            ) by {
                assert(lookups@[i0].spec_found() is Some);
            }
            assert(spec_all_cached(*store, body));
        }
        let blobs = resolve_all_hits(&p);
        proof {
            assert forall|i0: int| 0 <= i0 < blobs@.len() implies (#[trigger] blobs@[i0])@
                == store.spec_value_of(spec_body_fp(body, i0)) by {
                assert(lookups@[i0].spec_found() is Some);
                assert(lookups@[i0].spec_found() == Some(
                    store.spec_value_of(spec_body_fp(body, i0)),
                ));
                assert(p.tags@[i0] matches CacheHitOrMiss::Hit(v) && v@ == lookups@[
                    i0].spec_found().unwrap());
            }
        }
        match assemble_response(&blobs, req.format, &req.model) {
            Ok(resp) => {
                proof {
                    let owed = Seq::new(
                        body.input.unwrap()@.len(),
                        |i0: int| store.spec_value_of(spec_body_fp(body, i0)),
                    );
                    assert(blob_views(blobs@) =~= owed);
                }
                Ok(EmbeddingsStep::Done(resp))
            },
            Err(e) => Err(e),
        }
    } else {
        proof {
            let i0 = p.miss_indices@[0] as int;
            assert(p.tags@[i0] == CacheHitOrMiss::Miss(0usize));
            assert(lookups@[i0].spec_found() is None);
            assert(!spec_all_cached(*store, body));
        }
        let u = build_upstream_request(&req, &p.miss_indices);
        proof {
            assert forall|i0: int| 0 <= i0 < p.tags@.len() implies ((#[trigger] p.tags@[i0]) is Hit
                <==> store.spec_contains(spec_body_fp(body, i0))) by {
                if lookups@[i0].spec_found() is Some {
                    assert(p.tags@[i0] is Hit);
                } else {
                    assert(p.tags@[i0] is Miss);
                }
            }
        }
        Ok(EmbeddingsStep::CallUpstream(u, PendingExchange { request: req, plan: p, hashes }))
    }
}

/// The upstream-side half: check the response, decode every missed
/// element, commit each owed insert in miss order, and assemble the
/// response in the client's input order. The store is append-only: inserts
/// that landed stay even when a later step fails the request.
pub fn embeddings_finish(
    store: &mut CacheStore,
    pending: PendingExchange,
    resp: UpstreamResponse,
) -> (r: Result<EmbeddingsResponse, ProxyError>)
    requires
        old(store).wf(),
        pending_wf(pending),
    ensures
        final(store).wf(),
        final(store).entries@.len() >= old(store).entries@.len(),
        final(store).entries@.subrange(0, old(store).entries@.len() as int)
            == old(store).entries@,
        match r {
            Ok(out) => {
                &&& resp.model@ == pending.request.model@
                &&& all_misses_good(pending.plan.tags@, resp, pending.request.dimensions)
                &&& pending.request.format != RequestedFormat::Unsupported
                &&& spec_writes_clean(*old(store), pending)
                &&& out.model@ == pending.request.model@
                &&& out.data@.len() == pending.request.input@.len()
                &&& forall|i: int|
                    0 <= i < out.data@.len() ==> (#[trigger] out.data@[i]).index == i
                &&& forall|i: int|
                    0 <= i < out.data@.len() && pending.request.format == RequestedFormat::Base64
                        ==> ((#[trigger] out.data@[i]).embedding matches EmbeddingValue::Base64(s)
                        && s@ == b64_encode_of(spec_blob_at(pending, resp, i)))
                &&& forall|i: int|
                    0 <= i < out.data@.len() && pending.request.format == RequestedFormat::Float
                        ==> ((#[trigger] out.data@[i]).embedding matches
                        EmbeddingValue::FloatBits(w) && w@ == words_of(
                        spec_blob_at(pending, resp, i),
                    ))
                &&& out.usage_tokens == spec_usage(
                    Seq::new(
                        pending.request.input@.len(),
                        |i: int| spec_blob_at(pending, resp, i),
                    ),
                )
                &&& forall|k: int|
                    0 <= k < pending.plan.miss_indices@.len() ==> final(store).spec_contains(
                        pending.hashes@[(#[trigger] pending.plan.miss_indices@[k]) as int]@,
                    ) && final(store).spec_value_of(
                        pending.hashes@[pending.plan.miss_indices@[k] as int]@,
                    ) == resp.entry_blob(k)
            },
            Err(e) => {
                &&& (e == ProxyError::UpstreamFailure || e == ProxyError::DecodeFailure || e
                    == ProxyError::CacheWriteFailure || e == ProxyError::UnsupportedFormat)
                &&& ((e == ProxyError::UpstreamFailure || e == ProxyError::DecodeFailure) ==> (
                resp.model@ != pending.request.model@ || !all_misses_good(
                    pending.plan.tags@,
                    resp,
                    pending.request.dimensions,
                )) && *final(store) == *old(store))
                &&& (e == ProxyError::CacheWriteFailure ==> resp.model@ == pending.request.model@
                    && all_misses_good(pending.plan.tags@, resp, pending.request.dimensions)
                    && !spec_writes_clean(*old(store), pending))
                &&& (e == ProxyError::UnsupportedFormat ==> pending.request.format
                    == RequestedFormat::Unsupported && resp.model@ == pending.request.model@
                    && all_misses_good(pending.plan.tags@, resp, pending.request.dimensions)
                    && spec_writes_clean(*old(store), pending))
            },
        },
        (r is Ok <==> (resp.model@ == pending.request.model@ && all_misses_good(
            pending.plan.tags@,
            resp,
            pending.request.dimensions,
        ) && pending.request.format != RequestedFormat::Unsupported && spec_writes_clean(
            *old(store),
            pending,
        ))),
{
    let res = match resolve(
        &pending.plan,
        &pending.hashes,
        &resp,
        &pending.request.model,
        pending.request.dimensions,
    ) {
        Ok(res) => res,
        Err(e) => {
            proof {
                assert(store.entries@.subrange(0, store.entries@.len() as int) =~= store.entries@);
            }
            return Err(e);
        },
    };
    let ghost pre = *store;
    proof {
        assert(pre == *old(store));
        assert(store.entries@.subrange(0, pre.entries@.len() as int) =~= pre.entries@);
    }
    let mut k: usize = 0;
    while k < res.writes.len()
        invariant
            pending_wf(pending),
            pre == *old(store),
            pre.wf(),
            resp.model@ == pending.request.model@,
            all_misses_good(pending.plan.tags@, resp, pending.request.dimensions),
            res.writes@.len() == pending.plan.miss_indices@.len(),
            forall|k0: int|
                0 <= k0 < res.writes@.len() ==> (#[trigger] res.writes@[k0]).hash@
                    == pending.hashes@[pending.plan.miss_indices@[k0] as int]@
                    && res.writes@[k0].value@.len() == 4 * pending.request.dimensions,
            store.wf(),
            store.entries@.len() >= pre.entries@.len(),
            store.entries@.subrange(0, pre.entries@.len() as int) == pre.entries@,
            k <= res.writes@.len(),
            forall|k0: int|
                0 <= k0 < k ==> store.spec_contains((#[trigger] res.writes@[k0]).hash@)
                    && store.spec_value_of(res.writes@[k0].hash@) == res.writes@[k0].value@,
            forall|h: Seq<u8>|
                #[trigger] store.spec_contains(h) <==> (pre.spec_contains(h) || exists|k0: int|
                    0 <= k0 < k && (#[trigger] res.writes@[k0]).hash@ == h),
            forall|k1: int, k2: int|
                0 <= k1 < k2 < k ==> res.writes@[k1].hash@ != res.writes@[k2].hash@,
            forall|k0: int|
                0 <= k0 < k ==> !pre.spec_contains((#[trigger] res.writes@[k0]).hash@),
        decreases res.writes@.len() - k,
    {
        let hash = clone_bytes(&res.writes[k].hash);
        let value = clone_bytes(&res.writes[k].value);
        let ghost before = *store;
        match store.put(pending.request.model.clone(), pending.request.dimensions, hash, value) {
            Ok(()) => {
                proof {
                    let kk = k as int;
                    let h_new = res.writes@[kk].hash@;
                    assert(store.entries@.subrange(0, pre.entries@.len() as int)
                        =~= pre.entries@);
                    assert(!pre.spec_contains(h_new));
                    assert forall|h: Seq<u8>| #[trigger]
                        store.spec_contains(h) implies (pre.spec_contains(h) || exists|k0: int|
                        0 <= k0 < kk + 1 && (#[trigger] res.writes@[k0]).hash@ == h) by {
                        if h == h_new {
                            assert(res.writes@[kk].hash@ == h);
                        } else {
                            assert(before.spec_contains(h));
                        }
                    }
                    assert forall|h: Seq<u8>|
                        (pre.spec_contains(h) || exists|k0: int|
                            0 <= k0 < kk + 1 && (#[trigger] res.writes@[k0]).hash@ == h) implies
                        #[trigger] store.spec_contains(h) by {
                        if pre.spec_contains(h) {
                            assert(before.spec_contains(h));
                        } else {
                            let k0 = choose|k0: int|
                                0 <= k0 < kk + 1 && (#[trigger] res.writes@[k0]).hash@ == h;
                            if k0 < kk {
                                assert(before.spec_contains(res.writes@[k0].hash@));
                            }
                        }
                    }
                    assert forall|k0: int|
                        0 <= k0 < kk + 1 implies store.spec_contains(
                        (#[trigger] res.writes@[k0]).hash@,
                    ) && store.spec_value_of(res.writes@[k0].hash@) == res.writes@[k0].value@ by {
                        if k0 < kk {
                            assert(before.spec_contains(res.writes@[k0].hash@));
                        }
                    }
                    assert forall|k1: int, k2: int|
                        0 <= k1 < k2 < kk + 1 implies res.writes@[k1].hash@
                        != res.writes@[k2].hash@ by {
                        if k2 == kk {
                            assert(before.spec_contains(res.writes@[k1].hash@));
                        }
                    }
                }
            },
            Err(_) => {
                proof {
                    let h = res.writes@[k as int].hash@;
                    assert(before.spec_contains(h));
                    assert(h == pending.hashes@[pending.plan.miss_indices@[k as int] as int]@);
                    if pre.spec_contains(h) {
                        assert(!spec_writes_clean(pre, pending));
                    } else {
                        let k0 = choose|k0: int|
                            0 <= k0 < k && (#[trigger] res.writes@[k0]).hash@ == h;
                        assert(pending.hashes@[pending.plan.miss_indices@[k0] as int]@
                            == pending.hashes@[pending.plan.miss_indices@[k as int] as int]@);
                        assert(!spec_writes_clean(pre, pending));
                    }
                }
                return Err(ProxyError::CacheWriteFailure);
            },
        }
        k += 1;
    }
    proof {
        assert forall|k0: int|
            0 <= k0 < pending.plan.miss_indices@.len() implies !pre.spec_contains(
            pending.hashes@[(#[trigger] pending.plan.miss_indices@[k0]) as int]@,
        ) by {
            assert(res.writes@[k0].hash@
                == pending.hashes@[pending.plan.miss_indices@[k0] as int]@);
        }
        assert forall|k1: int, k2: int|
            0 <= k1 < k2 < pending.plan.miss_indices@.len() implies pending.hashes@[
            pending.plan.miss_indices@[k1] as int]@ != pending.hashes@[pending.plan.miss_indices@[
            k2] as int]@ by {
            assert(res.writes@[k1].hash@
                == pending.hashes@[pending.plan.miss_indices@[k1] as int]@);
            assert(res.writes@[k2].hash@
                == pending.hashes@[pending.plan.miss_indices@[k2] as int]@);
            assert(res.writes@[k1].hash@ != res.writes@[k2].hash@);
        }
        assert(spec_writes_clean(pre, pending));
    }
    match assemble_response(&res.blobs, pending.request.format, &pending.request.model) {
        Ok(out) => {
            proof {
                assert forall|i: int| 0 <= i < res.blobs@.len() implies (#[trigger] res.blobs@[i])@
                    == spec_blob_at(pending, resp, i) by {}
                let owed = Seq::new(
                    pending.request.input@.len(),
                    |i: int| spec_blob_at(pending, resp, i),
                );
                assert(blob_views(res.blobs@) =~= owed);
                assert forall|k0: int|
                    0 <= k0 < pending.plan.miss_indices@.len() implies store.spec_contains(
                    pending.hashes@[(#[trigger] pending.plan.miss_indices@[k0]) as int]@,
                ) && store.spec_value_of(
                    pending.hashes@[pending.plan.miss_indices@[k0] as int]@,
                ) == resp.entry_blob(k0) by {
                    let i0 = pending.plan.miss_indices@[k0] as int;
                    assert(pending.plan.tags@[i0] == CacheHitOrMiss::Miss(k0 as usize));
                    assert(res.blobs@[i0]@ == resp.entry_blob(k0));
                    assert(res.writes@[k0].value@ == res.blobs@[i0]@);
                }
            }
            Ok(out)
        },
        Err(e) => Err(e),
    }
}

} // verus!
