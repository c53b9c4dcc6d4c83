use base64::Engine;
use sha2::Digest;

use embedcache::embeddings::{embeddings_begin, embeddings_finish, EmbeddingValue, EmbeddingsStep,
    UpstreamResponse};
use embedcache::errors::ProxyError;
use embedcache::fingerprint::fingerprint;
use embedcache::request::RequestBody;
use embedcache::routing::{authorize, route_for, upstream_url, Route};
use embedcache::store::CacheStore;

fn body(model: &str, input: &[&str], dims: Option<u64>, format: Option<&str>) -> RequestBody {
    RequestBody {
        model: Some(model.to_string()),
        input: Some(input.iter().map(|s| s.to_string()).collect()),
        dimensions: dims,
        encoding_format: format.map(|s| s.to_string()),
    }
}

fn zero_blob(dims: usize) -> Vec<u8> {
    vec![0u8; dims * 4]
}

fn word_blob(words: &[u32]) -> Vec<u8> {
    let mut out = Vec::new();
    for w in words {
        out.extend_from_slice(&w.to_le_bytes());
    }
    out
}

fn mock_response(model: &str, blobs: &[Vec<u8>]) -> UpstreamResponse {
    UpstreamResponse {
        model: model.to_string(),
        embeddings: blobs
            .iter()
            .map(|b| Some(base64::engine::general_purpose::STANDARD.encode(b)))
            .collect(),
    }
}

fn float_bits(v: &EmbeddingValue) -> &Vec<u32> {
    match v {
        EmbeddingValue::FloatBits(w) => w,
        EmbeddingValue::Base64(_) => panic!("expected a float embedding"),
    }
}

fn b64_text(v: &EmbeddingValue) -> &String {
    match v {
        EmbeddingValue::Base64(s) => s,
        EmbeddingValue::FloatBits(_) => panic!("expected a base64 embedding"),
    }
}

#[test]
fn cold_miss_float_format() {
    let mut store = CacheStore::new();
    let step = embeddings_begin(&store, body("text-embedding-3-small", &["hello"], None,
        Some("float"))).expect("valid request");
    let (upstream, pending) = match step {
        EmbeddingsStep::CallUpstream(u, p) => (u, p),
        EmbeddingsStep::Done(_) => panic!("cold store cannot answer outright"),
    };
    assert_eq!(upstream.model, "text-embedding-3-small");
    assert_eq!(upstream.dimensions, 1536);
    assert_eq!(upstream.encoding_format, "base64");
    assert_eq!(upstream.input, vec!["hello".to_string()]);

    let resp = mock_response("text-embedding-3-small", &[zero_blob(1536)]);
    let out = embeddings_finish(&mut store, pending, resp).expect("good upstream answer");
    assert_eq!(out.model, "text-embedding-3-small");
    assert_eq!(out.data.len(), 1);
    assert_eq!(out.data[0].index, 0);
    let w = float_bits(&out.data[0].embedding);
    assert_eq!(w.len(), 1536);
    assert!(w.iter().all(|&x| f32::from_bits(x) == 0.0));
    assert_eq!(out.usage_tokens, 1536);

    let expected_hash =
        sha2::Sha256::digest("hello-text-embedding-3-small-1536".as_bytes()).to_vec();
    let row = store.lookup(&expected_hash).expect("one row stored");
    assert_eq!(row.len(), 6144);
}

#[test]
fn warm_hit_is_byte_identical_and_asks_no_upstream() {
    let mut store = CacheStore::new();
    let req = || body("text-embedding-3-small", &["hello"], None, Some("float"));
    let (u, pending) = match embeddings_begin(&store, req()).unwrap() {
        EmbeddingsStep::CallUpstream(u, p) => (u, p),
        EmbeddingsStep::Done(_) => panic!("cold store cannot answer outright"),
    };
    assert_eq!(u.input.len(), 1);
    let first = embeddings_finish(&mut store, pending,
        mock_response("text-embedding-3-small", &[zero_blob(1536)])).unwrap();

    // the repeat is answered from the cache alone: Done, never CallUpstream
    let second = match embeddings_begin(&store, req()).unwrap() {
        EmbeddingsStep::Done(resp) => resp,
        EmbeddingsStep::CallUpstream(_, _) => panic!("warm hit must not call upstream"),
    };
    let third = match embeddings_begin(&store, req()).unwrap() {
        EmbeddingsStep::Done(resp) => resp,
        EmbeddingsStep::CallUpstream(_, _) => panic!("warm hit must not call upstream"),
    };
    assert_eq!(first.model, second.model);
    assert_eq!(first.usage_tokens, second.usage_tokens);
    assert_eq!(float_bits(&first.data[0].embedding), float_bits(&second.data[0].embedding));
    assert_eq!(float_bits(&second.data[0].embedding), float_bits(&third.data[0].embedding));
    assert_eq!(second.data[0].index, 0);
}

#[test]
fn partial_hit_preserves_order() {
    let mut store = CacheStore::new();
    let blob_a = word_blob(&[1, 2]);
    store.put("m".to_string(), 2, fingerprint("a", "m", 2), blob_a).expect("seed row");

    let step = embeddings_begin(&store, body("m", &["b", "a", "c"], Some(2), None)).unwrap();
    let (upstream, pending) = match step {
        EmbeddingsStep::CallUpstream(u, p) => (u, p),
        EmbeddingsStep::Done(_) => panic!("two inputs are not cached"),
    };
    // only the misses, in input order; the cached "a" is omitted
    assert_eq!(upstream.input, vec!["b".to_string(), "c".to_string()]);

    let resp = mock_response("m", &[word_blob(&[3, 4]), word_blob(&[5, 6])]);
    let out = embeddings_finish(&mut store, pending, resp).unwrap();
    assert_eq!(out.data.len(), 3);
    assert_eq!(float_bits(&out.data[0].embedding), &vec![3, 4]);
    assert_eq!(float_bits(&out.data[1].embedding), &vec![1, 2]);
    assert_eq!(float_bits(&out.data[2].embedding), &vec![5, 6]);
    assert_eq!(out.data[0].index, 0);
    assert_eq!(out.data[1].index, 1);
    assert_eq!(out.data[2].index, 2);
    assert_eq!(out.usage_tokens, 6);

    // the misses were written back
    assert!(store.lookup(&fingerprint("b", "m", 2)).is_some());
    assert!(store.lookup(&fingerprint("c", "m", 2)).is_some());
}

#[test]
fn format_translation_to_base64() {
    let mut store = CacheStore::new();
    store.put("text-embedding-3-small".to_string(), 1536,
        fingerprint("hello", "text-embedding-3-small", 1536), zero_blob(1536)).expect("seed row");
    let out = match embeddings_begin(&store,
        body("text-embedding-3-small", &["hello"], None, Some("base64"))).unwrap() {
        EmbeddingsStep::Done(resp) => resp,
        EmbeddingsStep::CallUpstream(_, _) => panic!("seeded store answers outright"),
    };
    let expected = base64::engine::general_purpose::STANDARD.encode(zero_blob(1536));
    assert_eq!(b64_text(&out.data[0].embedding), &expected);
    assert_eq!(out.usage_tokens, 1536);
}

#[test]
fn unknown_model_without_dimensions_is_bad_request() {
    let store = CacheStore::new();
    let err = embeddings_begin(&store, body("mystery", &["x"], None, None)).unwrap_err();
    assert_eq!(err, ProxyError::UnknownModel);
    assert_eq!(err.status(), 400);
}

#[test]
fn missing_input_and_model_are_bad_requests() {
    let store = CacheStore::new();
    let no_input = RequestBody {
        model: Some("text-embedding-3-small".to_string()),
        input: None,
        dimensions: None,
        encoding_format: None,
    };
    let err = embeddings_begin(&store, no_input).unwrap_err();
    assert_eq!(err, ProxyError::MissingInput);
    assert_eq!(err.status(), 400);
    assert_eq!(err.message(), "Embeddings call missing input");

    let no_model = RequestBody {
        model: None,
        input: Some(vec!["x".to_string()]),
        dimensions: None,
        encoding_format: None,
    };
    let err = embeddings_begin(&store, no_model).unwrap_err();
    assert_eq!(err, ProxyError::MissingModel);
    assert_eq!(err.message(), "Embeddings call missing model");
}

#[test]
fn empty_input_is_answered_without_upstream() {
    let store = CacheStore::new();
    let out = match embeddings_begin(&store,
        body("text-embedding-3-small", &[], None, None)).unwrap() {
        EmbeddingsStep::Done(resp) => resp,
        EmbeddingsStep::CallUpstream(_, _) => panic!("nothing to ask upstream for"),
    };
    assert_eq!(out.data.len(), 0);
    assert_eq!(out.usage_tokens, 0);
}

#[test]
fn duplicate_inputs_ask_upstream_twice_and_collide_on_insert() {
    let mut store = CacheStore::new();
    let step = embeddings_begin(&store,
        body("text-embedding-3-small", &["x", "x"], Some(1), None)).unwrap();
    let (upstream, pending) = match step {
        EmbeddingsStep::CallUpstream(u, p) => (u, p),
        EmbeddingsStep::Done(_) => panic!("cold store cannot answer outright"),
    };
    // no intra-request de-duplication
    assert_eq!(upstream.input, vec!["x".to_string(), "x".to_string()]);
    let resp = mock_response("text-embedding-3-small", &[word_blob(&[7]), word_blob(&[7])]);
    let err = embeddings_finish(&mut store, pending, resp).unwrap_err();
    assert_eq!(err, ProxyError::CacheWriteFailure);
    assert_eq!(err.status(), 500);
    assert_eq!(err.message(), "Failed to get embeddings");
}

#[test]
fn upstream_model_mismatch_fails_and_writes_nothing() {
    let mut store = CacheStore::new();
    let (_, pending) = match embeddings_begin(&store,
        body("text-embedding-3-small", &["q"], Some(1), None)).unwrap() {
        EmbeddingsStep::CallUpstream(u, p) => (u, p),
        EmbeddingsStep::Done(_) => panic!("cold store cannot answer outright"),
    };
    let resp = mock_response("another-model", &[word_blob(&[7])]);
    let err = embeddings_finish(&mut store, pending, resp).unwrap_err();
    assert_eq!(err, ProxyError::UpstreamFailure);
    assert!(store.lookup(&fingerprint("q", "text-embedding-3-small", 1)).is_none());
}

#[test]
fn upstream_wrong_dimensions_fails() {
    let mut store = CacheStore::new();
    let (_, pending) = match embeddings_begin(&store,
        body("text-embedding-3-small", &["q"], Some(2), None)).unwrap() {
        EmbeddingsStep::CallUpstream(u, p) => (u, p),
        EmbeddingsStep::Done(_) => panic!("cold store cannot answer outright"),
    };
    let resp = mock_response("text-embedding-3-small", &[word_blob(&[7])]);
    let err = embeddings_finish(&mut store, pending, resp).unwrap_err();
    assert_eq!(err, ProxyError::UpstreamFailure);
}

#[test]
fn upstream_missing_or_garbled_embedding_fails() {
    let mut store = CacheStore::new();
    let (_, pending) = match embeddings_begin(&store,
        body("text-embedding-3-small", &["q"], Some(1), None)).unwrap() {
        EmbeddingsStep::CallUpstream(u, p) => (u, p),
        EmbeddingsStep::Done(_) => panic!("cold store cannot answer outright"),
    };
    let missing = UpstreamResponse {
        model: "text-embedding-3-small".to_string(),
        embeddings: vec![None],
    };
    let err = embeddings_finish(&mut store, pending, missing).unwrap_err();
    assert_eq!(err, ProxyError::UpstreamFailure);

    let (_, pending) = match embeddings_begin(&store,
        body("text-embedding-3-small", &["q"], Some(1), None)).unwrap() {
        EmbeddingsStep::CallUpstream(u, p) => (u, p),
        EmbeddingsStep::Done(_) => panic!("cold store cannot answer outright"),
    };
    let garbled = UpstreamResponse {
        model: "text-embedding-3-small".to_string(),
        embeddings: vec![Some("@@not base64@@".to_string())],
    };
    let err = embeddings_finish(&mut store, pending, garbled).unwrap_err();
    assert_eq!(err, ProxyError::DecodeFailure);
}

#[test]
fn unsupported_format_is_a_server_error() {
    let mut store = CacheStore::new();
    store.put("text-embedding-3-small".to_string(), 1,
        fingerprint("x", "text-embedding-3-small", 1), word_blob(&[7])).expect("seed row");
    let err = embeddings_begin(&store,
        body("text-embedding-3-small", &["x"], Some(1), Some("hex"))).unwrap_err();
    assert_eq!(err, ProxyError::UnsupportedFormat);
    assert_eq!(err.status(), 500);
}

#[test]
fn store_rejects_duplicate_key_and_keeps_first_row() {
    let mut store = CacheStore::new();
    let h = fingerprint("x", "m", 1);
    store.put("m".to_string(), 1, h.clone(), word_blob(&[1])).expect("first insert");
    let err = store.put("m".to_string(), 1, h.clone(), word_blob(&[2])).unwrap_err();
    assert_eq!(err, ProxyError::CacheWriteFailure);
    assert_eq!(store.lookup(&h), Some(word_blob(&[1])));
    assert!(store.lookup(&fingerprint("y", "m", 1)).is_none());
}

#[test]
fn routing_and_auth() {
    assert_eq!(route_for(&"/v1/embeddings".to_string()), Route::Embeddings);
    assert_eq!(route_for(&"/v1/chat/completions".to_string()), Route::Passthrough);
    assert_eq!(route_for(&"/v1/embeddings/".to_string()), Route::Passthrough);

    assert_eq!(authorize(Some("Bearer k".to_string())), Ok("Bearer k".to_string()));
    let err = authorize(None).unwrap_err();
    assert_eq!(err, ProxyError::Unauthorized);
    assert_eq!(err.status(), 401);
    assert_eq!(err.message(), "Missing API key");

    assert_eq!(upstream_url("/v1/chat/completions?stream=true"),
        "https://api.openai.com/v1/chat/completions?stream=true");
}
