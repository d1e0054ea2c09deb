//! Tests of the signature computation, against an independently written
//! reference implementation of the signing protocol.

use landscape_api::create_signature;
use landscape_api::Api;
use landscape_api::ApiError;
use landscape_api::ParamSet;

// An independent percent-encoder, written against the protocol
// description rather than the library.
fn ref_encode(input: &str) -> String {
    let unreserved =
        "abcdefghijklmnopqrstuvwxyzABCDEFGHIJKLMNOPQRSTUVWXYZ0123456789-._~";
    let mut out = String::new();
    for c in input.chars() {
        if unreserved.contains(c) {
            out.push(c);
        } else {
            out.push_str(&format!("%{:02X}", c as u32));
        }
    }
    out
}

// An independent canonicalization and HMAC signature, for comparison.
fn ref_signature(secret: &str, pairs: &[(String, String)], method: &str, host: &str, path: &str) -> String {
    let mut canonical = String::new();
    for (i, (k, v)) in pairs.iter().enumerate() {
        if i > 0 {
            canonical.push('&');
        }
        canonical.push_str(&ref_encode(k));
        canonical.push('=');
        if k == "timestamp" || k.starts_with("file") {
            canonical.push_str(v);
        } else {
            canonical.push_str(&ref_encode(v));
        }
    }
    let sts = format!("{}\n{}\n{}\n{}", method, host.to_lowercase(), path, canonical);
    let mut mac =
        <hmac::Hmac<sha2::Sha256> as hmac::KeyInit>::new_from_slice(secret.as_bytes()).unwrap();
    hmac::Mac::update(&mut mac, sts.as_bytes());
    let digest = hmac::Mac::finalize(mac).into_bytes();
    base64::Engine::encode(&base64::engine::general_purpose::STANDARD, digest.as_slice())
}

fn get_param(m: &ParamSet, key: &str) -> Option<String> {
    for (k, v) in m.entries().iter() {
        if k == key {
            return Some(v.clone());
        }
    }
    None
}

#[test]
fn test_create_signature_is_deterministic() {
    let mut m = ParamSet::new();
    m.insert("action".to_string(), "GetScripts".to_string());
    m.insert("access_key_id".to_string(), "key".to_string());
    let s1 = create_signature("secret", &m, "POST", "host.example.com", "/api/");
    let s2 = create_signature("secret", &m, "POST", "host.example.com", "/api/");
    assert_eq!(s1, s2);
}

#[test]
fn test_create_signature_matches_reference() {
    let mut m = ParamSet::new();
    m.insert("action".to_string(), "GetScripts".to_string());
    m.insert("access_key_id".to_string(), "AKID".to_string());
    m.insert("timestamp".to_string(), "2024-05-06T07%3A08%3A09Z".to_string());
    let got = create_signature("topsecret", &m, "POST", "Host.Example.COM", "/api/");
    let pairs: Vec<(String, String)> = m.entries().clone();
    let want = ref_signature("topsecret", &pairs, "POST", "Host.Example.COM", "/api/");
    assert_eq!(got, want);
}

#[test]
fn test_create_signature_depends_on_secret() {
    let mut m = ParamSet::new();
    m.insert("action".to_string(), "GetScripts".to_string());
    let s1 = create_signature("secret-one", &m, "POST", "h", "/");
    let s2 = create_signature("secret-two", &m, "POST", "h", "/");
    assert_ne!(s1, s2);
}

#[test]
fn test_sign_api_call_at_inserts_auth_fields_and_signature() {
    let api = Api::new(
        "https://Landscape.Example.com/api/".to_string(),
        "AKID".to_string(),
        "shared-secret".to_string(),
    );
    let mut m = ParamSet::new();
    m.insert("action".to_string(), "GetScripts".to_string());
    let ts = "2024-05-06T07:08:09Z";
    let r = api.sign_api_call_at("POST", &mut m, ts);
    assert!(r.is_ok());

    assert_eq!(get_param(&m, "access_key_id"), Some("AKID".to_string()));
    assert_eq!(get_param(&m, "signature_method"), Some("HmacSHA256".to_string()));
    assert_eq!(get_param(&m, "signature_version"), Some("2".to_string()));
    assert_eq!(get_param(&m, "version"), Some("2011-08-01".to_string()));
    assert_eq!(
        get_param(&m, "timestamp"),
        Some("2024-05-06T07%3A08%3A09Z".to_string())
    );

    // the signature must match an independent computation over the set
    // without the signature field, with the parsed, lower-cased host
    let unsigned: Vec<(String, String)> = m
        .entries()
        .iter()
        .filter(|p| p.0 != "signature")
        .cloned()
        .collect();
    let want = ref_encode(&ref_signature(
        "shared-secret",
        &unsigned,
        "POST",
        "landscape.example.com",
        "/api/",
    ));
    assert_eq!(get_param(&m, "signature"), Some(want));
}

#[test]
fn test_sign_api_call_rejects_unparsable_endpoint() {
    let api = Api::new("not a url".to_string(), "k".to_string(), "s".to_string());
    let mut m = ParamSet::new();
    let r = api.sign_api_call_at("POST", &mut m, "2024-01-01T00:00:00Z");
    assert_eq!(r, Err(ApiError::BadEndpoint));
    assert_eq!(m.len(), 0);
}

#[test]
fn test_sign_api_call_rejects_endpoint_without_host() {
    let api = Api::new("mailto:user@example.com".to_string(), "k".to_string(), "s".to_string());
    let mut m = ParamSet::new();
    let r = api.sign_api_call_at("POST", &mut m, "2024-01-01T00:00:00Z");
    assert_eq!(r, Err(ApiError::BadEndpoint));
}

#[test]
fn test_sign_api_call_now_signs() {
    let api = Api::new(
        "https://landscape.example.com/api/".to_string(),
        "k".to_string(),
        "s".to_string(),
    );
    let mut m = ParamSet::new();
    m.insert("action".to_string(), "GetScripts".to_string());
    let r = api.sign_api_call("POST", &mut m);
    assert!(r.is_ok());
    assert!(get_param(&m, "signature").is_some());
    let ts = get_param(&m, "timestamp").unwrap();
    // YYYY-MM-DDTHH%3AMM%3ASSZ after percent-encoding
    assert_eq!(ts.len(), 24);
    assert!(ts.ends_with('Z'));
}
