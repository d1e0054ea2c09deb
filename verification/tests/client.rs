//! Tests of script resolution, attachment payloads, and the end-to-end
//! request flow against a stub transport.

use landscape_api::Api;
use landscape_api::ApiError;
use landscape_api::Creator;
use landscape_api::ParamSet;
use landscape_api::Script;

fn mk_script(title: &str, id: u32) -> Script {
    Script {
        username: "admin".to_string(),
        time_limit: 300,
        attachments: vec!["a.txt".to_string(), "b.txt".to_string()],
        title: title.to_string(),
        creator: Creator {
            id: 1,
            name: "root".to_string(),
            email: "root@example.com".to_string(),
        },
        access_group: "global".to_string(),
        id,
    }
}

fn test_api() -> Api {
    Api::new(
        "https://landscape.example.com/api/".to_string(),
        "AKID".to_string(),
        "shared-secret".to_string(),
    )
}

fn get_param(m: &ParamSet, key: &str) -> Option<String> {
    for (k, v) in m.entries().iter() {
        if k == key {
            return Some(v.clone());
        }
    }
    None
}

#[test]
fn test_api_new_stores_credentials() {
    let api = test_api();
    assert_eq!(api.api_uri, "https://landscape.example.com/api/");
    assert_eq!(api.api_key, "AKID");
    assert_eq!(api.api_secret, "shared-secret");
}

#[test]
fn test_get_script_prefix_resolution_takes_first_match() {
    let api = test_api();
    let scripts = vec![
        mk_script("deploy", 7),
        mk_script("deploy-v2", 8),
        mk_script("backup", 9),
    ];
    let found = api.get_script("deploy", &scripts).expect("should resolve");
    assert_eq!(found.title, "deploy");
    assert_eq!(found.id, 7);

    let missing = api.get_script("nope", &scripts);
    assert!(missing.is_none());
}

#[test]
fn test_get_script_list_order_wins_over_exactness() {
    let api = test_api();
    // the first entry whose title starts with the prefix wins, even when a
    // later title is the exact prefix
    let scripts = vec![mk_script("deploy-v2", 8), mk_script("deploy", 7)];
    let found = api.get_script("deploy", &scripts).unwrap();
    assert_eq!(found.title, "deploy-v2");
    assert_eq!(found.id, 8);
}

#[test]
fn test_get_script_attachments_of_resolved_script() {
    let api = test_api();
    let scripts = vec![mk_script("deploy", 7)];
    let atts = api.get_script_attachments("deploy", &scripts).unwrap();
    assert_eq!(atts, vec!["a.txt".to_string(), "b.txt".to_string()]);
    assert!(api.get_script_attachments("nope", &scripts).is_none());
}

#[test]
fn test_attachment_file_param_layout() {
    let payload = Api::attachment_file_param("init.sh", &b"echo hi"[..]);
    let b64 = base64::Engine::encode(
        &base64::engine::general_purpose::STANDARD,
        &b"echo hi"[..],
    );
    assert_eq!(payload, format!("init.sh$${}", b64));
    assert_eq!(payload, "init.sh$$ZWNobyBoaQ==");
}

#[test]
fn test_attachment_file_param_empty_content() {
    let payload = Api::attachment_file_param("empty.bin", &[]);
    assert_eq!(payload, "empty.bin$$");
}

#[test]
fn test_execute_script_request_not_found() {
    let api = test_api();
    let scripts: Vec<Script> = Vec::new();
    let r = api.execute_script_request(&scripts, "hostname:web*", "deploy");
    assert!(matches!(r, Err(ApiError::ScriptNotFound)));
}

#[test]
fn test_request_bad_endpoint() {
    let api = Api::new("not a url".to_string(), "k".to_string(), "s".to_string());
    let scripts = vec![mk_script("deploy", 7)];
    let r = api.execute_script_request(&scripts, "q", "deploy");
    assert!(matches!(r, Err(ApiError::BadEndpoint)));
    let r = api.get_scripts_request();
    assert!(matches!(r, Err(ApiError::BadEndpoint)));
}

#[test]
fn test_get_scripts_request_is_signed() {
    let api = test_api();
    let m = api.get_scripts_request().unwrap();
    assert_eq!(get_param(&m, "action"), Some("GetScripts".to_string()));
    assert!(get_param(&m, "signature").is_some());
    assert_eq!(get_param(&m, "access_key_id"), Some("AKID".to_string()));
}

#[test]
fn test_get_all_hosts_request_is_signed() {
    let api = test_api();
    let m = api.get_all_hosts_request().unwrap();
    assert_eq!(get_param(&m, "action"), Some("GetComputers".to_string()));
    assert!(get_param(&m, "signature").is_some());
}

#[test]
fn test_create_and_remove_attachment_requests() {
    let api = test_api();
    let scripts = vec![mk_script("deploy", 7)];

    let m = api
        .create_script_attachment_request(&scripts, "deploy", "init.sh", &b"echo hi"[..])
        .unwrap();
    assert_eq!(
        get_param(&m, "action"),
        Some("CreateScriptAttachment".to_string())
    );
    assert_eq!(get_param(&m, "script_id"), Some("7".to_string()));
    // the file payload is percent-encoded before insertion
    assert_eq!(
        get_param(&m, "file"),
        Some("init.sh%24%24ZWNobyBoaQ%3D%3D".to_string())
    );

    let m = api
        .remove_script_attachment_request(&scripts, "deploy", "init.sh")
        .unwrap();
    assert_eq!(
        get_param(&m, "action"),
        Some("RemoveScriptAttachment".to_string())
    );
    assert_eq!(get_param(&m, "script_id"), Some("7".to_string()));
    assert_eq!(get_param(&m, "filename"), Some("init.sh".to_string()));

    let r = api.create_script_attachment_request(&scripts, "nope", "x", &[]);
    assert!(matches!(r, Err(ApiError::ScriptNotFound)));
    let r = api.remove_script_attachment_request(&scripts, "nope", "x");
    assert!(matches!(r, Err(ApiError::ScriptNotFound)));
}

// An independent percent-encoder and signature, as in the signing tests.
fn ref_encode(input: &str) -> String {
    let unreserved =
        "abcdefghijklmnopqrstuvwxyzABCDEFGHIJKLMNOPQRSTUVWXYZ0123456789-._~";
    let mut out = String::new();
    for c in input.chars() {
        if unreserved.contains(c) {
            out.push(c);
        } else {
            out.push_str(&format!("%{:02X}", c as u32));
        }
    }
    out
}

fn ref_signature(secret: &str, pairs: &[(String, String)], method: &str, host: &str, path: &str) -> String {
    let mut canonical = String::new();
    for (i, (k, v)) in pairs.iter().enumerate() {
        if i > 0 {
            canonical.push('&');
        }
        canonical.push_str(&ref_encode(k));
        canonical.push('=');
        if k == "timestamp" || k.starts_with("file") {
            canonical.push_str(v);
        } else {
            canonical.push_str(&ref_encode(v));
        }
    }
    let sts = format!("{}\n{}\n{}\n{}", method, host.to_lowercase(), path, canonical);
    let mut mac =
        <hmac::Hmac<sha2::Sha256> as hmac::KeyInit>::new_from_slice(secret.as_bytes()).unwrap();
    hmac::Mac::update(&mut mac, sts.as_bytes());
    let digest = hmac::Mac::finalize(mac).into_bytes();
    base64::Engine::encode(&base64::engine::general_purpose::STANDARD, digest.as_slice())
}

// A stub transport: records each signed request it is handed and replies
// from a canned script list.
struct StubTransport {
    scripts: Vec<Script>,
    calls: Vec<String>,
}

impl StubTransport {
    fn send(&mut self, m: &ParamSet) -> Vec<Script> {
        let action = get_param(m, "action").expect("request carries an action");
        assert!(
            get_param(m, "signature").is_some(),
            "request reached the transport unsigned"
        );
        self.calls.push(action);
        self.scripts
            .iter()
            .map(|s| mk_script(&s.title, s.id))
            .collect()
    }
}

#[test]
fn test_execute_script_end_to_end_with_stub_transport() {
    let api = test_api();
    let ts = "2024-05-06T07:08:09Z";
    let mut transport = StubTransport {
        scripts: vec![
            mk_script("deploy", 7),
            mk_script("deploy-v2", 8),
            mk_script("backup", 9),
        ],
        calls: Vec::new(),
    };

    // first call: fetch the script list
    let mut list = api.get_scripts_params();
    api.sign_api_call_at("POST", &mut list, ts).unwrap();
    let scripts = transport.send(&list);

    // resolve the title prefix against the response
    let script = api.get_script("deploy", &scripts).expect("resolves");
    assert_eq!(script.id, 7);

    // second call: execute against the resolved id
    let mut exec = api.execute_script_params("hostname:web*", script.id);
    api.sign_api_call_at("POST", &mut exec, ts).unwrap();
    transport.send(&exec);

    assert_eq!(transport.calls, vec!["GetScripts".to_string(), "ExecuteScript".to_string()]);

    assert_eq!(get_param(&exec, "action"), Some("ExecuteScript".to_string()));
    assert_eq!(get_param(&exec, "query"), Some("hostname:web*".to_string()));
    assert_eq!(get_param(&exec, "script_id"), Some("7".to_string()));

    // the signature matches an independently computed reference HMAC
    let unsigned: Vec<(String, String)> = exec
        .entries()
        .iter()
        .filter(|p| p.0 != "signature")
        .cloned()
        .collect();
    let want = ref_encode(&ref_signature(
        "shared-secret",
        &unsigned,
        "POST",
        "landscape.example.com",
        "/api/",
    ));
    assert_eq!(get_param(&exec, "signature"), Some(want));
}

#[test]
fn test_execute_script_params_multi_digit_id() {
    let api = test_api();
    let m = api.execute_script_params("q", 40007);
    assert_eq!(get_param(&m, "script_id"), Some("40007".to_string()));
    assert_eq!(get_param(&m, "query"), Some("q".to_string()));
    assert_eq!(get_param(&m, "action"), Some("ExecuteScript".to_string()));
}
