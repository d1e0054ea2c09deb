//! The API client: credentials, the typed entities the remote system
//! returns, script resolution by title prefix, and the construction of
//! fully signed parameter sets for each remote operation.
//!
//! The network transport and the JSON decoding of responses live outside
//! this crate; every function here works on plain values.

use std::collections::HashMap;
use vstd::prelude::*;

use crate::encoding::encode_rfc3986;
use crate::encoding::encode_seq;
use crate::params::insert_sorted;
use crate::params::ParamSet;
use crate::signer::base64_encode;
use crate::signer::base64_of;
use crate::signer::create_signature;
use crate::signer::signature_b64;
use crate::strutil::dec_of;
use crate::strutil::str_starts_with;
use crate::strutil::u32_to_string;

verus! {

/// The identity that created a script or an execution.
pub struct Creator {
    pub id: u32,
    pub name: String,
    pub email: String,
}

/// A script of the remote inventory.  Read-only for this client; the
/// remote system is authoritative.
pub struct Script {
    pub username: String,
    pub time_limit: u32,
    pub attachments: Vec<String>,
    pub title: String,
    pub creator: Creator,
    pub access_group: String,
    pub id: u32,
}

/// The outcome of invoking a script.
pub struct ScriptExec {
    pub computer_id: Option<String>,
    pub creation_time: String,
    pub creator: Creator,
    pub id: u32,
    pub parent_id: Option<String>,
    pub summary: String,
    pub group_type: String,
}

/// A computer inventory record.
pub struct Computer {
    pub comment: Option<String>,
    pub total_swap: Option<i32>,
    pub total_memory: Option<i32>,
    pub annotations: Option<HashMap<String, String>>,
    pub title: Option<String>,
    pub last_ping_time: Option<String>,
    pub hostname: Option<String>,
    pub container_info: Option<String>,
    pub last_exchange_time: Option<String>,
    pub update_manager_prompt: Option<String>,
    pub tags: Option<Vec<String>>,
    pub cloud_instance_metadata: HashMap<String, String>,
    pub access_group: Option<String>,
    pub distribution: Option<String>,
    pub id: i32,
    pub reboot_required_flag: bool,
    pub vm_info: Option<String>,
}

/// What can go wrong before any network activity: a malformed endpoint
/// URL, or a script title prefix that resolves to nothing.
#[derive(Debug, Clone, Copy, PartialEq, Eq, Structural)]
pub enum ApiError {
    BadEndpoint,
    ScriptNotFound,
}

/// The credential triple: endpoint base URL, access key identifier, and
/// shared secret.  Immutable once constructed.
pub struct Api {
    pub api_uri: String,
    pub api_key: String,
    pub api_secret: String,
}

/// `Url::parse` accepts the string and the parsed URL carries a host.
pub uninterp spec fn url_well_formed(s: Seq<char>) -> bool;

/// The host of the parsed URL, as `Url::host` renders it.
pub uninterp spec fn url_host_of(s: Seq<char>) -> Seq<char>;

/// The path of the parsed URL, as `Url::path` yields it.
pub uninterp spec fn url_path_of(s: Seq<char>) -> Seq<char>;

/// Relies on `url::Url::parse`, `Url::host` and `Url::path`: parsing
/// either fails, or yields a URL whose host (if any) and path are
/// functions of the input string alone.
#[verifier::external_body]
fn parse_host_path(uri: &str) -> (r: Option<(String, String)>)
    ensures
        r is Some <==> url_well_formed(uri@),
        r matches Some(hp) ==> hp.0@ == url_host_of(uri@) && hp.1@ == url_path_of(uri@),
{
    match url::Url::parse(uri) {
        Ok(u) => {
            let path = u.path().to_string();
            match u.host() {
                Some(h) => Some((h.to_string(), path)),
                None => None,
            }
        },
        Err(_) => None,
    }
}

/// Relies on `chrono::Utc::now` and its formatter for
/// `%Y-%m-%dT%H:%M:%SZ`.  The value depends on the clock, so nothing is
/// promised of it; callers state what holds whatever came back.
#[verifier::external_body]
fn now_timestamp() -> (r: String) {
    chrono::Utc::now().format("%Y-%m-%dT%H:%M:%SZ").to_string()
}

/// `name` is a prefix of the script's title.
pub open spec fn title_matches(s: Script, name: Seq<char>) -> bool {
    name.is_prefix_of(s.title@)
}

/// Some script of the list carries the prefix.
pub open spec fn some_match(scripts: Seq<Script>, name: Seq<char>) -> bool {
    exists|i: int| 0 <= i < scripts.len() && title_matches(#[trigger] scripts[i], name)
}

/// Position `i` holds the first script carrying the prefix.
pub open spec fn first_match_at(scripts: Seq<Script>, name: Seq<char>, i: int) -> bool {
    &&& 0 <= i < scripts.len()
    &&& title_matches(scripts[i], name)
    &&& forall|j: int| 0 <= j < i ==> !title_matches(#[trigger] scripts[j], name)
}

/// Field-for-field agreement of two scripts.
pub open spec fn same_script(a: Script, b: Script) -> bool {
    &&& a.username@ == b.username@
    &&& a.time_limit == b.time_limit
    &&& a.attachments@ == b.attachments@
    &&& a.title@ == b.title@
    &&& a.creator.id == b.creator.id
    &&& a.creator.name@ == b.creator.name@
    &&& a.creator.email@ == b.creator.email@
    &&& a.access_group@ == b.access_group@
    &&& a.id == b.id
}

/// The parameters of a list-scripts request, before signing.
pub open spec fn get_scripts_params_of() -> Seq<(Seq<char>, Seq<char>)> {
    insert_sorted(Seq::empty(), "action"@, "GetScripts"@)
}

/// The parameters of a list-computers request, before signing.
pub open spec fn get_computers_params_of() -> Seq<(Seq<char>, Seq<char>)> {
    insert_sorted(Seq::empty(), "action"@, "GetComputers"@)
}

/// The parameters of an execute-script request, before signing.
pub open spec fn execute_params_of(host_query: Seq<char>, script_id: int) -> Seq<
    (Seq<char>, Seq<char>),
> {
    insert_sorted(
        insert_sorted(
            insert_sorted(Seq::empty(), "action"@, "ExecuteScript"@),
            "query"@,
            host_query,
        ),
        "script_id"@,
        dec_of(script_id),
    )
}

/// The `file` parameter value before percent-encoding:
/// `filename$$base64(content)`.
pub open spec fn attachment_payload_of(filename: Seq<char>, content: Seq<u8>) -> Seq<char> {
    filename + "$$"@ + base64_of(content)
}

/// The parameters of a create-attachment request, before signing.
pub open spec fn create_attachment_params_of(
    filename: Seq<char>,
    content: Seq<u8>,
    script_id: int,
) -> Seq<(Seq<char>, Seq<char>)> {
    insert_sorted(
        insert_sorted(
            insert_sorted(Seq::empty(), "action"@, "CreateScriptAttachment"@),
            "script_id"@,
            dec_of(script_id),
        ),
        "file"@,
        encode_seq(attachment_payload_of(filename, content)),
    )
}

/// The parameters of a remove-attachment request, before signing.
pub open spec fn remove_attachment_params_of(filename: Seq<char>, script_id: int) -> Seq<
    (Seq<char>, Seq<char>),
> {
    insert_sorted(
        insert_sorted(
            insert_sorted(Seq::empty(), "action"@, "RemoveScriptAttachment"@),
            "script_id"@,
            dec_of(script_id),
        ),
        "filename"@,
        filename,
    )
}

/// The parameter set with the four standard authentication fields and the
/// percent-encoded timestamp inserted.
pub open spec fn with_auth_params(
    ps: Seq<(Seq<char>, Seq<char>)>,
    key: Seq<char>,
    ts: Seq<char>,
) -> Seq<(Seq<char>, Seq<char>)> {
    insert_sorted(
        insert_sorted(
            insert_sorted(
                insert_sorted(
                    insert_sorted(ps, "access_key_id"@, key),
                    "signature_method"@,
                    "HmacSHA256"@,
                ),
                "signature_version"@,
                "2"@,
            ),
            "version"@,
            "2011-08-01"@,
        ),
        "timestamp"@,
        encode_seq(ts),
    )
}

/// The fully signed parameter set: the authentication fields, then the
/// percent-encoded signature over what the set holds at that point.
pub open spec fn signed_params(
    ps: Seq<(Seq<char>, Seq<char>)>,
    key: Seq<char>,
    secret: Seq<char>,
    method: Seq<char>,
    uri: Seq<char>,
    ts: Seq<char>,
) -> Seq<(Seq<char>, Seq<char>)> {
    let with_auth = with_auth_params(ps, key, ts);
    insert_sorted(
        with_auth,
        "signature"@,
        encode_seq(signature_b64(secret, with_auth, method, url_host_of(uri), url_path_of(uri))),
    )
}

/// Clones a vector of strings element by element.
fn copy_strings(v: &Vec<String>) -> (r: Vec<String>)
    ensures
        r@ == v@,
{
    let n = v.len();
    let mut r: Vec<String> = Vec::new();
    let mut i: usize = 0;
    while i < n
        invariant
            n == v@.len(),
            i <= n,
            r@ =~= v@.take(i as int),
        decreases n - i,
    {
        r.push(v[i].clone());
        i += 1;
    }
    proof {
        assert(v@.take(n as int) =~= v@);
    }
    r
}

impl Api {
    /// A client over the given credential triple.
    pub fn new(api_uri: String, api_key: String, api_secret: String) -> (r: Api)
        ensures
            r.api_uri == api_uri,
            r.api_key == api_key,
            r.api_secret == api_secret,
    {
        Api { api_uri, api_key, api_secret }
    }

    /// Resolves a script by title prefix: the first entry of `scripts`
    /// whose title starts with `name`, or `None` when no title does.  The
    /// remote API offers no get-by-name call, so callers fetch the full
    /// list first; an ambiguous prefix resolves to the first match in
    /// list order.
    pub fn get_script(&self, name: &str, scripts: &Vec<Script>) -> (r: Option<Script>)
        ensures
            r is Some <==> some_match(scripts@, name@),
            r matches Some(s) ==> exists|i: int|
                #[trigger] first_match_at(scripts@, name@, i) && same_script(s, scripts@[i]),
    {
        let n = scripts.len();
        let mut i: usize = 0;
        while i < n
            invariant
                n == scripts@.len(),
                i <= n,
                forall|j: int| 0 <= j < i ==> !title_matches(#[trigger] scripts@[j], name@),
            decreases n - i,
        {
            if str_starts_with(scripts[i].title.as_str(), name) {
                let s = &scripts[i];
                let found = Script {
                    username: s.username.clone(),
                    time_limit: s.time_limit,
                    attachments: copy_strings(&s.attachments),
                    title: s.title.clone(),
                    creator: Creator {
                        id: s.creator.id,
                        name: s.creator.name.clone(),
                        email: s.creator.email.clone(),
                    },
                    access_group: s.access_group.clone(),
                    id: s.id,
                };
                proof {
                    assert(first_match_at(scripts@, name@, i as int));
                    assert(same_script(found, scripts@[i as int]));
                }
                return Some(found);
            }
            i += 1;
        }
        None
    }

    /// The attachment filenames of the script resolved by title prefix,
    /// or `None` when no title matches.  No extra remote call: the list
    /// is read off the already-fetched script.
    pub fn get_script_attachments(&self, name: &str, scripts: &Vec<Script>) -> (r: Option<
        Vec<String>,
    >)
        ensures
            r is Some <==> some_match(scripts@, name@),
            r matches Some(v) ==> exists|i: int|
                #[trigger] first_match_at(scripts@, name@, i) && v@ == scripts@[i].attachments@,
    {
        match self.get_script(name, scripts) {
            Some(s) => Some(s.attachments),
            None => None,
        }
    }

    /// The unsigned parameters of a list-scripts request.
    pub fn get_scripts_params(&self) -> (m: ParamSet)
        ensures
            m.wf(),
            m@ == get_scripts_params_of(),
    {
        let mut m = ParamSet::new();
        m.insert("action".to_owned(), "GetScripts".to_owned());
        m
    }

    /// The unsigned parameters of a list-computers request.
    pub fn get_computers_params(&self) -> (m: ParamSet)
        ensures
            m.wf(),
            m@ == get_computers_params_of(),
    {
        let mut m = ParamSet::new();
        m.insert("action".to_owned(), "GetComputers".to_owned());
        m
    }

    /// The unsigned parameters of an execute-script request.
    pub fn execute_script_params(&self, host_query: &str, script_id: u32) -> (m: ParamSet)
        ensures
            m.wf(),
            m@ == execute_params_of(host_query@, script_id as int),
    {
        let mut m = ParamSet::new();
        m.insert("action".to_owned(), "ExecuteScript".to_owned());
        m.insert("query".to_owned(), host_query.to_owned());
        m.insert("script_id".to_owned(), u32_to_string(script_id));
        m
    }

    /// The `file` parameter value of an attachment upload, before
    /// percent-encoding: the filename, the separator `$$`, and the
    /// base64-encoded file contents.
    pub fn attachment_file_param(filename: &str, content: &[u8]) -> (r: String)
        requires
            content@.len() <= 0x1000_0000_0000_0000,
        ensures
            r@ == attachment_payload_of(filename@, content@),
    {
        let mut r = filename.to_owned();
        r.append("$$");
        let b64 = base64_encode(content);
        r.append(b64.as_str());
        r
    }

    /// The unsigned parameters of a create-attachment request.
    pub fn create_script_attachment_params(
        &self,
        filename: &str,
        content: &[u8],
        script_id: u32,
    ) -> (m: ParamSet)
        requires
            content@.len() <= 0x1000_0000_0000_0000,
        ensures
            m.wf(),
            m@ == create_attachment_params_of(filename@, content@, script_id as int),
    {
        let mut m = ParamSet::new();
        m.insert("action".to_owned(), "CreateScriptAttachment".to_owned());
        m.insert("script_id".to_owned(), u32_to_string(script_id));
        let payload = Api::attachment_file_param(filename, content);
        m.insert("file".to_owned(), encode_rfc3986(payload.as_str()));
        m
    }

    /// The unsigned parameters of a remove-attachment request.
    pub fn remove_script_attachment_params(&self, filename: &str, script_id: u32) -> (m: ParamSet)
        ensures
            m.wf(),
            m@ == remove_attachment_params_of(filename@, script_id as int),
    {
        let mut m = ParamSet::new();
        m.insert("action".to_owned(), "RemoveScriptAttachment".to_owned());
        m.insert("script_id".to_owned(), u32_to_string(script_id));
        m.insert("filename".to_owned(), filename.to_owned());
        m
    }

    /// Signs the parameter set in place for the given HTTP method and the
    /// given timestamp: inserts the four standard authentication fields
    /// and the percent-encoded timestamp, computes the signature over the
    /// set at that point, and inserts it percent-encoded under
    /// `signature`.  A malformed endpoint URL is reported before the set
    /// is touched.
    pub fn sign_api_call_at(&self, http_method: &str, map: &mut ParamSet, timestamp: &str) -> (r:
        Result<(), ApiError>)
        requires
            old(map).wf(),
        ensures
            final(map).wf(),
            match r {
                Ok(_) => url_well_formed(self.api_uri@) && final(map)@ == signed_params(
                    old(map)@,
                    self.api_key@,
                    self.api_secret@,
                    http_method@,
                    self.api_uri@,
                    timestamp@,
                ),
                Err(e) => e == ApiError::BadEndpoint && !url_well_formed(self.api_uri@) && final(map)@ == old(map)@,
            },
    {
        match parse_host_path(self.api_uri.as_str()) {
            None => Err(ApiError::BadEndpoint),
            Some((host, path)) => {
                map.insert("access_key_id".to_owned(), self.api_key.clone());
                map.insert("signature_method".to_owned(), "HmacSHA256".to_owned());
                map.insert("signature_version".to_owned(), "2".to_owned());
                map.insert("version".to_owned(), "2011-08-01".to_owned());
                map.insert("timestamp".to_owned(), encode_rfc3986(timestamp));
                let signature = create_signature(
                    self.api_secret.as_str(),
                    map,
                    http_method,
                    host.as_str(),
                    path.as_str(),
                );
                map.insert("signature".to_owned(), encode_rfc3986(signature.as_str()));
                Ok(())
            },
        }
    }

    /// Signs the parameter set with the current UTC time as the
    /// timestamp.  The clock decides the timestamp, so the contract
    /// promises a correctly signed set for some timestamp.
    pub fn sign_api_call(&self, http_method: &str, map: &mut ParamSet) -> (r: Result<
        (),
        ApiError,
    >)
        requires
            old(map).wf(),
        ensures
            final(map).wf(),
            match r {
                Ok(_) => url_well_formed(self.api_uri@) && exists|ts: Seq<char>|
                    final(map)@ == signed_params(
                        old(map)@,
                        self.api_key@,
                        self.api_secret@,
                        http_method@,
                        self.api_uri@,
                        ts,
                    ),
                Err(e) => e == ApiError::BadEndpoint && !url_well_formed(self.api_uri@) && final(map)@ == old(map)@,
            },
    {
        let ts = now_timestamp();
        let r = self.sign_api_call_at(http_method, map, ts.as_str());
        proof {
            if r is Ok {
                assert(map@ == signed_params(
                    old(map)@,
                    self.api_key@,
                    self.api_secret@,
                    http_method@,
                    self.api_uri@,
                    ts@,
                ));
            }
        }
        r
    }

    /// A signed list-scripts request.
    pub fn get_scripts_request(&self) -> (r: Result<ParamSet, ApiError>)
        ensures
            match r {
                Ok(m) => m.wf() && url_well_formed(self.api_uri@) && exists|ts: Seq<char>|
                    m@ == signed_params(
                        get_scripts_params_of(),
                        self.api_key@,
                        self.api_secret@,
                        "POST"@,
                        self.api_uri@,
                        ts,
                    ),
                Err(e) => e == ApiError::BadEndpoint && !url_well_formed(self.api_uri@),
            },
    {
        let mut m = self.get_scripts_params();
        match self.sign_api_call("POST", &mut m) {
            Ok(_) => Ok(m),
            Err(e) => Err(e),
        }
    }

    /// A signed list-computers request.
    pub fn get_all_hosts_request(&self) -> (r: Result<ParamSet, ApiError>)
        ensures
            match r {
                Ok(m) => m.wf() && url_well_formed(self.api_uri@) && exists|ts: Seq<char>|
                    m@ == signed_params(
                        get_computers_params_of(),
                        self.api_key@,
                        self.api_secret@,
                        "POST"@,
                        self.api_uri@,
                        ts,
                    ),
                Err(e) => e == ApiError::BadEndpoint && !url_well_formed(self.api_uri@),
            },
    {
        let mut m = self.get_computers_params();
        match self.sign_api_call("POST", &mut m) {
            Ok(_) => Ok(m),
            Err(e) => Err(e),
        }
    }

    /// A signed execute-script request against the script resolved by
    /// title prefix: a distinguished not-found outcome when no title
    /// matches, a configuration error when the endpoint URL is malformed,
    /// and otherwise the signed parameter set carrying the action, the
    /// host query and the resolved script's identifier.
    pub fn execute_script_request(
        &self,
        scripts: &Vec<Script>,
        host_query: &str,
        script_name: &str,
    ) -> (r: Result<ParamSet, ApiError>)
        ensures
            match r {
                Ok(m) => m.wf() && some_match(scripts@, script_name@) && url_well_formed(
                    self.api_uri@,
                ) && exists|i: int, ts: Seq<char>|
                    first_match_at(scripts@, script_name@, i) && m@ == #[trigger] signed_params(
                        execute_params_of(host_query@, scripts@[i].id as int),
                        self.api_key@,
                        self.api_secret@,
                        "POST"@,
                        self.api_uri@,
                        ts,
                    ),
                Err(e) => (e == ApiError::ScriptNotFound && !some_match(scripts@, script_name@)) || (
                e == ApiError::BadEndpoint && some_match(scripts@, script_name@)
                    && !url_well_formed(self.api_uri@)),
            },
    {
        match self.get_script(script_name, scripts) {
            None => Err(ApiError::ScriptNotFound),
            Some(s) => {
                let ghost i = choose|i: int|
                    #[trigger] first_match_at(scripts@, script_name@, i) && same_script(
                        s,
                        scripts@[i],
                    );
                let mut m = self.execute_script_params(host_query, s.id);
                match self.sign_api_call("POST", &mut m) {
                    Ok(_) => {
                        proof {
                            let ts = choose|ts: Seq<char>|
                                m@ == signed_params(
                                    execute_params_of(host_query@, s.id as int),
                                    self.api_key@,
                                    self.api_secret@,
                                    "POST"@,
                                    self.api_uri@,
                                    ts,
                                );
                            assert(first_match_at(scripts@, script_name@, i) && m@
                                == signed_params(
                                execute_params_of(host_query@, scripts@[i].id as int),
                                self.api_key@,
                                self.api_secret@,
                                "POST"@,
                                self.api_uri@,
                                ts,
                            ));
                        }
                        Ok(m)
                    },
                    Err(e) => Err(e),
                }
            },
        }
    }

    /// A signed create-attachment request against the script resolved by
    /// title prefix.  The caller supplies the attachment's filename and
    /// raw contents; reading them off disk is the caller's business.
    pub fn create_script_attachment_request(
        &self,
        scripts: &Vec<Script>,
        script_name: &str,
        filename: &str,
        content: &[u8],
    ) -> (r: Result<ParamSet, ApiError>)
        requires
            content@.len() <= 0x1000_0000_0000_0000,
        ensures
            match r {
                Ok(m) => m.wf() && some_match(scripts@, script_name@) && url_well_formed(
                    self.api_uri@,
                ) && exists|i: int, ts: Seq<char>|
                    first_match_at(scripts@, script_name@, i) && m@ == #[trigger] signed_params(
                        create_attachment_params_of(filename@, content@, scripts@[i].id as int),
                        self.api_key@,
                        self.api_secret@,
                        "POST"@,
                        self.api_uri@,
                        ts,
                    ),
                Err(e) => (e == ApiError::ScriptNotFound && !some_match(scripts@, script_name@)) || (
                e == ApiError::BadEndpoint && some_match(scripts@, script_name@)
                    && !url_well_formed(self.api_uri@)),
            },
    {
        match self.get_script(script_name, scripts) {
            None => Err(ApiError::ScriptNotFound),
            Some(s) => {
                let ghost i = choose|i: int|
                    #[trigger] first_match_at(scripts@, script_name@, i) && same_script(
                        s,
                        scripts@[i],
                    );
                let mut m = self.create_script_attachment_params(filename, content, s.id);
                match self.sign_api_call("POST", &mut m) {
                    Ok(_) => {
                        proof {
                            let ts = choose|ts: Seq<char>|
                                m@ == signed_params(
                                    create_attachment_params_of(filename@, content@, s.id as int),
                                    self.api_key@,
                                    self.api_secret@,
                                    "POST"@,
                                    self.api_uri@,
                                    ts,
                                );
                            assert(first_match_at(scripts@, script_name@, i) && m@
                                == signed_params(
                                create_attachment_params_of(
                                    filename@,
                                    content@,
                                    scripts@[i].id as int,
                                ),
                                self.api_key@,
                                self.api_secret@,
                                "POST"@,
                                self.api_uri@,
                                ts,
                            ));
                        }
                        Ok(m)
                    },
                    Err(e) => Err(e),
                }
            },
        }
    }

    /// A signed remove-attachment request against the script resolved by
    /// title prefix.
    pub fn remove_script_attachment_request(
        &self,
        scripts: &Vec<Script>,
        script_name: &str,
        filename: &str,
    ) -> (r: Result<ParamSet, ApiError>)
        ensures
            match r {
                Ok(m) => m.wf() && some_match(scripts@, script_name@) && url_well_formed(
                    self.api_uri@,
                ) && exists|i: int, ts: Seq<char>|
                    first_match_at(scripts@, script_name@, i) && m@ == #[trigger] signed_params(
                        remove_attachment_params_of(filename@, scripts@[i].id as int),
                        self.api_key@,
                        self.api_secret@,
                        "POST"@,
                        self.api_uri@,
                        ts,
                    ),
                Err(e) => (e == ApiError::ScriptNotFound && !some_match(scripts@, script_name@)) || (
                e == ApiError::BadEndpoint && some_match(scripts@, script_name@)
                    && !url_well_formed(self.api_uri@)),
            },
    {
        match self.get_script(script_name, scripts) {
            None => Err(ApiError::ScriptNotFound),
            Some(s) => {
                let ghost i = choose|i: int|
                    #[trigger] first_match_at(scripts@, script_name@, i) && same_script(
                        s,
                        scripts@[i],
                    );
                let mut m = self.remove_script_attachment_params(filename, s.id);
                match self.sign_api_call("POST", &mut m) {
                    Ok(_) => {
                        proof {
                            let ts = choose|ts: Seq<char>|
                                m@ == signed_params(
                                    remove_attachment_params_of(filename@, s.id as int),
                                    self.api_key@,
                                    self.api_secret@,
                                    "POST"@,
                                    self.api_uri@,
                                    ts,
                                );
                            assert(first_match_at(scripts@, script_name@, i) && m@
                                == signed_params(
                                remove_attachment_params_of(filename@, scripts@[i].id as int),
                                self.api_key@,
                                self.api_secret@,
                                "POST"@,
                                self.api_uri@,
                                ts,
                            ));
                        }
                        Ok(m)
                    },
                    Err(e) => Err(e),
                }
            },
        }
    }
}

} // verus!
