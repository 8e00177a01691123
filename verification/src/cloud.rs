//! Remote cloud-browser providers: the built-in presets, environment
//! overrides, request shapes and the session-stop path.

use vstd::prelude::*;
use crate::text::{chars_of, has_prefix, is_text, occurs_at_exec, push_char, push_str, starts_with, string_of};

verus! {

/// A remote cloud-browser provider: how to authenticate and where the
/// session lifecycle endpoints live.
pub struct Provider {
    pub name: String,
    pub base: String,
    pub auth_header: String,
    pub key_env: String,
    pub key: String,
    pub create_path: String,
    pub list_path: String,
    pub stop_method: String,
    /// `{id}` is replaced with the session id.
    pub stop_path: String,
    /// Candidate response keys that may hold the CDP/WebSocket URL.
    pub cdp_fields: Vec<String>,
    pub project_id: Option<String>,
}

/// The mathematical content of a provider.
pub struct ProviderView {
    pub name: Seq<char>,
    pub base: Seq<char>,
    pub auth_header: Seq<char>,
    pub key_env: Seq<char>,
    pub key: Seq<char>,
    pub create_path: Seq<char>,
    pub list_path: Seq<char>,
    pub stop_method: Seq<char>,
    pub stop_path: Seq<char>,
    pub cdp_fields: Seq<Seq<char>>,
    pub project_id: Option<Seq<char>>,
}

impl View for Provider {
    type V = ProviderView;

    open spec fn view(&self) -> ProviderView {
        ProviderView {
            name: self.name@,
            base: self.base@,
            auth_header: self.auth_header@,
            key_env: self.key_env@,
            key: self.key@,
            create_path: self.create_path@,
            list_path: self.list_path@,
            stop_method: self.stop_method@,
            stop_path: self.stop_path@,
            cdp_fields: self.cdp_fields@.map_values(|f: String| f@),
            project_id: match self.project_id {
                Some(p) => Some(p@),
                None => None,
            },
        }
    }
}

/// The configuration variables a custom provider is built from; empty
/// values count as unset.
pub struct CloudEnv {
    pub api: Option<String>,
    pub auth_header: Option<String>,
    pub create_path: Option<String>,
    pub list_path: Option<String>,
    pub stop_method: Option<String>,
    pub stop_path: Option<String>,
    pub cdp_field: Option<String>,
}

/// A configuration value, with an empty one read as unset.
pub open spec fn set_value(o: Option<String>) -> Option<Seq<char>> {
    match o {
        Some(s) => if s@.len() > 0 { Some(s@) } else { None },
        None => None,
    }
}

/// The configured value, or `d`.
pub open spec fn value_or(o: Option<String>, d: Seq<char>) -> Seq<char> {
    match set_value(o) {
        Some(v) => v,
        None => d,
    }
}

/// The cloud configuration is unusable.
#[derive(Debug, PartialEq, Eq)]
pub enum CloudError {
    /// A custom provider needs `BROWSER_CONTROL_CLOUD_API`.
    CustomNeedsApi,
    /// Neither the provider's key variable (named here) nor
    /// `BROWSER_CONTROL_CLOUD_API_KEY` is set.
    MissingKey(String),
    /// The stop method is not an HTTP method.
    BadMethod(String),
}

/// A provider whose fields are the given texts, with no key or project yet.
pub open spec fn preset_view(
    name: Seq<char>,
    base: Seq<char>,
    auth_header: Seq<char>,
    key_env: Seq<char>,
    create_path: Seq<char>,
    list_path: Seq<char>,
    stop_method: Seq<char>,
    stop_path: Seq<char>,
    cdp_fields: Seq<Seq<char>>,
) -> ProviderView {
    ProviderView {
        name,
        base,
        auth_header,
        key_env,
        key: Seq::empty(),
        create_path,
        list_path,
        stop_method,
        stop_path,
        cdp_fields,
        project_id: None,
    }
}

/// The provider a preset name selects, before environment overrides; a
/// name that is no preset is a custom provider configured from `env`.
pub open spec fn preset_spec(name: Seq<char>, env: CloudEnv) -> Option<ProviderView> {
    if name == "browser-use"@ || name == "browseruse"@ || name == "bu"@ {
        Some(preset_view("browser-use"@, "https://api.browser-use.com/api/v3"@, "X-Browser-Use-API-Key"@,
            "BROWSER_USE_API_KEY"@, "/browsers"@, "/profiles?pageSize=100&pageNumber=1"@, "PATCH"@,
            "/browsers/{id}"@, seq!["cdpUrl"@]))
    } else if name == "steel"@ {
        Some(preset_view("steel"@, "https://api.steel.dev/v1"@, "Steel-Api-Key"@, "STEEL_API_KEY"@,
            "/sessions"@, "/sessions"@, "POST"@, "/sessions/{id}/release"@,
            seq!["websocketUrl"@, "connectUrl"@, "cdpUrl"@]))
    } else if name == "hyperbrowser"@ {
        Some(preset_view("hyperbrowser"@, "https://api.hyperbrowser.ai"@, "x-api-key"@,
            "HYPERBROWSER_API_KEY"@, "/api/session"@, "/api/sessions?status=active"@, "PUT"@,
            "/api/session/{id}/stop"@, seq!["wsEndpoint"@]))
    } else if name == "browserbase"@ {
        Some(preset_view("browserbase"@, "https://api.browserbase.com/v1"@, "X-BB-API-Key"@,
            "BROWSERBASE_API_KEY"@, "/sessions"@, "/sessions"@, "POST"@, "/sessions/{id}"@,
            seq!["connectUrl"@]))
    } else {
        match set_value(env.api) {
            None => None,
            Some(api) => Some(preset_view(name, api, value_or(env.auth_header, "Authorization"@),
                "BROWSER_CONTROL_CLOUD_API_KEY"@, value_or(env.create_path, "/sessions"@),
                value_or(env.list_path, "/sessions"@), value_or(env.stop_method, "DELETE"@),
                value_or(env.stop_path, "/sessions/{id}"@),
                match set_value(env.cdp_field) {
                    Some(f) => seq![f],
                    None => seq!["cdpUrl"@, "wsEndpoint"@, "websocketUrl"@, "connectUrl"@],
                })),
        }
    }
}

fn copy_string(s: &String) -> (r: String)
    ensures
        r@ == s@,
{
    string_of(chars_of(s.as_str()).as_slice())
}

/// The configured value, with an empty one read as unset.
fn set_value_exec(o: &Option<String>) -> (r: Option<String>)
    ensures
        match r {
            Some(s) => set_value(*o) == Some(s@),
            None => set_value(*o) is None,
        },
{
    match o {
        Some(s) => {
            let c = chars_of(s.as_str());
            if c.len() > 0 {
                Some(string_of(c.as_slice()))
            } else {
                None
            }
        },
        None => None,
    }
}

fn value_or_exec(o: &Option<String>, d: &str) -> (r: String)
    ensures
        r@ == value_or(*o, d@),
{
    match set_value_exec(o) {
        Some(v) => v,
        None => String::from_str(d),
    }
}

fn strings(xs: &[&str]) -> (r: Vec<String>)
    ensures
        r@.len() == xs@.len(),
        forall|i: int| 0 <= i < xs@.len() ==> #[trigger] r@[i]@ == xs@[i]@,
{
    let mut v: Vec<String> = Vec::new();
    let mut i: usize = 0;
    while i < xs.len()
        invariant
            i <= xs@.len(),
            v@.len() == i,
            forall|j: int| 0 <= j < i ==> #[trigger] v@[j]@ == xs@[j]@,
        decreases xs@.len() - i,
    {
        v.push(String::from_str(xs[i]));
        i = i + 1;
    }
    v
}

fn mk(
    name: &str,
    base: &str,
    auth_header: &str,
    key_env: &str,
    create_path: &str,
    list_path: &str,
    stop_method: &str,
    stop_path: &str,
    cdp_fields: &[&str],
) -> (r: Provider)
    ensures
        r@ == preset_view(name@, base@, auth_header@, key_env@, create_path@, list_path@,
            stop_method@, stop_path@, cdp_fields@.map_values(|f: &str| f@)),
{
    let fields = strings(cdp_fields);
    let r = Provider {
        name: String::from_str(name),
        base: String::from_str(base),
        auth_header: String::from_str(auth_header),
        key_env: String::from_str(key_env),
        key: String::new(),
        create_path: String::from_str(create_path),
        list_path: String::from_str(list_path),
        stop_method: String::from_str(stop_method),
        stop_path: String::from_str(stop_path),
        cdp_fields: fields,
        project_id: None,
    };
    assert(r@.cdp_fields =~= cdp_fields@.map_values(|f: &str| f@));
    r
}

/// Builds a provider from a preset name, before environment overrides.
pub fn preset(name: &str, env: &CloudEnv) -> (r: Result<Provider, CloudError>)
    ensures
        match r {
            Ok(p) => preset_spec(name@, *env) == Some(p@),
            Err(e) => preset_spec(name@, *env) is None && e == CloudError::CustomNeedsApi,
        },
{
    let nc = chars_of(name);
    let n = nc.as_slice();
    if is_text(n, "browser-use") || is_text(n, "browseruse") || is_text(n, "bu") {
        let f: [&str; 1] = ["cdpUrl"];
        let p = mk("browser-use", "https://api.browser-use.com/api/v3", "X-Browser-Use-API-Key",
            "BROWSER_USE_API_KEY", "/browsers", "/profiles?pageSize=100&pageNumber=1", "PATCH",
            "/browsers/{id}", f.as_slice());
        assert(f@.map_values(|x: &str| x@) =~= seq!["cdpUrl"@]);
        Ok(p)
    } else if is_text(n, "steel") {
        let f: [&str; 3] = ["websocketUrl", "connectUrl", "cdpUrl"];
        let p = mk("steel", "https://api.steel.dev/v1", "Steel-Api-Key", "STEEL_API_KEY",
            "/sessions", "/sessions", "POST", "/sessions/{id}/release", f.as_slice());
        assert(f@.map_values(|x: &str| x@) =~= seq!["websocketUrl"@, "connectUrl"@, "cdpUrl"@]);
        Ok(p)
    } else if is_text(n, "hyperbrowser") {
        let f: [&str; 1] = ["wsEndpoint"];
        let p = mk("hyperbrowser", "https://api.hyperbrowser.ai", "x-api-key",
            "HYPERBROWSER_API_KEY", "/api/session", "/api/sessions?status=active", "PUT",
            "/api/session/{id}/stop", f.as_slice());
        assert(f@.map_values(|x: &str| x@) =~= seq!["wsEndpoint"@]);
        Ok(p)
    } else if is_text(n, "browserbase") {
        let f: [&str; 1] = ["connectUrl"];
        let p = mk("browserbase", "https://api.browserbase.com/v1", "X-BB-API-Key",
            "BROWSERBASE_API_KEY", "/sessions", "/sessions", "POST", "/sessions/{id}",
            f.as_slice());
        assert(f@.map_values(|x: &str| x@) =~= seq!["connectUrl"@]);
        Ok(p)
    } else {
        let base = match set_value_exec(&env.api) {
            Some(b) => b,
            None => return Err(CloudError::CustomNeedsApi),
        };
        let fields = match set_value_exec(&env.cdp_field) {
            Some(f) => {
                let mut v: Vec<String> = Vec::new();
                v.push(f);
                v
            },
            None => {
                let f: [&str; 4] = ["cdpUrl", "wsEndpoint", "websocketUrl", "connectUrl"];
                strings(f.as_slice())
            },
        };
        let p = Provider {
            name: string_of(n),
            base,
            auth_header: value_or_exec(&env.auth_header, "Authorization"),
            key_env: String::from_str("BROWSER_CONTROL_CLOUD_API_KEY"),
            key: String::new(),
            create_path: value_or_exec(&env.create_path, "/sessions"),
            list_path: value_or_exec(&env.list_path, "/sessions"),
            stop_method: value_or_exec(&env.stop_method, "DELETE"),
            stop_path: value_or_exec(&env.stop_path, "/sessions/{id}"),
            cdp_fields: fields,
            project_id: None,
        };
        assert(p@.cdp_fields =~= match set_value(env.cdp_field) {
            Some(f) => seq![f],
            None => seq!["cdpUrl"@, "wsEndpoint"@, "websocketUrl"@, "connectUrl"@],
        });
        Ok(p)
    }
}

/// The preset named by the provider variable, `browser-use` when unset.
pub fn select_provider(provider: &Option<String>, env: &CloudEnv) -> (r: Result<Provider, CloudError>)
    ensures
        match r {
            Ok(p) => preset_spec(value_or(*provider, "browser-use"@), *env) == Some(p@),
            Err(e) => preset_spec(value_or(*provider, "browser-use"@), *env) is None && e == CloudError::CustomNeedsApi,
        },
{
    let name = value_or_exec(provider, "browser-use");
    preset(name.as_str(), env)
}

/// The provider after the overrides: base URL and auth header when set, the
/// API key from the generic variable or else the provider's own variable
/// (`own_key`), and the project id from the generic or Browserbase variable.
pub fn finish_provider(
    p: Provider,
    env: &CloudEnv,
    cloud_key: &Option<String>,
    own_key: &Option<String>,
    project: &Option<String>,
    bb_project: &Option<String>,
) -> (r: Result<Provider, CloudError>)
    ensures
        match r {
            Ok(q) => {
                &&& set_value(*cloud_key) is Some || set_value(*own_key) is Some
                &&& q@.name == p@.name
                &&& q@.base == value_or(env.api, p@.base)
                &&& q@.auth_header == value_or(env.auth_header, p@.auth_header)
                &&& q@.key_env == p@.key_env
                &&& q@.key == (match set_value(*cloud_key) {
                    Some(k) => k,
                    None => set_value(*own_key)->0,
                })
                &&& q@.create_path == p@.create_path
                &&& q@.list_path == p@.list_path
                &&& q@.stop_method == p@.stop_method
                &&& q@.stop_path == p@.stop_path
                &&& q@.cdp_fields == p@.cdp_fields
                &&& q@.project_id == (match set_value(*project) {
                    Some(v) => Some(v),
                    None => set_value(*bb_project),
                })
            },
            Err(e) => set_value(*cloud_key) is None && set_value(*own_key) is None
                && (e matches CloudError::MissingKey(k) && k@ == p@.key_env),
        },
{
    let mut q = p;
    match set_value_exec(&env.api) {
        Some(v) => q.base = v,
        None => {},
    }
    match set_value_exec(&env.auth_header) {
        Some(v) => q.auth_header = v,
        None => {},
    }
    let key = match set_value_exec(cloud_key) {
        Some(k) => k,
        None => match set_value_exec(own_key) {
            Some(k) => k,
            None => return Err(CloudError::MissingKey(copy_string(&q.key_env))),
        },
    };
    q.key = key;
    q.project_id = match set_value_exec(project) {
        Some(v) => Some(v),
        None => set_value_exec(bb_project),
    };
    Ok(q)
}

// ---------------------------------------------------------------------------
// Requests
// ---------------------------------------------------------------------------

/// The HTTP methods the provider endpoints use.
#[derive(Debug, PartialEq, Eq, Structural)]
pub enum HttpMethod {
    Get,
    Patch,
    Post,
    Put,
    Delete,
}

/// The HTTP method a name stands for.
pub fn http_method(name: &str) -> (r: Result<HttpMethod, CloudError>)
    ensures
        match r {
            Ok(m) => (name@ == "GET"@ && m == HttpMethod::Get) || (name@ == "PATCH"@ && m == HttpMethod::Patch)
                || (name@ == "POST"@ && m == HttpMethod::Post) || (name@ == "PUT"@ && m == HttpMethod::Put)
                || (name@ == "DELETE"@ && m == HttpMethod::Delete),
            Err(e) => name@ != "GET"@ && name@ != "PATCH"@ && name@ != "POST"@ && name@ != "PUT"@
                && name@ != "DELETE"@ && (e matches CloudError::BadMethod(n) && n@ == name@),
        },
{
    let cs = chars_of(name);
    let n = cs.as_slice();
    if is_text(n, "GET") {
        Ok(HttpMethod::Get)
    } else if is_text(n, "PATCH") {
        Ok(HttpMethod::Patch)
    } else if is_text(n, "POST") {
        Ok(HttpMethod::Post)
    } else if is_text(n, "PUT") {
        Ok(HttpMethod::Put)
    } else if is_text(n, "DELETE") {
        Ok(HttpMethod::Delete)
    } else {
        Err(CloudError::BadMethod(string_of(n)))
    }
}

/// The body of a session-create request when none is given.
#[derive(Debug, PartialEq, Eq, Structural)]
pub enum CreateBody {
    /// `{"timeout": 240}`.
    TimeoutSeconds240,
    /// `{"timeoutMinutes": 5}`.
    TimeoutMinutes5,
    /// `{}`.
    Empty,
}

/// The default create body for the provider named `name`.
pub fn default_create_body(name: &str) -> (r: CreateBody)
    ensures
        r == (if name@ == "browser-use"@ {
            CreateBody::TimeoutSeconds240
        } else if name@ == "hyperbrowser"@ {
            CreateBody::TimeoutMinutes5
        } else {
            CreateBody::Empty
        }),
{
    let cs = chars_of(name);
    if is_text(cs.as_slice(), "browser-use") {
        CreateBody::TimeoutSeconds240
    } else if is_text(cs.as_slice(), "hyperbrowser") {
        CreateBody::TimeoutMinutes5
    } else {
        CreateBody::Empty
    }
}

/// The body of a session-stop request.
#[derive(Debug, PartialEq, Eq)]
pub enum StopBody {
    /// `{"action": "stop"}`.
    Stop,
    /// `{"status": "REQUEST_RELEASE"}`, with `projectId` when known.
    Release(Option<String>),
}

/// The stop body for the provider named `name` with project `project`.
pub fn stop_body(name: &str, project: &Option<String>) -> (r: Option<StopBody>)
    ensures
        if name@ == "browser-use"@ {
            r == Some(StopBody::Stop)
        } else if name@ == "browserbase"@ {
            r matches Some(StopBody::Release(p)) && match (p, *project) {
                (Some(a), Some(b)) => a@ == b@,
                (None, None) => true,
                _ => false,
            }
        } else {
            r is None
        },
{
    let cs = chars_of(name);
    if is_text(cs.as_slice(), "browser-use") {
        Some(StopBody::Stop)
    } else if is_text(cs.as_slice(), "browserbase") {
        Some(StopBody::Release(match project {
            Some(p) => Some(copy_string(p)),
            None => None,
        }))
    } else {
        None
    }
}

/// The first value present, in key order.
pub fn first_present(values: &[Option<String>]) -> (r: Option<String>)
    ensures
        match r {
            Some(v) => exists|i: int| 0 <= i < values@.len() && ((#[trigger] values@[i]) matches Some(s)
                && s@ == v@) && forall|j: int| 0 <= j < i ==> values@[j] is None,
            None => forall|i: int| 0 <= i < values@.len() ==> values@[i] is None,
        },
{
    let mut i: usize = 0;
    while i < values.len()
        invariant
            i <= values@.len(),
            forall|j: int| 0 <= j < i ==> values@[j] is None,
        decreases values@.len() - i,
    {
        match &values[i] {
            Some(s) => {
                let r = copy_string(s);
                assert(values@[i as int] matches Some(x) && x@ == r@);
                return Some(r);
            },
            None => {},
        }
        i = i + 1;
    }
    None
}

/// `s` with every occurrence of `pat`, scanned left to right without
/// overlap, replaced by `rep`.
pub open spec fn replace_spec(s: Seq<char>, pat: Seq<char>, rep: Seq<char>) -> Seq<char>
    decreases s.len(),
{
    if s.len() == 0 || pat.len() == 0 {
        s
    } else if has_prefix(s, pat) {
        rep + replace_spec(s.skip(pat.len() as int), pat, rep)
    } else {
        seq![s[0]] + replace_spec(s.drop_first(), pat, rep)
    }
}

/// The stop path for session `id`: `{id}` replaced by it.
pub fn stop_path_for(stop_path: &str, id: &str) -> (r: String)
    ensures
        r@ == replace_spec(stop_path@, "{id}"@, id@),
{
    let cs = chars_of(stop_path);
    let pat = chars_of("{id}");
    proof {
        reveal_strlit("{id}");
    }
    let mut out = String::new();
    let mut i: usize = 0;
    assert(cs@.skip(0) =~= cs@);
    while i < cs.len()
        invariant
            i <= cs@.len(),
            pat@ == "{id}"@,
            pat@.len() == 4,
            out@ + replace_spec(cs@.skip(i as int), pat@, id@) == replace_spec(stop_path@, "{id}"@, id@),
        decreases cs@.len() - i,
    {
        let ghost rest = cs@.skip(i as int);
        let ghost before = out@;
        if occurs_at_exec(cs.as_slice(), pat.as_slice(), i) {
            push_str(&mut out, id);
            proof {
                assert(rest.take(4) =~= cs@.subrange(i as int, i + 4));
                assert(has_prefix(rest, pat@));
                assert(rest.skip(4) =~= cs@.skip(i + 4));
                assert(out@ + replace_spec(cs@.skip(i + 4), pat@, id@) =~= before + (id@ + replace_spec(rest.skip(4), pat@, id@)));
            }
            i = i + 4;
        } else {
            push_char(&mut out, cs[i]);
            proof {
                assert(!has_prefix(rest, pat@)) by {
                    if has_prefix(rest, pat@) {
                        assert(cs@.subrange(i as int, i + 4) =~= rest.take(4));
                    }
                }
                assert(rest.drop_first() =~= cs@.skip(i + 1));
                assert(rest[0] == cs@[i as int]);
                assert(out@ + replace_spec(cs@.skip(i + 1), pat@, id@) =~= before + (seq![rest[0]] + replace_spec(rest.drop_first(), pat@, id@)));
            }
            i = i + 1;
        }
    }
    proof {
        assert(cs@.skip(i as int).len() == 0);
        assert(out@ + Seq::<char>::empty() =~= out@);
    }
    out
}

/// A CDP endpoint that is already a WebSocket URL needs no resolution.
pub fn is_websocket_url(u: &str) -> (r: bool)
    ensures
        r == has_prefix(u@, "ws"@),
{
    let cs = chars_of(u);
    let p = chars_of("ws");
    starts_with(cs.as_slice(), p.as_slice())
}

} // verus!
