//! The session state and the session-aware half of every operation: building
//! requests, committing login identifiers, and recording audited calls.

use vstd::prelude::*;
use vstd::string::{StringExecFns, StrSliceExecFns};
use crate::error::Error;
use crate::json::{JsonValue, JsonModel, json_get, lookup_members, obj_model};
use crate::response::{Response, response_json_model};
use crate::text::{str_eq, dec_digits, u64_to_string};

verus! {

/// A Client holds the connection target, the configuration flags, the
/// identifiers of the active session, and the audit log accumulator.
///
/// The sid is non-empty exactly while the client considers itself logged
/// in.  A second login without an intervening logout overwrites the
/// identifiers, mirroring the server's own session replacement.
pub struct Client {
    pub server: String,
    pub port: u16,
    pub certificate: String,
    pub accept_invalid_certs: bool,
    pub proxy: String,
    pub connect_timeout: u64,
    pub session_timeout: u64,
    pub domain: String,
    pub sid: String,
    pub uid: String,
    pub api_server_version: String,
    pub wait_for_task: bool,
    pub read_only: bool,
    pub continue_last_session: bool,
    pub log_file: String,
    pub all_calls: Vec<JsonValue>,
    pub show_password: bool,
}

/// The pairwise view of a header list.
pub open spec fn pairs_model(hs: Seq<(String, String)>) -> Seq<(Seq<char>, Seq<char>)> {
    Seq::new(hs.len(), |i: int| (hs[i].0@, hs[i].1@))
}

/// The target of one command: `https://{server}:{port}/web_api/{command}`.
pub open spec fn url_model(server: Seq<char>, port: u16, command: Seq<char>) -> Seq<char> {
    "https://"@ + server + ":"@ + dec_digits(port as u64) + "/web_api/"@ + command
}

/// A character a header value may hold: horizontal tab or anything at or
/// above the space that is not delete.
pub open spec fn valid_header_char(c: char) -> bool {
    c == '\t' || (c as u32 >= 32 && c as u32 != 127)
}

/// Whether every character of a value may stand in a header.
pub open spec fn valid_header_value(s: Seq<char>) -> bool {
    forall|i: int| 0 <= i < s.len() ==> valid_header_char(s[i])
}

/// The headers of every request: accept anything, JSON content, the fixed
/// client identifier, and the session header exactly while a session is
/// active.
pub open spec fn request_headers_model(sid: Seq<char>) -> Seq<(Seq<char>, Seq<char>)> {
    if sid.len() == 0 {
        seq![("accept"@, "*/*"@), ("content-type"@, "application/json"@), ("user-agent"@, "cp_api"@)]
    } else {
        seq![
            ("accept"@, "*/*"@),
            ("content-type"@, "application/json"@),
            ("user-agent"@, "cp_api"@),
            ("x-chkp-sid"@, sid),
        ]
    }
}

/// The body of a login command.
pub open spec fn login_payload_model(
    user: Seq<char>,
    pass: Seq<char>,
    domain: Seq<char>,
    timeout: u64,
) -> JsonModel {
    JsonModel::Obj(
        seq![
            ("user"@, JsonModel::Str(user)),
            ("password"@, JsonModel::Str(pass)),
            ("domain"@, JsonModel::Str(domain)),
            ("session-timeout"@, JsonModel::Num(timeout)),
        ],
    )
}

/// The string under a key of a reply body, when present and a string.
pub open spec fn str_field(data: JsonModel, key: Seq<char>) -> Option<Seq<char>> {
    match json_get(data, key) {
        Some(JsonModel::Str(s)) => Some(s),
        _ => None,
    }
}

/// Whether `f` names the first of the three login identifiers missing from
/// a login reply body, in the order they are checked: sid, then uid, then
/// api-server-version.
pub open spec fn missing_login_field(data: JsonModel, f: Seq<char>) -> bool {
    if str_field(data, "sid"@) is None {
        f == "sid"@
    } else if str_field(data, "uid"@) is None {
        f == "uid"@
    } else if str_field(data, "api-server-version"@) is None {
        f == "api-server-version"@
    } else {
        false
    }
}

/// The state change of a committed login: the three identifiers take the
/// values of the reply body's fields, and nothing else changes.
pub open spec fn login_commit(pre: Client, login: Response, post: Client) -> bool {
    &&& str_field(login.data@, "sid"@) matches Some(s) && post.sid@ == s
    &&& str_field(login.data@, "uid"@) matches Some(u) && post.uid@ == u
    &&& str_field(login.data@, "api-server-version"@) matches Some(v) && post.api_server_version@
        == v
    &&& post == (Client {
        sid: post.sid,
        uid: post.uid,
        api_server_version: post.api_server_version,
        ..pre
    })
}

/// Law: after a successful login whose reply carried non-empty identifiers,
/// all three identifiers of the session state are non-empty.  (A server may
/// in principle answer a successful login with an empty identifier; such a
/// reply is committed as it stands, which is why the law asks for non-empty
/// fields.)
pub proof fn lemma_login_identifiers_nonempty(pre: Client, login: Response, post: Client)
    requires
        login.succeeded(),
        login_commit(pre, login, post),
        str_field(login.data@, "sid"@) matches Some(s) && s.len() > 0,
        str_field(login.data@, "uid"@) matches Some(u) && u.len() > 0,
        str_field(login.data@, "api-server-version"@) matches Some(v) && v.len() > 0,
    ensures
        post.sid@.len() > 0,
        post.uid@.len() > 0,
        post.api_server_version@.len() > 0,
{
}

/// A member list with the value of the first `password` member replaced by
/// the fixed placeholder.
pub open spec fn redact_members(ms: Seq<(Seq<char>, JsonModel)>) -> Seq<(Seq<char>, JsonModel)>
    decreases ms.len(),
{
    if ms.len() == 0 {
        Seq::empty()
    } else if ms[0].0 == "password"@ {
        seq![(ms[0].0, JsonModel::Str("*****"@))] + ms.drop_first()
    } else {
        seq![ms[0]] + redact_members(ms.drop_first())
    }
}

/// What redaction does when the first `password` member stands at `k`: that
/// member's value becomes the placeholder and every other member is kept.
pub proof fn lemma_redact_at(mm: Seq<(Seq<char>, JsonModel)>, k: int)
    requires
        0 <= k < mm.len(),
        mm[k].0 == "password"@,
        forall|j: int| 0 <= j < k ==> mm[j].0 != "password"@,
    ensures
        redact_members(mm).len() == mm.len(),
        forall|l: int|
            0 <= l < mm.len() ==> #[trigger] redact_members(mm)[l] == if l == k {
                (mm[k].0, JsonModel::Str("*****"@))
            } else {
                mm[l]
            },
    decreases k,
{
    if k == 0 {
        assert(redact_members(mm) =~= seq![(mm[0].0, JsonModel::Str("*****"@))] + mm.drop_first());
    } else {
        assert(mm[0].0 != "password"@);
        assert forall|j: int| 0 <= j < k - 1 implies mm.drop_first()[j].0 != "password"@ by {
            assert(mm.drop_first()[j] == mm[j + 1]);
        }
        assert(mm.drop_first()[k - 1] == mm[k]);
        lemma_redact_at(mm.drop_first(), k - 1);
        assert forall|l: int|
            0 <= l < mm.len() implies #[trigger] redact_members(mm)[l] == if l == k {
            (mm[k].0, JsonModel::Str("*****"@))
        } else {
            mm[l]
        } by {
            if l > 0 {
                assert(redact_members(mm)[l] == redact_members(mm.drop_first())[l - 1]);
                assert(mm.drop_first()[l - 1] == mm[l]);
            }
        }
    }
}

/// The payload as it is recorded in an audit entry: the password of a login
/// command is replaced by the placeholder unless the client was asked to
/// show it.
pub open spec fn recorded_payload(
    command: Seq<char>,
    show_password: bool,
    payload: JsonModel,
) -> JsonModel {
    if command == "login"@ && !show_password {
        match payload {
            JsonModel::Obj(ms) => JsonModel::Obj(redact_members(ms)),
            _ => payload,
        }
    } else {
        payload
    }
}

/// One audit entry: the request (headers, recorded payload, url) and the
/// Response it produced.
pub open spec fn audit_entry_model(
    hs: Seq<(String, String)>,
    payload: JsonModel,
    url: Seq<char>,
    resp: JsonModel,
) -> JsonModel {
    JsonModel::Obj(
        seq![
            (
                "Request"@,
                JsonModel::Obj(
                    seq![
                        ("headers"@, JsonModel::Obj(crate::response::headers_obj_model(hs))),
                        ("payload"@, payload),
                        ("url"@, JsonModel::Str(url)),
                    ],
                ),
            ),
            ("Response"@, resp),
        ],
    )
}

/// Whether recording a call must fail: the redaction of a login payload
/// without a password field would silently drop the redaction.
pub open spec fn redaction_impossible(command: Seq<char>, show_password: bool, payload: JsonModel) -> bool {
    command == "login"@ && !show_password && json_get(payload, "password"@) is None
}

/// Redaction replaces a present password by the placeholder.
pub proof fn lemma_redacted_lookup(ms: Seq<(Seq<char>, JsonModel)>)
    requires
        lookup_members(ms, "password"@) is Some,
    ensures
        lookup_members(redact_members(ms), "password"@) == Some(JsonModel::Str("*****"@)),
    decreases ms.len(),
{
    if ms[0].0 == "password"@ {
        let rs = seq![(ms[0].0, JsonModel::Str("*****"@))] + ms.drop_first();
        assert(redact_members(ms) == rs);
        assert(rs[0] == (ms[0].0, JsonModel::Str("*****"@)));
        assert(lookup_members(rs, "password"@) == Some(JsonModel::Str("*****"@)));
    } else {
        assert(lookup_members(ms, "password"@) == lookup_members(ms.drop_first(), "password"@));
        lemma_redacted_lookup(ms.drop_first());
        let rs = seq![ms[0]] + redact_members(ms.drop_first());
        assert(redact_members(ms) == rs);
        assert(rs[0] == ms[0]);
        assert(rs.drop_first() =~= redact_members(ms.drop_first()));
        assert(lookup_members(rs, "password"@) == lookup_members(rs.drop_first(), "password"@));
    }
}

/// Law: the payload recorded for a login call holds the fixed placeholder
/// under its password member while the password is not shown, and the
/// payload unchanged while it is.
pub proof fn lemma_password_redaction(payload: JsonModel, show: bool)
    requires
        json_get(payload, "password"@) is Some,
    ensures
        !show ==> json_get(recorded_payload("login"@, show, payload), "password"@) == Some(
            JsonModel::Str("*****"@),
        ),
        show ==> recorded_payload("login"@, show, payload) == payload,
{
    if !show {
        match payload {
            JsonModel::Obj(ms) => {
                lemma_redacted_lookup(ms);
            },
            _ => {},
        }
    }
}

/// The position of the first password member of a payload object.
fn find_password(members: &Vec<(String, JsonValue)>) -> (r: Option<usize>)
    ensures
        match r {
            Some(k) => k < members@.len() && members@[k as int].0@ == "password"@ && forall|j: int|
                0 <= j < k ==> members@[j].0@ != "password"@,
            None => forall|j: int| 0 <= j < members@.len() ==> members@[j].0@ != "password"@,
        },
{
    let n = members.len();
    let mut i: usize = 0;
    while i < n
        invariant
            n == members@.len(),
            0 <= i <= n,
            forall|j: int| 0 <= j < i ==> members@[j].0@ != "password"@,
        decreases n - i,
    {
        if str_eq(members[i].0.as_str(), "password") {
            return Some(i);
        }
        i = i + 1;
    }
    None
}

impl Client {
    /// Create a new Client to make API calls.
    pub fn new(server: &str, port: u16) -> (r: Client)
        ensures
            r.server@ == server@,
            r.port == port,
            r.certificate@ == Seq::<char>::empty(),
            r.accept_invalid_certs == false,
            r.proxy@ == Seq::<char>::empty(),
            r.connect_timeout == 30,
            r.session_timeout == 600,
            r.domain@ == Seq::<char>::empty(),
            r.sid@ == Seq::<char>::empty(),
            r.uid@ == Seq::<char>::empty(),
            r.api_server_version@ == Seq::<char>::empty(),
            r.wait_for_task == true,
            r.read_only == false,
            r.continue_last_session == false,
            r.log_file@ == Seq::<char>::empty(),
            r.all_calls@ == Seq::<JsonValue>::empty(),
            r.show_password == false,
    {
        Client {
            server: String::from_str(server),
            port,
            certificate: String::new(),
            accept_invalid_certs: false,
            proxy: String::new(),
            connect_timeout: 30,
            session_timeout: 600,
            domain: String::new(),
            sid: String::new(),
            uid: String::new(),
            api_server_version: String::new(),
            wait_for_task: true,
            read_only: false,
            continue_last_session: false,
            log_file: String::new(),
            all_calls: Vec::new(),
            show_password: false,
        }
    }

    /// Set a binary DER encoded certificate path.  If a certificate is set,
    /// accept_invalid_certs is ignored.
    pub fn certificate(&mut self, s: &str)
        ensures
            final(self).certificate@ == s@,
            *final(self) == (Client { certificate: final(self).certificate, ..*old(self) }),
    {
        self.certificate = String::from_str(s);
    }

    /// Set the certificate validation.  The default is false: do not accept
    /// invalid certificates.
    pub fn accept_invalid_certs(&mut self, b: bool)
        ensures
            *final(self) == (Client { accept_invalid_certs: b, ..*old(self) }),
    {
        self.accept_invalid_certs = b;
    }

    /// Set the proxy URL for all traffic.
    pub fn proxy(&mut self, s: &str)
        ensures
            final(self).proxy@ == s@,
            *final(self) == (Client { proxy: final(self).proxy, ..*old(self) }),
    {
        self.proxy = String::from_str(s);
    }

    /// Set the connection timeout in seconds.  Default is 30 seconds.
    pub fn connect_timeout(&mut self, t: u64)
        ensures
            *final(self) == (Client { connect_timeout: t, ..*old(self) }),
    {
        self.connect_timeout = t;
    }

    /// Set the login session-timeout in seconds.  Default is 600 seconds.
    pub fn session_timeout(&mut self, t: u64)
        ensures
            *final(self) == (Client { session_timeout: t, ..*old(self) }),
    {
        self.session_timeout = t;
    }

    /// Set the administrative domain to login to.
    pub fn domain(&mut self, s: &str)
        ensures
            final(self).domain@ == s@,
            *final(self) == (Client { domain: final(self).domain, ..*old(self) }),
    {
        self.domain = String::from_str(s);
    }

    /// Whether to wait for a task to complete.  The default is to wait.
    pub fn wait_for_task(&mut self, b: bool)
        ensures
            *final(self) == (Client { wait_for_task: b, ..*old(self) }),
    {
        self.wait_for_task = b;
    }

    /// Request a read-only session at the next login.
    pub fn read_only(&mut self, b: bool)
        ensures
            *final(self) == (Client { read_only: b, ..*old(self) }),
    {
        self.read_only = b;
    }

    /// Continue the last session at the next login instead of starting a
    /// fresh one.
    pub fn continue_last_session(&mut self, b: bool)
        ensures
            *final(self) == (Client { continue_last_session: b, ..*old(self) }),
    {
        self.continue_last_session = b;
    }

    /// Set the file that the audited calls are saved to.  An empty path
    /// disables auditing.
    pub fn log_file(&mut self, s: &str)
        ensures
            final(self).log_file@ == s@,
            *final(self) == (Client { log_file: final(self).log_file, ..*old(self) }),
    {
        self.log_file = String::from_str(s);
    }

    /// Show the login password as clear text in the audit log.  Must be set
    /// before logging in, or the password is obfuscated.
    pub fn show_password(&mut self, b: bool)
        ensures
            *final(self) == (Client { show_password: b, ..*old(self) }),
    {
        self.show_password = b;
    }

    /// Get the sid after logging in.
    pub fn sid(&self) -> (r: &str)
        ensures
            r@ == self.sid@,
    {
        self.sid.as_str()
    }

    /// Get the uid after logging in.
    pub fn uid(&self) -> (r: &str)
        ensures
            r@ == self.uid@,
    {
        self.uid.as_str()
    }

    /// Get the api-server-version after logging in.
    pub fn api_server_version(&self) -> (r: &str)
        ensures
            r@ == self.api_server_version@,
    {
        self.api_server_version.as_str()
    }

    /// The recorded calls that a flush of the audit log would persist.
    pub fn logged_calls(&self) -> (r: &Vec<JsonValue>)
        ensures
            r == &self.all_calls,
    {
        &self.all_calls
    }

    /// The URL that a command is sent to.
    pub fn build_url(&self, command: &str) -> (u: String)
        ensures
            u@ == url_model(self.server@, self.port, command@),
    {
        let mut u = String::from_str("https://");
        u.append(self.server.as_str());
        u.append(":");
        let p = u64_to_string(self.port as u64);
        u.append(p.as_str());
        u.append("/web_api/");
        u.append(command);
        assert(u@ =~= url_model(self.server@, self.port, command@));
        u
    }

    /// The headers of one request.  Fails exactly when the active session
    /// identifier holds a character that cannot stand in a header value.
    pub fn request_headers(&self) -> (r: Result<Vec<(String, String)>, Error>)
        ensures
            match r {
                Ok(hs) => valid_header_value(self.sid@) && pairs_model(hs@)
                    == request_headers_model(self.sid@),
                Err(e) => !valid_header_value(self.sid@) && e matches Error::HeaderValue(_),
            },
    {
        let n = self.sid.as_str().unicode_len();
        let mut i: usize = 0;
        while i < n
            invariant
                n == self.sid@.len(),
                0 <= i <= n,
                forall|j: int| 0 <= j < i ==> valid_header_char(self.sid@[j]),
            decreases n - i,
        {
            let c = self.sid.as_str().get_char(i);
            let v: u32 = c as u32;
            if !(c == '\t' || (v >= 32 && v != 127)) {
                assert(!valid_header_char(self.sid@[i as int]));
                return Err(Error::HeaderValue(self.sid.clone()));
            }
            i = i + 1;
        }
        assert(valid_header_value(self.sid@));
        let mut hs: Vec<(String, String)> = Vec::new();
        hs.push((String::from_str("accept"), String::from_str("*/*")));
        hs.push((String::from_str("content-type"), String::from_str("application/json")));
        hs.push((String::from_str("user-agent"), String::from_str("cp_api")));
        if self.sid.as_str().unicode_len() > 0 {
            hs.push((String::from_str("x-chkp-sid"), self.sid.clone()));
        }
        assert(pairs_model(hs@) =~= request_headers_model(self.sid@));
        Ok(hs)
    }

    /// Commit the outcome of a login exchange.
    ///
    /// On a reply that is not a success, the state is left unchanged — still
    /// logged out — and the caller receives the Response to inspect.  On a
    /// success, the three session identifiers are extracted from the body
    /// and committed together; if any of the three is missing, none is
    /// committed and the missing field is reported.
    pub fn finish_login(&mut self, login: Response) -> (r: Result<Response, Error>)
        ensures
            match r {
                Ok(res) => {
                    &&& res == login
                    &&& !login.succeeded() ==> *final(self) == *old(self)
                    &&& login.succeeded() ==> login_commit(*old(self), login, *final(self))
                },
                Err(e) => {
                    &&& *final(self) == *old(self)
                    &&& login.succeeded()
                    &&& e matches Error::InvalidResponse(f, img) && img@ == response_json_model(
                        login,
                    ) && missing_login_field(login.data@, f@)
                },
            },
    {
        if !login.is_success() {
            return Ok(login);
        }
        let sid = match login.data.obj_get("sid") {
            Some(JsonValue::Str(s)) => s.clone(),
            _ => { return Err(Error::InvalidResponse("sid", login.to_json())) },
        };
        let uid = match login.data.obj_get("uid") {
            Some(JsonValue::Str(s)) => s.clone(),
            _ => { return Err(Error::InvalidResponse("uid", login.to_json())) },
        };
        let ver = match login.data.obj_get("api-server-version") {
            Some(JsonValue::Str(s)) => s.clone(),
            _ => { return Err(Error::InvalidResponse("api-server-version", login.to_json())) },
        };
        self.sid = sid;
        self.uid = uid;
        self.api_server_version = ver;
        Ok(login)
    }

    /// Commit the outcome of a logout exchange: on success the three
    /// session identifiers are cleared, on failure the state is left
    /// unchanged — still logged in — and the caller decides whether to
    /// retry.
    pub fn finish_logout(&mut self, logout: Response) -> (r: Response)
        ensures
            r == logout,
            !logout.succeeded() ==> *final(self) == *old(self),
            logout.succeeded() ==> {
                &&& final(self).sid@ == Seq::<char>::empty()
                &&& final(self).uid@ == Seq::<char>::empty()
                &&& final(self).api_server_version@ == Seq::<char>::empty()
                &&& *final(self) == (Client {
                    sid: final(self).sid,
                    uid: final(self).uid,
                    api_server_version: final(self).api_server_version,
                    ..*old(self)
                })
            },
    {
        if logout.is_success() {
            self.sid = String::new();
            self.uid = String::new();
            self.api_server_version = String::new();
        }
        logout
    }

    /// Record a dispatched call in the audit accumulator, with the password
    /// of a login payload redacted.  Fails exactly when a login payload
    /// must be redacted but holds no password field: auditing must not
    /// silently drop the redaction.
    #[verifier::rlimit(60)]
    #[verifier::spinoff_prover]
    pub fn update_calls(
        &mut self,
        command: &str,
        url: &str,
        headers: &Vec<(String, String)>,
        payload: &JsonValue,
        res: &Response,
    ) -> (r: Result<(), Error>)
        ensures
            match r {
                Ok(()) => {
                    &&& !redaction_impossible(command@, old(self).show_password, payload@)
                    &&& final(self).all_calls@.len() == old(self).all_calls@.len() + 1
                    &&& forall|i: int|
                        0 <= i < old(self).all_calls@.len() ==> final(self).all_calls@[i] == old(
                            self,
                        ).all_calls@[i]
                    &&& final(self).all_calls@.last()@ == audit_entry_model(
                        headers@,
                        recorded_payload(command@, old(self).show_password, payload@),
                        url@,
                        response_json_model(*res),
                    )
                    &&& *final(self) == (Client {
                        all_calls: final(self).all_calls,
                        ..*old(self)
                    })
                },
                Err(e) => {
                    &&& *final(self) == *old(self)
                    &&& redaction_impossible(command@, old(self).show_password, payload@)
                    &&& e matches Error::Custom(_)
                },
            },
    {
        let ghost pre_payload = payload@;
        let recorded: JsonValue;
        if str_eq(command, "login") && !self.show_password {
            match payload {
                JsonValue::Obj(members) => {
                    let ghost mm = obj_model(members@);
                    proof {
                        crate::json::lemma_obj_model(members@);
                        assert(payload@ == JsonModel::Obj(mm));
                    }
                    match find_password(members) {
                        Some(k) => {
                            proof {
                                crate::json::lemma_lookup_skip(mm, "password"@, k as int);
                                assert(mm.skip(k as int)[0] == mm[k as int]);
                                assert(json_get(pre_payload, "password"@) is Some);
                            }
                            let n = members.len();
                            let mut out: Vec<(String, JsonValue)> = Vec::new();
                            let mut i: usize = 0;
                            while i < n
                                invariant
                                    n == members@.len(),
                                    k < n,
                                    0 <= i <= n,
                                    out@.len() == i,
                                    forall|l: int|
                                        0 <= l < i ==> #[trigger] out@[l].0@ == members@[l].0@
                                            && out@[l].1@ == (if l == k {
                                            JsonModel::Str("*****"@)
                                        } else {
                                            members@[l].1@
                                        }),
                                decreases n - i,
                            {
                                if i == k {
                                    out.push(
                                        (members[i].0.clone(), JsonValue::Str(
                                            String::from_str("*****"),
                                        )),
                                    );
                                } else {
                                    out.push((members[i].0.clone(), members[i].1.deep_copy()));
                                }
                                i = i + 1;
                            }
                            proof {
                                lemma_redact_at(mm, k as int);
                                crate::json::lemma_obj_model(out@);
                                assert(obj_model(out@) =~= redact_members(mm));
                            }
                            recorded = JsonValue::Obj(out);
                        },
                        None => {
                            proof {
                                crate::json::lemma_lookup_skip(
                                    mm,
                                    "password"@,
                                    mm.len() as int,
                                );
                                assert(mm.skip(mm.len() as int) =~= Seq::empty());
                                assert(json_get(pre_payload, "password"@) is None);
                            }
                            return Err(
                                Error::Custom(
                                    String::from_str(
                                        "Failed to get the password to obfuscate from payload",
                                    ),
                                ),
                            );
                        },
                    }
                },
                _ => {
                    return Err(
                        Error::Custom(
                            String::from_str(
                                "Failed to get the password to obfuscate from payload",
                            ),
                        ),
                    );
                },
            }
        } else {
            recorded = payload.deep_copy();
        }
        assert(recorded@ == recorded_payload(command@, self.show_password, pre_payload));

        let ghost recm = recorded@;
        let hs_json = crate::response::headers_to_json(headers);
        let mut req_ms: Vec<(String, JsonValue)> = Vec::new();
        req_ms.push((String::from_str("headers"), JsonValue::Obj(hs_json)));
        req_ms.push((String::from_str("payload"), recorded));
        req_ms.push((String::from_str("url"), JsonValue::Str(String::from_str(url))));
        let request = JsonValue::Obj(req_ms);
        proof {
            crate::json::lemma_obj_model(req_ms@);
            assert(obj_model(req_ms@) =~= seq![
                ("headers"@, JsonModel::Obj(crate::response::headers_obj_model(headers@))),
                ("payload"@, recm),
                ("url"@, JsonModel::Str(url@)),
            ]);
        }

        let mut entry_ms: Vec<(String, JsonValue)> = Vec::new();
        entry_ms.push((String::from_str("Request"), request));
        entry_ms.push((String::from_str("Response"), res.to_json()));
        let entry = JsonValue::Obj(entry_ms);
        proof {
            crate::json::lemma_obj_model(req_ms@);
            crate::json::lemma_obj_model(entry_ms@);
            assert(obj_model(entry_ms@) =~= audit_entry_model(
                headers@,
                recorded_payload(command@, self.show_password, pre_payload),
                url@,
                response_json_model(*res),
            )->Obj_0);
        }
        self.all_calls.push(entry);
        Ok(())
    }

    /// The document that a flush of the audit log persists: the recorded
    /// calls as one pretty-printed array.  Fails exactly when no log file
    /// is configured.
    pub fn render_log(&self) -> (r: Result<String, Error>)
        ensures
            match r {
                Ok(s) => self.log_file@.len() > 0 && s@ == crate::render::render(
                    JsonModel::Arr(crate::json::arr_model(self.all_calls@)),
                    0,
                ),
                Err(e) => self.log_file@.len() == 0 && e matches Error::Custom(_),
            },
    {
        if self.log_file.as_str().unicode_len() == 0 {
            return Err(Error::Custom(String::from_str("log_file on the Client is not set")));
        }
        Ok(crate::render::render_array_pretty(&self.all_calls))
    }

    /// Clear the recorded calls and the configured log file, after a
    /// successful flush.
    pub fn clear_log(&mut self)
        ensures
            final(self).all_calls@ == Seq::<JsonValue>::empty(),
            final(self).log_file@ == Seq::<char>::empty(),
            *final(self) == (Client {
                all_calls: final(self).all_calls,
                log_file: final(self).log_file,
                ..*old(self)
            }),
    {
        self.all_calls = Vec::new();
        self.log_file = String::new();
    }

    /// The body of a login command: user, password, domain and the
    /// configured session timeout.
    pub fn login_payload(&self, user: &str, pass: &str) -> (p: JsonValue)
        ensures
            p@ == login_payload_model(user@, pass@, self.domain@, self.session_timeout),
    {
        let mut ms: Vec<(String, JsonValue)> = Vec::new();
        ms.push((String::from_str("user"), JsonValue::Str(String::from_str(user))));
        ms.push((String::from_str("password"), JsonValue::Str(String::from_str(pass))));
        ms.push((String::from_str("domain"), JsonValue::Str(self.domain.clone())));
        ms.push((String::from_str("session-timeout"), JsonValue::Num(self.session_timeout)));
        let p = JsonValue::Obj(ms);
        proof {
            crate::json::lemma_obj_model(ms@);
            assert(obj_model(ms@) =~= login_payload_model(
                user@,
                pass@,
                self.domain@,
                self.session_timeout,
            )->Obj_0);
        }
        p
    }
}

} // verus!
