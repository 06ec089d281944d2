//! Decisions of the HTTP endpoints around the registry: request defaults,
//! the upgrade URL, the mapping of failures to error codes, and the answers
//! about one session or all of them. Encoding the answers is left to the
//! HTTP layer.
use vstd::prelude::*;
use vstd::string::*;
use crate::index::{distinct_views, id_set, set_under};
use crate::registry::{
    by_portal_user, closed_once, random_uuid_text, sessions_with, touched, uuid_v4_text, SessionHandle, SessionRecord,
    SessionRegistry,
};
use crate::bootstrap::{failure_text, is_auth_failure, lemma_auth_failure_text, OpenFailure};
use crate::text::{contains_seq, decimal, decimal_text, joined, text_contains, text_equals};

verus! {

/// Code that tells a client why a connect request failed.
#[derive(Clone, Copy, PartialEq, Eq, Structural)]
pub enum ErrorCode {
    AuthFailed,
    ConnectionFailed,
    UnknownError,
}

/// The code of a failure text: "Authentication" in it means an
/// authentication failure; otherwise "Connection" or "connect" means a
/// connection failure.
pub open spec fn error_code_of(message: Seq<char>) -> ErrorCode {
    if contains_seq(message, "Authentication"@) {
        ErrorCode::AuthFailed
    } else if contains_seq(message, "Connection"@) || contains_seq(message, "connect"@) {
        ErrorCode::ConnectionFailed
    } else {
        ErrorCode::UnknownError
    }
}

/// Maps a failure text to its error code.
pub fn error_code_for(message: &str) -> (r: ErrorCode)
    ensures
        r == error_code_of(message@),
{
    if text_contains(message, "Authentication") {
        ErrorCode::AuthFailed
    } else if text_contains(message, "Connection") || text_contains(message, "connect") {
        ErrorCode::ConnectionFailed
    } else {
        ErrorCode::UnknownError
    }
}

impl ErrorCode {
    /// The code as sent to clients.
    pub fn as_str(&self) -> (r: &'static str)
        ensures
            *self == ErrorCode::AuthFailed ==> r@ == "AUTH_FAILED"@,
            *self == ErrorCode::ConnectionFailed ==> r@ == "CONNECTION_FAILED"@,
            *self == ErrorCode::UnknownError ==> r@ == "UNKNOWN_ERROR"@,
    {
        match self {
            ErrorCode::AuthFailed => "AUTH_FAILED",
            ErrorCode::ConnectionFailed => "CONNECTION_FAILED",
            ErrorCode::UnknownError => "UNKNOWN_ERROR",
        }
    }
}

/// Every authentication failure of the open ladder is reported to the
/// client as `AUTH_FAILED`.
pub proof fn lemma_auth_failures_map_to_auth_failed(why: OpenFailure, detail: Seq<char>)
    requires
        is_auth_failure(why),
    ensures
        error_code_of(failure_text(why, detail)) == ErrorCode::AuthFailed,
{
    lemma_auth_failure_text(why, detail);
}

/// Port used when a request names port zero.
pub const DEFAULT_SSH_PORT: u16 = 22;

/// The port of an API connect request: zero stands for the default port.
pub fn api_port(port: u16) -> (r: u16)
    ensures
        r == (if port == 0 { DEFAULT_SSH_PORT } else { port }),
{
    if port == 0 {
        DEFAULT_SSH_PORT
    } else {
        port
    }
}

/// The URL of the upgrade endpoint of a session:
/// `ws://{address}:{port}/ws/{session_id}`.
pub open spec fn websocket_url_text(address: Seq<char>, port: u16, session_id: Seq<char>) -> Seq<char> {
    "ws://"@ + address + ":"@ + decimal(port as nat) + "/ws/"@ + session_id
}

/// Builds the upgrade URL of a session.
pub fn websocket_url(address: &str, port: u16, session_id: &str) -> (r: String)
    ensures
        r@ == websocket_url_text(address@, port, session_id@),
{
    let p = decimal_text(port as u32);
    let a = joined("ws://", address);
    let b = joined(a.as_str(), ":");
    let c = joined(b.as_str(), p.as_str());
    let d = joined(c.as_str(), "/ws/");
    joined(d.as_str(), session_id)
}

/// The password and key an API connect request authenticates with: the
/// key alone when `auth_type` is `private-key`, else the password alone.
pub fn select_credentials(
    auth_type: Option<&str>,
    password: Option<String>,
    private_key: Option<String>,
) -> (r: (Option<String>, Option<String>))
    ensures
        (match auth_type {
            Some(t) => t@ == "private-key"@,
            None => false,
        }) ==> r.0.is_none() && r.1 == private_key,
        !(match auth_type {
            Some(t) => t@ == "private-key"@,
            None => false,
        }) ==> r.0 == password && r.1.is_none(),
{
    let key_auth = match auth_type {
        Some(t) => text_equals(t, "private-key"),
        None => false,
    };
    if key_auth {
        (None, private_key)
    } else {
        (password, None)
    }
}

/// The portal user of a connect request: the one given, else
/// `anonymous-{unique}`.
pub fn portal_user_or_anonymous(given: Option<String>, unique: &str) -> (r: String)
    ensures
        match given {
            Some(p) => r == p,
            None => r@ == "anonymous-"@ + unique@,
        },
{
    match given {
        Some(p) => p,
        None => joined("anonymous-", unique),
    }
}

/// The portal user of a connect request, made up from a random UUID when
/// none is given.
pub fn default_portal_user(given: Option<String>) -> (r: String)
    ensures
        match given {
            Some(p) => r == p,
            None => exists|u: Seq<char>| uuid_v4_text(u) && r@ == "anonymous-"@ + u,
        },
{
    match given {
        Some(p) => p,
        None => {
            let unique = random_uuid_text();
            portal_user_or_anonymous(None, unique.as_str())
        },
    }
}

/// The portal user of an API connect request: the one given, else the
/// device name, else `device-{unique}`.
pub fn api_portal_user(given: Option<String>, device_name: Option<String>, unique: &str) -> (r: String)
    ensures
        match (given, device_name) {
            (Some(p), _) => r == p,
            (None, Some(d)) => r == d,
            (None, None) => r@ == "device-"@ + unique@,
        },
{
    match given {
        Some(p) => p,
        None => match device_name {
            Some(d) => d,
            None => joined("device-", unique),
        },
    }
}

/// The device name shown for an API connect request: the one given, else
/// the host name.
pub fn api_device_name(device_name: Option<String>, hostname: &str) -> (r: String)
    ensures
        match device_name {
            Some(d) => r == d,
            None => r@ == hostname@,
        },
{
    match device_name {
        Some(d) => d,
        None => hostname.to_owned(),
    }
}

/// An ASCII letter, digit, or one of `-._~`: left as is in a URL.
pub open spec fn url_safe(b: u8) -> bool {
    ||| 48 <= b <= 57
    ||| 65 <= b <= 90
    ||| 97 <= b <= 122
    ||| b == 45
    ||| b == 46
    ||| b == 95
    ||| b == 126
}

/// Upper-case hexadecimal digit of `d`, below sixteen.
pub open spec fn hex_upper(d: int) -> char {
    seq!['0', '1', '2', '3', '4', '5', '6', '7', '8', '9', 'A', 'B', 'C', 'D', 'E', 'F'][d]
}

/// The ASCII character of a byte below 128.
pub open spec fn ascii_char(b: u8) -> char {
    b as char
}

/// Percent-encoding of a byte string: safe bytes stay, every other byte
/// becomes `%` and two upper-case hexadecimal digits.
pub open spec fn percent_encoded(bytes: Seq<u8>) -> Seq<char>
    decreases bytes.len(),
{
    if bytes.len() == 0 {
        Seq::empty()
    } else {
        let b = bytes[0];
        let head = if url_safe(b) {
            seq![ascii_char(b)]
        } else {
            seq!['%', hex_upper(b as int / 16), hex_upper(b as int % 16)]
        };
        head + percent_encoded(bytes.drop_first())
    }
}

/// Relies on urlencoding's `encode`: it percent-encodes every byte of the
/// UTF-8 form except ASCII letters, digits and `-._~`, with upper-case
/// hexadecimal digits.
#[verifier::external_body]
fn url_encode(s: &str) -> (r: String)
    ensures
        r@ == percent_encoded(s.spec_bytes()),
{
    urlencoding::encode(s).into_owned()
}

/// The upgrade URL of an API connect answer: the plain URL followed by the
/// percent-encoded host name, user name and device name.
pub open spec fn api_websocket_url_text(
    url: Seq<char>,
    hostname: Seq<u8>,
    username: Seq<u8>,
    device_name: Seq<u8>,
) -> Seq<char> {
    url + "&hostname="@ + percent_encoded(hostname) + "&username="@ + percent_encoded(username)
        + "&device_name="@ + percent_encoded(device_name)
}

/// Builds the upgrade URL of an API connect answer.
pub fn api_websocket_url(url: &str, hostname: &str, username: &str, device_name: &str) -> (r: String)
    ensures
        r@ == api_websocket_url_text(
            url@,
            hostname.spec_bytes(),
            username.spec_bytes(),
            device_name.spec_bytes(),
        ),
{
    let h = url_encode(hostname);
    let u = url_encode(username);
    let d = url_encode(device_name);
    let a = joined(url, "&hostname=");
    let b = joined(a.as_str(), h.as_str());
    let c = joined(b.as_str(), "&username=");
    let e = joined(c.as_str(), u.as_str());
    let f = joined(e.as_str(), "&device_name=");
    joined(f.as_str(), d.as_str())
}

/// A character with the Unicode White_Space property, the test of std's
/// `char::is_whitespace`.
pub open spec fn is_white_space(c: char) -> bool {
    ||| '\u{9}' <= c && c <= '\u{d}'
    ||| c == ' '
    ||| c == '\u{85}'
    ||| c == '\u{a0}'
    ||| c == '\u{1680}'
    ||| '\u{2000}' <= c && c <= '\u{200a}'
    ||| c == '\u{2028}'
    ||| c == '\u{2029}'
    ||| c == '\u{202f}'
    ||| c == '\u{205f}'
    ||| c == '\u{3000}'
}

/// `s` without its leading white space.
pub open spec fn trim_start(s: Seq<char>) -> Seq<char>
    decreases s.len(),
{
    if s.len() > 0 && is_white_space(s[0]) {
        trim_start(s.drop_first())
    } else {
        s
    }
}

/// `s` without its trailing white space.
pub open spec fn trim_end(s: Seq<char>) -> Seq<char>
    decreases s.len(),
{
    if s.len() > 0 && is_white_space(s.last()) {
        trim_end(s.drop_last())
    } else {
        s
    }
}

/// `s` without leading and trailing white space.
pub open spec fn trimmed_of(s: Seq<char>) -> Seq<char> {
    trim_end(trim_start(s))
}

/// Relies on std's `str::trim`: the text without the leading and trailing
/// characters for which `char::is_whitespace` holds.
#[verifier::external_body]
fn trimmed(s: &str) -> (r: String)
    ensures
        r@ == trimmed_of(s@),
{
    s.trim().to_owned()
}

/// A session id as received on a URL, without surrounding white space.
pub fn clean_session_id(raw: &str) -> (r: String)
    ensures
        r@ == trimmed_of(raw@),
{
    trimmed(raw)
}

/// Answer about one session.
pub struct SessionStatus {
    pub exists: bool,
    pub ready: bool,
    pub message: String,
}

/// Text of the answer about a session that is not there.
pub open spec fn waiting_text(session_id: Seq<char>) -> Seq<char> {
    "Session '"@ + session_id + "' not found. Waiting for it to be created..."@
}

/// Answers whether the session `session_id` exists and is ready; a hit
/// stamps its activity at `now`.
pub fn session_status_of<S: SessionHandle>(reg: &mut SessionRegistry<S>, session_id: &str, now: u64) -> (r:
    SessionStatus)
    requires
        old(reg).wf(),
    ensures
        final(reg).wf(),
        r.exists == old(reg).sessions().contains_key(session_id@),
        r.ready == r.exists,
        r.exists ==> r.message@ == "Session is ready for connection"@,
        !r.exists ==> r.message@ == waiting_text(session_id@),
        final(reg).sessions() == (if r.exists {
            old(reg).sessions().insert(session_id@, touched(old(reg).sessions()[session_id@], now))
        } else {
            old(reg).sessions()
        }),
        final(reg).composite_index() == old(reg).composite_index(),
        final(reg).closed_handles() == old(reg).closed_handles(),
        final(reg).indices_agree(),
{
    let found = reg.get_session(session_id, now).is_some();
    if found {
        SessionStatus { exists: true, ready: true, message: "Session is ready for connection".to_owned() }
    } else {
        let a = joined("Session '", session_id);
        let message = joined(a.as_str(), "' not found. Waiting for it to be created...");
        SessionStatus { exists: false, ready: false, message }
    }
}

/// Answers about the session named by a raw id from a URL.
pub fn session_status<S: SessionHandle>(reg: &mut SessionRegistry<S>, raw_id: &str, now: u64) -> (r:
    SessionStatus)
    requires
        old(reg).wf(),
    ensures
        final(reg).wf(),
        r.exists == old(reg).sessions().contains_key(trimmed_of(raw_id@)),
        r.ready == r.exists,
        r.exists ==> r.message@ == "Session is ready for connection"@,
        !r.exists ==> r.message@ == waiting_text(trimmed_of(raw_id@)),
        final(reg).sessions() == (if r.exists {
            old(reg).sessions().insert(
                trimmed_of(raw_id@),
                touched(old(reg).sessions()[trimmed_of(raw_id@)], now),
            )
        } else {
            old(reg).sessions()
        }),
        final(reg).composite_index() == old(reg).composite_index(),
        final(reg).closed_handles() == old(reg).closed_handles(),
        final(reg).indices_agree(),
{
    let id = clean_session_id(raw_id);
    session_status_of(reg, id.as_str(), now)
}

/// Answer to a terminate request.
pub struct TerminateOutcome {
    pub success: bool,
    pub message: String,
}

/// Terminates the session `session_id`: removes it from the registry and
/// closes its SSH handle.
pub fn terminate_session_of<S: SessionHandle>(reg: &mut SessionRegistry<S>, session_id: &str, now: u64) -> (r:
    TerminateOutcome)
    requires
        old(reg).wf(),
    ensures
        final(reg).wf(),
        r.success == old(reg).sessions().contains_key(session_id@),
        r.success ==> r.message@ == "Session '"@ + session_id@ + "' successfully terminated"@,
        !r.success ==> r.message@ == "Session '"@ + session_id@ + "' not found"@,
        final(reg).sessions() == old(reg).sessions().remove(session_id@),
        final(reg).indices_agree(),
        r.success ==> closed_once(old(reg).closed_handles(), final(reg).closed_handles(), session_id@),
        !r.success ==> final(reg).closed_handles() == old(reg).closed_handles(),
{
    let a = joined("Session '", session_id);
    if reg.get_session(session_id, now).is_some() {
        reg.remove_session(session_id);
        let message = joined(a.as_str(), "' successfully terminated");
        TerminateOutcome { success: true, message }
    } else {
        proof {
            assert(reg.sessions().remove(session_id@) =~= reg.sessions());
        }
        let message = joined(a.as_str(), "' not found");
        TerminateOutcome { success: false, message }
    }
}

/// Terminates the session named by a raw id from a URL.
pub fn terminate_session<S: SessionHandle>(reg: &mut SessionRegistry<S>, raw_id: &str, now: u64) -> (r:
    TerminateOutcome)
    requires
        old(reg).wf(),
    ensures
        final(reg).wf(),
        r.success == old(reg).sessions().contains_key(trimmed_of(raw_id@)),
        r.success ==> r.message@ == "Session '"@ + trimmed_of(raw_id@) + "' successfully terminated"@,
        !r.success ==> r.message@ == "Session '"@ + trimmed_of(raw_id@) + "' not found"@,
        final(reg).sessions() == old(reg).sessions().remove(trimmed_of(raw_id@)),
        final(reg).indices_agree(),
        r.success ==> closed_once(
            old(reg).closed_handles(),
            final(reg).closed_handles(),
            trimmed_of(raw_id@),
        ),
        !r.success ==> final(reg).closed_handles() == old(reg).closed_handles(),
{
    let id = clean_session_id(raw_id);
    terminate_session_of(reg, id.as_str(), now)
}

/// Text of the answer to an upgrade request for a session that is not there.
pub fn session_not_found_message(session_id: &str) -> (r: String)
    ensures
        r@ == "Session '"@ + session_id@
            + "' not found. The SSH connection may have failed or the session expired."@,
{
    let a = joined("Session '", session_id);
    joined(a.as_str(), "' not found. The SSH connection may have failed or the session expired.")
}

/// One line of the answer listing sessions.
pub struct SessionSummary {
    pub session_id: String,
    pub portal_user_id: String,
    pub device_id: String,
    pub ssh_username: String,
    pub last_activity: u64,
}

impl SessionSummary {
    /// The fields of the line as a session record.
    pub open spec fn record(&self) -> SessionRecord {
        SessionRecord {
            portal_user_id: self.portal_user_id@,
            device_id: self.device_id@,
            ssh_username: self.ssh_username@,
            last_activity: self.last_activity,
        }
    }
}

/// `m` with the sessions of `ids` stamped at `now`.
pub open spec fn touched_all(
    m: Map<Seq<char>, SessionRecord>,
    ids: Set<Seq<char>>,
    now: u64,
) -> Map<Seq<char>, SessionRecord> {
    Map::new(|k: Seq<char>| m.contains_key(k), |k: Seq<char>| if ids.contains(k) { touched(m[k], now) } else { m[k] })
}

/// Looks up each session of `ids`, stamping it at `now`, and lists them.
fn summarize<S: SessionHandle>(reg: &mut SessionRegistry<S>, ids: &Vec<String>, now: u64) -> (r: Vec<SessionSummary>)
    requires
        old(reg).wf(),
        distinct_views(ids@),
        id_set(ids@).subset_of(old(reg).sessions().dom()),
    ensures
        final(reg).wf(),
        final(reg).sessions() == touched_all(old(reg).sessions(), id_set(ids@), now),
        final(reg).composite_index() == old(reg).composite_index(),
        final(reg).closed_handles() == old(reg).closed_handles(),
        r@.len() == ids@.len(),
        forall|j: int| 0 <= j < r@.len() ==> (#[trigger] r@[j]).session_id@ == ids@[j]@
            && r@[j].record() == final(reg).sessions()[ids@[j]@],
{
    let ghost m = reg.sessions();
    let ghost c = reg.composite_index();
    let ghost log = reg.closed_handles();
    let mut out: Vec<SessionSummary> = Vec::new();
    let mut k: usize = 0;
    proof {
        assert(touched_all(m, id_set(ids@.subrange(0, 0)), now) =~= m) by {
            assert(id_set(ids@.subrange(0, 0)) =~= Set::<Seq<char>>::empty());
        }
    }
    while k < ids.len()
        invariant
            reg.wf(),
            0 <= k <= ids@.len(),
            distinct_views(ids@),
            id_set(ids@).subset_of(m.dom()),
            reg.sessions() == touched_all(m, id_set(ids@.subrange(0, k as int)), now),
            reg.composite_index() == c,
            reg.closed_handles() == log,
            out@.len() == k,
            forall|j: int| 0 <= j < k ==> (#[trigger] out@[j]).session_id@ == ids@[j]@
                && out@[j].record() == touched(m[ids@[j]@], now),
        decreases ids@.len() - k,
    {
        let ghost before = reg.sessions();
        let ghost id = ids@[k as int]@;
        proof {
            assert(id_set(ids@).contains(id));
        }
        match reg.get_session(ids[k].as_str(), now) {
            Some(info) => {
                let line = SessionSummary {
                    session_id: ids[k].clone(),
                    portal_user_id: info.portal_user_id.clone(),
                    device_id: info.device_id.clone(),
                    ssh_username: info.ssh_username.clone(),
                    last_activity: info.last_activity,
                };
                out.push(line);
            },
            None => {},
        }
        k = k + 1;
        proof {
            let done = id_set(ids@.subrange(0, k - 1));
            assert(!done.contains(id)) by {
                if done.contains(id) {
                    let j = choose|j: int| 0 <= j < k - 1 && (#[trigger] ids@.subrange(0, k - 1)[j])@ == id;
                    assert(ids@[j]@ == ids@[k - 1]@);
                }
            }
            assert(ids@.subrange(0, k as int) =~= ids@.subrange(0, k - 1).push(ids@[k - 1]));
            crate::index::lemma_id_set_push(ids@.subrange(0, k - 1), ids@[k - 1]);
            assert(before[id] == m[id]);
            assert(reg.sessions() =~= touched_all(m, id_set(ids@.subrange(0, k as int)), now));
        }
    }
    proof {
        assert(ids@.subrange(0, ids@.len() as int) =~= ids@);
        assert forall|j: int| 0 <= j < out@.len() implies (#[trigger] out@[j]).session_id@ == ids@[j]@
            && out@[j].record() == reg.sessions()[ids@[j]@] by {
            assert(id_set(ids@).contains(ids@[j]@));
        }
    }
    out
}

/// Lists the sessions of a portal user, or all sessions when none is
/// named, stamping each at `now`.
pub fn list_sessions<S: SessionHandle>(reg: &mut SessionRegistry<S>, portal_user_id: Option<&str>, now: u64) -> (r:
    Vec<SessionSummary>)
    requires
        old(reg).wf(),
    ensures
        final(reg).wf(),
        final(reg).indices_agree(),
        final(reg).closed_handles() == old(reg).closed_handles(),
        final(reg).composite_index() == old(reg).composite_index(),
        portal_user_id matches Some(p) ==> set_under(old(reg).portal_index(), p@) == sessions_with(
            old(reg).sessions(),
            by_portal_user(),
            p@,
        ),
        ({
            let listed = match portal_user_id {
                Some(p) => set_under(old(reg).portal_index(), p@),
                None => old(reg).sessions().dom(),
            };
            &&& final(reg).sessions() == touched_all(old(reg).sessions(), listed, now)
            &&& forall|j: int| 0 <= j < r@.len() ==> listed.contains((#[trigger] r@[j]).session_id@)
                && r@[j].record() == final(reg).sessions()[r@[j].session_id@]
            &&& forall|id: Seq<char>| listed.contains(id) ==> exists|j: int|
                0 <= j < r@.len() && (#[trigger] r@[j]).session_id@ == id
            &&& forall|a: int, b: int| 0 <= a < b < r@.len() ==> r@[a].session_id@ != r@[b].session_id@
        }),
{
    proof {
        crate::registry::lemma_indices_name_live_sessions(reg);
        crate::registry::lemma_wf_indices(reg);
        match portal_user_id {
            Some(p) => crate::registry::lemma_set_under_grouped(reg.sessions(), by_portal_user(), p@),
            None => {},
        }
    }
    let ids = match portal_user_id {
        Some(p) => reg.get_portal_user_sessions(p),
        None => reg.get_all_sessions(),
    };
    let ghost m = reg.sessions();
    proof {
        match portal_user_id {
            Some(p) => {
                if reg.portal_index().contains_key(p@) {
                    assert(reg.portal_index()[p@].subset_of(m.dom()));
                }
            },
            None => {},
        }
    }
    let out = summarize(reg, &ids, now);
    proof {
        assert forall|id: Seq<char>| id_set(ids@).contains(id) implies exists|j: int|
            0 <= j < out@.len() && (#[trigger] out@[j]).session_id@ == id by {
            let j = choose|j: int| 0 <= j < ids@.len() && ids@[j]@ == id;
            assert(out@[j].session_id@ == id);
        }
        assert forall|j: int| 0 <= j < out@.len() implies id_set(ids@).contains((#[trigger] out@[j]).session_id@) by {
            assert(ids@[j]@ == out@[j].session_id@);
        }
        assert forall|a: int, b: int| 0 <= a < b < out@.len() implies out@[a].session_id@ != out@[b].session_id@ by {
            assert(ids@[a]@ != ids@[b]@);
        }
        crate::registry::lemma_wf_indices(reg);
    }
    out
}

} // verus!
