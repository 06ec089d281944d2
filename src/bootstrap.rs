//! The ladder that opens an interactive SSH session: dial, handshake with
//! retry on banner failures, authenticate, and set up a PTY channel with a
//! fallback across device classes.
//!
//! The SSH library is blocking and is driven elsewhere; `OpenMachine` takes
//! the outcome of each step as an event and names the next step.
use vstd::prelude::*;
use crate::text::{contains_seq, joined, text_contains, text_equals};

verus! {

/// Most handshake attempts made while banner failures are retried.
pub const MAX_HANDSHAKES: u32 = 3;

/// Most password attempts.
pub const MAX_PASSWORD_TRIES: u32 = 3;

/// Pause, in milliseconds, before dialing again.
pub const REDIAL_PAUSE_MS: u64 = 500;

/// Code of the SSH library's "socket disconnect" error; with "banner" in
/// its text it marks a banner-class handshake failure.
pub const BANNER_CLASS_CODE: i32 = -13;

/// Code of the SSH library's "socket receive" error; during password
/// authentication it means the server never answered, and the transport
/// is built anew before the next attempt.
pub const WAITING_FOR_PASSWORD_CODE: i32 = -43;

/// Terminal height of a new PTY.
pub const PTY_ROWS: u32 = 24;

/// Terminal width of a new PTY.
pub const PTY_COLS: u32 = 80;

/// A handshake failure with this code and text is banner-class.
pub open spec fn banner_class(code: i32, message: Seq<char>) -> bool {
    code == BANNER_CLASS_CODE && contains_seq(message, "banner"@)
}

/// Tells a banner-class handshake failure from the others.
pub fn is_banner_error(code: i32, message: &str) -> (r: bool)
    ensures
        r == banner_class(code, message@),
{
    code == BANNER_CLASS_CODE && text_contains(message, "banner")
}

/// Tells a password failure after which the transport is built anew.
pub fn needs_new_transport(code: i32) -> (r: bool)
    ensures
        r == (code == WAITING_FOR_PASSWORD_CODE),
{
    code == WAITING_FOR_PASSWORD_CODE
}

/// What std's `str::to_lowercase` returns for a text.
pub uninterp spec fn lowercase_of(s: Seq<char>) -> Seq<char>;

/// Relies on std's `str::to_lowercase`: its result depends on the text alone.
#[verifier::external_body]
fn lowercase(s: &str) -> (r: String)
    ensures
        r@ == lowercase_of(s@),
{
    s.to_lowercase()
}

/// A lowered device-type hint that names a network device.
pub open spec fn names_network_device(lowered: Seq<char>) -> bool {
    lowered == "cisco"@ || lowered == "router"@ || lowered == "switch"@
}

/// Whether a device-type hint, once lowered, names a network device.
pub fn is_network_hint_lowered(lowered: &str) -> (r: bool)
    ensures
        r == names_network_device(lowered@),
{
    text_equals(lowered, "cisco") || text_equals(lowered, "router") || text_equals(lowered, "switch")
}

/// Whether a device-type hint names a network device, whatever its case.
pub fn is_network_hint(hint: Option<&str>) -> (r: bool)
    ensures
        match hint {
            Some(h) => r == names_network_device(lowercase_of(h@)),
            None => !r,
        },
{
    match hint {
        Some(h) => {
            let lowered = lowercase(h);
            is_network_hint_lowered(lowered.as_str())
        },
        None => false,
    }
}

/// The credentials a session is opened with.
#[derive(Clone, Copy, PartialEq, Eq, Structural)]
pub enum Credentials {
    /// A password.
    Password,
    /// A private key in PEM form.
    PemKey,
    /// A private key in another form.
    UnsupportedKey,
    /// Neither password nor key.
    Missing,
}

/// What the caller supplied, by the rules of authentication: a password
/// wins over a key, and only a PEM key (holding `-----BEGIN`) is usable.
pub open spec fn credentials_of(password: Option<Seq<char>>, private_key: Option<Seq<char>>) -> Credentials {
    match (password, private_key) {
        (Some(_), _) => Credentials::Password,
        (None, Some(k)) => if contains_seq(k, "-----BEGIN"@) {
            Credentials::PemKey
        } else {
            Credentials::UnsupportedKey
        },
        (None, None) => Credentials::Missing,
    }
}

/// Classifies the credentials of a request.
pub fn classify_credentials(password: Option<&str>, private_key: Option<&str>) -> (r: Credentials)
    ensures
        r == credentials_of(
            match password {
                Some(p) => Some(p@),
                None => None,
            },
            match private_key {
                Some(k) => Some(k@),
                None => None,
            },
        ),
{
    match password {
        Some(_) => Credentials::Password,
        None => match private_key {
            Some(k) => {
                if text_contains(k, "-----BEGIN") {
                    Credentials::PemKey
                } else {
                    Credentials::UnsupportedKey
                }
            },
            None => Credentials::Missing,
        },
    }
}

/// A way of setting up the interactive channel.
#[derive(Clone, Copy, PartialEq, Eq, Structural)]
pub enum SetupVariant {
    /// Modern OpenSSH servers.
    Standard,
    /// Generic Unix servers.
    Unix,
    /// Network devices.
    Network,
}

/// How a setup variant asks for its PTY.
pub struct PtyProfile {
    /// Terminal type requested for the PTY.
    pub term: &'static str,
    /// Whether a shell is requested once the PTY is allocated.
    pub request_shell: bool,
    /// Bytes sent once the channel is ready, to draw a prompt.
    pub wake: &'static str,
}

/// The PTY settings of each setup variant.
pub fn pty_profile(variant: SetupVariant) -> (r: PtyProfile)
    ensures
        r.request_shell,
        variant == SetupVariant::Standard ==> r.term@ == "xterm-256color"@ && r.wake@ == ""@,
        variant == SetupVariant::Unix ==> r.term@ == "xterm"@ && r.wake@ == ""@,
        variant == SetupVariant::Network ==> r.term@ == "vt100"@ && r.wake@ == "\r\n"@,
{
    match variant {
        SetupVariant::Standard => PtyProfile { term: "xterm-256color", request_shell: true, wake: "" },
        SetupVariant::Unix => PtyProfile { term: "xterm", request_shell: true, wake: "" },
        SetupVariant::Network => PtyProfile { term: "vt100", request_shell: true, wake: "\r\n" },
    }
}

/// Where the ladder stands.
#[derive(Clone, Copy, PartialEq, Eq, Structural)]
pub enum Stage {
    /// Waiting for the dial (and transport set-up) to finish.
    Dialing,
    /// Waiting for the handshake.
    Handshaking,
    /// Waiting for the password or key to be checked.
    Authenticating,
    /// Waiting to learn whether the transport is authenticated.
    CheckingAuth,
    /// Waiting for this setup variant.
    SettingUp(SetupVariant),
    /// The session is open.
    Ready,
    /// The ladder gave up.
    Failed,
}

/// Why opening a session failed.
#[derive(Clone, Copy, PartialEq, Eq, Structural)]
pub enum OpenFailure {
    /// Dialing or configuring the transport failed.
    Connect,
    /// The handshake failed.
    Handshake,
    /// The server refused the password.
    PasswordRejected,
    /// The server refused the key.
    KeyRejected,
    /// The key is not in PEM form.
    UnsupportedKey,
    /// No password and no key.
    NoAuthMethod,
    /// The transport is not authenticated after authentication.
    NotAuthenticated,
    /// No setup variant could open the channel.
    Setup,
}

/// Outcome of the step last asked for.
#[derive(Clone, Copy, PartialEq, Eq, Structural)]
pub enum OpenEvent {
    Connected,
    ConnectFailed,
    HandshakeOk,
    /// The handshake failed; `banner` tells whether it is banner-class.
    HandshakeFailed { banner: bool },
    AuthOk,
    /// Authentication failed; `new_transport` tells whether the transport
    /// is to be built anew before another attempt.
    AuthFailed { new_transport: bool },
    AuthChecked { authenticated: bool },
    SetupOk,
    SetupFailed,
}

/// The next step to perform.
#[derive(Clone, Copy, PartialEq, Eq, Structural)]
pub enum OpenAction {
    /// Pause this many milliseconds, then dial and configure a fresh transport.
    Redial { pause_ms: u64 },
    /// Run the handshake.
    Handshake,
    /// Authenticate with the password.
    AuthPassword,
    /// Authenticate with the key.
    AuthKey,
    /// Ask whether the transport is authenticated.
    CheckAuth,
    /// Open the channel with this setup variant.
    Setup(SetupVariant),
    /// Flush the channel, switch to non-blocking mode, and hand the session out.
    Finish,
    /// Give up with this failure.
    Fail(OpenFailure),
    /// The event does not fit the stage; nothing to do.
    Nothing,
}

/// State of the ladder. A new machine is `Dialing`: the first step is to
/// dial and configure the transport.
#[derive(Clone, Copy, PartialEq, Eq, Structural)]
pub struct OpenMachine {
    pub stage: Stage,
    /// Handshakes run on the current transport line.
    pub handshakes: u32,
    /// Password attempts made.
    pub password_tries: u32,
    pub credentials: Credentials,
    /// The device-type hint names a network device.
    pub network_hint: bool,
}

/// The first setup variant tried.
pub open spec fn first_variant(network_hint: bool) -> SetupVariant {
    if network_hint {
        SetupVariant::Network
    } else {
        SetupVariant::Standard
    }
}

/// The variant tried after `v` failed, if any: a network hint allows only
/// the network variant; otherwise standard, then Unix, then network.
pub open spec fn fallback(v: SetupVariant, network_hint: bool) -> Option<SetupVariant> {
    if network_hint {
        None
    } else {
        match v {
            SetupVariant::Standard => Some(SetupVariant::Unix),
            SetupVariant::Unix => Some(SetupVariant::Network),
            SetupVariant::Network => None,
        }
    }
}

/// The machine in `stage` doing `action`.
pub open spec fn moved(m: OpenMachine, stage: Stage, action: OpenAction) -> (OpenMachine, OpenAction) {
    (OpenMachine { stage, ..m }, action)
}

/// The machine after a failure.
pub open spec fn failed(m: OpenMachine, why: OpenFailure) -> (OpenMachine, OpenAction) {
    moved(m, Stage::Failed, OpenAction::Fail(why))
}

/// The step that starts authentication with the given credentials.
pub open spec fn start_auth(m: OpenMachine) -> (OpenMachine, OpenAction) {
    match m.credentials {
        Credentials::Password => (
            OpenMachine {
                stage: Stage::Authenticating,
                password_tries: (m.password_tries + 1) as u32,
                ..m
            },
            OpenAction::AuthPassword,
        ),
        Credentials::PemKey => moved(m, Stage::Authenticating, OpenAction::AuthKey),
        Credentials::UnsupportedKey => failed(m, OpenFailure::UnsupportedKey),
        Credentials::Missing => failed(m, OpenFailure::NoAuthMethod),
    }
}

/// The transition table of the ladder.
pub open spec fn transition(m: OpenMachine, e: OpenEvent) -> (OpenMachine, OpenAction) {
    match (m.stage, e) {
        (Stage::Dialing, OpenEvent::Connected) => (
            OpenMachine { stage: Stage::Handshaking, handshakes: (m.handshakes + 1) as u32, ..m },
            OpenAction::Handshake,
        ),
        (Stage::Dialing, OpenEvent::ConnectFailed) => failed(m, OpenFailure::Connect),
        (Stage::Handshaking, OpenEvent::HandshakeOk) => start_auth(m),
        (Stage::Handshaking, OpenEvent::HandshakeFailed { banner }) => {
            if banner && m.handshakes < MAX_HANDSHAKES && m.password_tries == 0 {
                moved(m, Stage::Dialing, OpenAction::Redial { pause_ms: REDIAL_PAUSE_MS })
            } else {
                failed(m, OpenFailure::Handshake)
            }
        },
        (Stage::Authenticating, OpenEvent::AuthOk) => moved(m, Stage::CheckingAuth, OpenAction::CheckAuth),
        (Stage::Authenticating, OpenEvent::AuthFailed { new_transport }) => {
            if m.credentials == Credentials::Password {
                if new_transport && m.password_tries < MAX_PASSWORD_TRIES {
                    (
                        OpenMachine { stage: Stage::Dialing, handshakes: 0, ..m },
                        OpenAction::Redial { pause_ms: REDIAL_PAUSE_MS },
                    )
                } else {
                    failed(m, OpenFailure::PasswordRejected)
                }
            } else {
                failed(m, OpenFailure::KeyRejected)
            }
        },
        (Stage::CheckingAuth, OpenEvent::AuthChecked { authenticated }) => {
            if authenticated {
                let v = first_variant(m.network_hint);
                moved(m, Stage::SettingUp(v), OpenAction::Setup(v))
            } else {
                failed(m, OpenFailure::NotAuthenticated)
            }
        },
        (Stage::SettingUp(_), OpenEvent::SetupOk) => moved(m, Stage::Ready, OpenAction::Finish),
        (Stage::SettingUp(v), OpenEvent::SetupFailed) => match fallback(v, m.network_hint) {
            Some(next) => moved(m, Stage::SettingUp(next), OpenAction::Setup(next)),
            None => failed(m, OpenFailure::Setup),
        },
        _ => (m, OpenAction::Nothing),
    }
}

impl OpenMachine {
    /// Counters stay within their limits.
    pub open spec fn wf(&self) -> bool {
        &&& self.handshakes <= MAX_HANDSHAKES
        &&& self.password_tries <= MAX_PASSWORD_TRIES
        &&& self.stage == Stage::Dialing ==> self.handshakes < MAX_HANDSHAKES
        &&& self.stage == Stage::Dialing && self.credentials == Credentials::Password
            ==> self.password_tries < MAX_PASSWORD_TRIES
        &&& self.stage == Stage::Handshaking && self.credentials == Credentials::Password
            ==> self.password_tries < MAX_PASSWORD_TRIES
    }

    /// A ladder for the given credentials and hint, about to dial.
    pub fn new(credentials: Credentials, network_hint: bool) -> (r: Self)
        ensures
            r.wf(),
            r == (OpenMachine {
                stage: Stage::Dialing,
                handshakes: 0,
                password_tries: 0,
                credentials,
                network_hint,
            }),
    {
        OpenMachine { stage: Stage::Dialing, handshakes: 0, password_tries: 0, credentials, network_hint }
    }

    /// Takes the outcome of the last step and names the next one.
    pub fn step(&mut self, event: OpenEvent) -> (r: OpenAction)
        requires
            old(self).wf(),
        ensures
            final(self).wf(),
            (*final(self), r) == transition(*old(self), event),
    {
        let m = *self;
        match (m.stage, event) {
            (Stage::Dialing, OpenEvent::Connected) => {
                self.stage = Stage::Handshaking;
                self.handshakes = m.handshakes + 1;
                OpenAction::Handshake
            },
            (Stage::Dialing, OpenEvent::ConnectFailed) => self.fail(OpenFailure::Connect),
            (Stage::Handshaking, OpenEvent::HandshakeOk) => self.begin_auth(),
            (Stage::Handshaking, OpenEvent::HandshakeFailed { banner }) => {
                if banner && m.handshakes < MAX_HANDSHAKES && m.password_tries == 0 {
                    self.stage = Stage::Dialing;
                    OpenAction::Redial { pause_ms: REDIAL_PAUSE_MS }
                } else {
                    self.fail(OpenFailure::Handshake)
                }
            },
            (Stage::Authenticating, OpenEvent::AuthOk) => {
                self.stage = Stage::CheckingAuth;
                OpenAction::CheckAuth
            },
            (Stage::Authenticating, OpenEvent::AuthFailed { new_transport }) => {
                if m.credentials == Credentials::Password {
                    if new_transport && m.password_tries < MAX_PASSWORD_TRIES {
                        self.stage = Stage::Dialing;
                        self.handshakes = 0;
                        OpenAction::Redial { pause_ms: REDIAL_PAUSE_MS }
                    } else {
                        self.fail(OpenFailure::PasswordRejected)
                    }
                } else {
                    self.fail(OpenFailure::KeyRejected)
                }
            },
            (Stage::CheckingAuth, OpenEvent::AuthChecked { authenticated }) => {
                if authenticated {
                    let v = if m.network_hint {
                        SetupVariant::Network
                    } else {
                        SetupVariant::Standard
                    };
                    self.stage = Stage::SettingUp(v);
                    OpenAction::Setup(v)
                } else {
                    self.fail(OpenFailure::NotAuthenticated)
                }
            },
            (Stage::SettingUp(_), OpenEvent::SetupOk) => {
                self.stage = Stage::Ready;
                OpenAction::Finish
            },
            (Stage::SettingUp(v), OpenEvent::SetupFailed) => {
                let next = if m.network_hint {
                    None
                } else {
                    match v {
                        SetupVariant::Standard => Some(SetupVariant::Unix),
                        SetupVariant::Unix => Some(SetupVariant::Network),
                        SetupVariant::Network => None,
                    }
                };
                match next {
                    Some(n) => {
                        self.stage = Stage::SettingUp(n);
                        OpenAction::Setup(n)
                    },
                    None => self.fail(OpenFailure::Setup),
                }
            },
            _ => OpenAction::Nothing,
        }
    }

    fn fail(&mut self, why: OpenFailure) -> (r: OpenAction)
        requires
            old(self).wf(),
        ensures
            final(self).wf(),
            (*final(self), r) == failed(*old(self), why),
    {
        self.stage = Stage::Failed;
        OpenAction::Fail(why)
    }

    fn begin_auth(&mut self) -> (r: OpenAction)
        requires
            old(self).wf(),
            old(self).stage == Stage::Handshaking,
        ensures
            final(self).wf(),
            (*final(self), r) == start_auth(*old(self)),
    {
        match self.credentials {
            Credentials::Password => {
                self.stage = Stage::Authenticating;
                self.password_tries = self.password_tries + 1;
                OpenAction::AuthPassword
            },
            Credentials::PemKey => {
                self.stage = Stage::Authenticating;
                OpenAction::AuthKey
            },
            Credentials::UnsupportedKey => self.fail(OpenFailure::UnsupportedKey),
            Credentials::Missing => self.fail(OpenFailure::NoAuthMethod),
        }
    }
}

/// The text of a failure; `detail` is what the SSH library said, where it
/// said anything. Authentication failures start with "Authentication".
pub open spec fn failure_text(why: OpenFailure, detail: Seq<char>) -> Seq<char> {
    match why {
        OpenFailure::Connect => "Connection error: "@ + detail,
        OpenFailure::Handshake => "SSH handshake error: "@ + detail,
        OpenFailure::PasswordRejected => "Authentication error: password rejected: "@ + detail,
        OpenFailure::KeyRejected => "Authentication error: private key rejected: "@ + detail,
        OpenFailure::UnsupportedKey => "Authentication error: unsupported private key format, a PEM key is required"@,
        OpenFailure::NoAuthMethod => "Authentication error: no authentication method provided"@,
        OpenFailure::NotAuthenticated => "Authentication error: not authenticated"@,
        OpenFailure::Setup => "Channel error: "@ + detail,
    }
}

/// Builds the text of a failure.
pub fn failure_message(why: OpenFailure, detail: &str) -> (r: String)
    ensures
        r@ == failure_text(why, detail@),
{
    match why {
        OpenFailure::Connect => joined("Connection error: ", detail),
        OpenFailure::Handshake => joined("SSH handshake error: ", detail),
        OpenFailure::PasswordRejected => joined("Authentication error: password rejected: ", detail),
        OpenFailure::KeyRejected => joined("Authentication error: private key rejected: ", detail),
        OpenFailure::UnsupportedKey => "Authentication error: unsupported private key format, a PEM key is required".to_owned(),
        OpenFailure::NoAuthMethod => "Authentication error: no authentication method provided".to_owned(),
        OpenFailure::NotAuthenticated => "Authentication error: not authenticated".to_owned(),
        OpenFailure::Setup => joined("Channel error: ", detail),
    }
}

/// The failure is one of authentication.
pub open spec fn is_auth_failure(why: OpenFailure) -> bool {
    ||| why == OpenFailure::PasswordRejected
    ||| why == OpenFailure::KeyRejected
    ||| why == OpenFailure::UnsupportedKey
    ||| why == OpenFailure::NoAuthMethod
    ||| why == OpenFailure::NotAuthenticated
}

/// The text of every authentication failure holds "Authentication".
pub proof fn lemma_auth_failure_text(why: OpenFailure, detail: Seq<char>)
    requires
        is_auth_failure(why),
    ensures
        contains_seq(failure_text(why, detail), "Authentication"@),
{
    reveal_strlit("Authentication");
    reveal_strlit("Authentication error: password rejected: ");
    reveal_strlit("Authentication error: private key rejected: ");
    reveal_strlit("Authentication error: unsupported private key format, a PEM key is required");
    reveal_strlit("Authentication error: no authentication method provided");
    reveal_strlit("Authentication error: not authenticated");
    let t = failure_text(why, detail);
    let needle = "Authentication"@;
    assert(t.subrange(0, 0 + needle.len() as int) =~= needle);
}

/// The ladder fed `events` one by one from `m`: the final machine and the
/// actions named along the way.
pub open spec fn run(m: OpenMachine, events: Seq<OpenEvent>) -> (OpenMachine, Seq<OpenAction>)
    decreases events.len(),
{
    if events.len() == 0 {
        (m, Seq::empty())
    } else {
        let (next, action) = transition(m, events[0]);
        let (last, rest) = run(next, events.drop_first());
        (last, seq![action] + rest)
    }
}

/// A ladder for the given credentials and hint, about to dial.
pub open spec fn fresh_machine(credentials: Credentials, network_hint: bool) -> OpenMachine {
    OpenMachine { stage: Stage::Dialing, handshakes: 0, password_tries: 0, credentials, network_hint }
}

/// Banner retry: two banner-class handshake failures are each followed by a
/// pause and a new dial, and a third good handshake goes on to
/// authentication and a ready session; a third banner-class failure ends
/// the ladder with a handshake failure.
pub proof fn lemma_banner_retry(network_hint: bool)
    ensures
        run(
            fresh_machine(Credentials::Password, network_hint),
            seq![
                OpenEvent::Connected,
                OpenEvent::HandshakeFailed { banner: true },
                OpenEvent::Connected,
                OpenEvent::HandshakeFailed { banner: true },
                OpenEvent::Connected,
                OpenEvent::HandshakeOk,
                OpenEvent::AuthOk,
                OpenEvent::AuthChecked { authenticated: true },
                OpenEvent::SetupOk,
            ],
        ).1 == seq![
            OpenAction::Handshake,
            OpenAction::Redial { pause_ms: REDIAL_PAUSE_MS },
            OpenAction::Handshake,
            OpenAction::Redial { pause_ms: REDIAL_PAUSE_MS },
            OpenAction::Handshake,
            OpenAction::AuthPassword,
            OpenAction::CheckAuth,
            OpenAction::Setup(first_variant(network_hint)),
            OpenAction::Finish,
        ],
        run(
            fresh_machine(Credentials::Password, network_hint),
            seq![
                OpenEvent::Connected,
                OpenEvent::HandshakeFailed { banner: true },
                OpenEvent::Connected,
                OpenEvent::HandshakeFailed { banner: true },
                OpenEvent::Connected,
                OpenEvent::HandshakeFailed { banner: true },
            ],
        ).1 == seq![
            OpenAction::Handshake,
            OpenAction::Redial { pause_ms: REDIAL_PAUSE_MS },
            OpenAction::Handshake,
            OpenAction::Redial { pause_ms: REDIAL_PAUSE_MS },
            OpenAction::Handshake,
            OpenAction::Fail(OpenFailure::Handshake),
        ],
{
    reveal_with_fuel(run, 10);
    let ok = run(
        fresh_machine(Credentials::Password, network_hint),
        seq![
            OpenEvent::Connected,
            OpenEvent::HandshakeFailed { banner: true },
            OpenEvent::Connected,
            OpenEvent::HandshakeFailed { banner: true },
            OpenEvent::Connected,
            OpenEvent::HandshakeOk,
            OpenEvent::AuthOk,
            OpenEvent::AuthChecked { authenticated: true },
            OpenEvent::SetupOk,
        ],
    );
    assert(ok.1 =~= seq![
        OpenAction::Handshake,
        OpenAction::Redial { pause_ms: REDIAL_PAUSE_MS },
        OpenAction::Handshake,
        OpenAction::Redial { pause_ms: REDIAL_PAUSE_MS },
        OpenAction::Handshake,
        OpenAction::AuthPassword,
        OpenAction::CheckAuth,
        OpenAction::Setup(first_variant(network_hint)),
        OpenAction::Finish,
    ]);
    let bad = run(
        fresh_machine(Credentials::Password, network_hint),
        seq![
            OpenEvent::Connected,
            OpenEvent::HandshakeFailed { banner: true },
            OpenEvent::Connected,
            OpenEvent::HandshakeFailed { banner: true },
            OpenEvent::Connected,
            OpenEvent::HandshakeFailed { banner: true },
        ],
    );
    assert(bad.1 =~= seq![
        OpenAction::Handshake,
        OpenAction::Redial { pause_ms: REDIAL_PAUSE_MS },
        OpenAction::Handshake,
        OpenAction::Redial { pause_ms: REDIAL_PAUSE_MS },
        OpenAction::Handshake,
        OpenAction::Fail(OpenFailure::Handshake),
    ]);
}

/// A machine that has just authenticated.
pub open spec fn authenticated_machine(credentials: Credentials, network_hint: bool) -> OpenMachine {
    OpenMachine { stage: Stage::CheckingAuth, handshakes: 1, password_tries: 1, credentials, network_hint }
}

/// Device-class fallback without a network hint: standard, then Unix, then
/// network are tried in that order; the first that succeeds is used, and
/// the ladder fails only once all three have failed.
pub proof fn lemma_fallback_order(credentials: Credentials)
    ensures
        run(
            authenticated_machine(credentials, false),
            seq![OpenEvent::AuthChecked { authenticated: true }, OpenEvent::SetupFailed, OpenEvent::SetupOk],
        ).1 == seq![
            OpenAction::Setup(SetupVariant::Standard),
            OpenAction::Setup(SetupVariant::Unix),
            OpenAction::Finish,
        ],
        run(
            authenticated_machine(credentials, false),
            seq![
                OpenEvent::AuthChecked { authenticated: true },
                OpenEvent::SetupFailed,
                OpenEvent::SetupFailed,
                OpenEvent::SetupFailed,
            ],
        ).1 == seq![
            OpenAction::Setup(SetupVariant::Standard),
            OpenAction::Setup(SetupVariant::Unix),
            OpenAction::Setup(SetupVariant::Network),
            OpenAction::Fail(OpenFailure::Setup),
        ],
{
    reveal_with_fuel(run, 5);
    let first = run(
        authenticated_machine(credentials, false),
        seq![OpenEvent::AuthChecked { authenticated: true }, OpenEvent::SetupFailed, OpenEvent::SetupOk],
    );
    assert(first.1 =~= seq![
        OpenAction::Setup(SetupVariant::Standard),
        OpenAction::Setup(SetupVariant::Unix),
        OpenAction::Finish,
    ]);
    let all = run(
        authenticated_machine(credentials, false),
        seq![
            OpenEvent::AuthChecked { authenticated: true },
            OpenEvent::SetupFailed,
            OpenEvent::SetupFailed,
            OpenEvent::SetupFailed,
        ],
    );
    assert(all.1 =~= seq![
        OpenAction::Setup(SetupVariant::Standard),
        OpenAction::Setup(SetupVariant::Unix),
        OpenAction::Setup(SetupVariant::Network),
        OpenAction::Fail(OpenFailure::Setup),
    ]);
}

/// Device-class fallback with a network hint: only the network variant is
/// tried.
pub proof fn lemma_network_hint_only(credentials: Credentials)
    ensures
        run(
            authenticated_machine(credentials, true),
            seq![OpenEvent::AuthChecked { authenticated: true }, OpenEvent::SetupFailed],
        ).1 == seq![OpenAction::Setup(SetupVariant::Network), OpenAction::Fail(OpenFailure::Setup)],
        run(
            authenticated_machine(credentials, true),
            seq![OpenEvent::AuthChecked { authenticated: true }, OpenEvent::SetupOk],
        ).1 == seq![OpenAction::Setup(SetupVariant::Network), OpenAction::Finish],
{
    reveal_with_fuel(run, 3);
    let failing = run(
        authenticated_machine(credentials, true),
        seq![OpenEvent::AuthChecked { authenticated: true }, OpenEvent::SetupFailed],
    );
    assert(failing.1 =~= seq![OpenAction::Setup(SetupVariant::Network), OpenAction::Fail(OpenFailure::Setup)]);
    let working = run(
        authenticated_machine(credentials, true),
        seq![OpenEvent::AuthChecked { authenticated: true }, OpenEvent::SetupOk],
    );
    assert(working.1 =~= seq![OpenAction::Setup(SetupVariant::Network), OpenAction::Finish]);
}

} // verus!
