//! The local `dsh web` server: its address, the probe for token authentication, and the
//! state the app keeps about the server process, with the decisions taken on its events.

use vstd::prelude::*;
use vstd::string::StringExecFns;
use crate::text::{chars_of, chars_start_with, decode_utf8_lossy, push_char, starts_with, utf8_lossy};

verus! {

/// The port that `dsh web` serves on.
pub const PORT: u16 = 3080;

/// The decimal digit for `d` (which is below 10).
pub open spec fn digit_char(d: int) -> char {
    seq!['0', '1', '2', '3', '4', '5', '6', '7', '8', '9'][d]
}

/// The decimal representation of `n`, without leading zeros.
pub open spec fn decimal(n: nat) -> Seq<char>
    decreases n,
{
    if n < 10 {
        seq![digit_char(n as int)]
    } else {
        decimal(n / 10).push(digit_char((n % 10) as int))
    }
}

/// Appends the decimal representation of `n` to `s`.
fn push_decimal(s: &mut String, n: u64)
    ensures
        final(s)@ == old(s)@ + decimal(n as nat),
    decreases n,
{
    let digits = ['0', '1', '2', '3', '4', '5', '6', '7', '8', '9'];
    assert(digits@ =~= seq!['0', '1', '2', '3', '4', '5', '6', '7', '8', '9']);
    if n < 10 {
        push_char(s, digits[n as usize]);
        assert(old(s)@.push(digit_char(n as int)) =~= old(s)@ + decimal(n as nat));
    } else {
        push_decimal(s, n / 10);
        push_char(s, digits[(n % 10) as usize]);
        assert((old(s)@ + decimal((n / 10) as nat)).push(digit_char((n % 10) as int)) =~= old(s)@
            + decimal(n as nat));
    }
}

/// The decimal representation of `n`.
pub fn decimal_string(n: u64) -> (r: String)
    ensures
        r@ == decimal(n as nat),
{
    let mut s = String::new();
    push_decimal(&mut s, n);
    assert(Seq::<char>::empty() + decimal(n as nat) =~= decimal(n as nat));
    s
}

/// The address of the local server, `http://127.0.0.1:3080`.
pub open spec fn base_url() -> Seq<char> {
    "http://127.0.0.1:"@ + decimal(PORT as nat)
}

/// The address of the local server.
pub fn url() -> (r: String)
    ensures
        r@ == base_url(),
{
    let mut s = String::from_str("http://127.0.0.1:");
    push_decimal(&mut s, PORT as u64);
    s
}

/// The request that asks the server whether it wants token authentication.
pub open spec fn probe_request_text() -> Seq<char> {
    "GET / HTTP/1.1\r\nHost: 127.0.0.1:"@ + decimal(PORT as nat)
        + "\r\nConnection: close\r\n\r\n"@
}

/// The request that asks the server whether it wants token authentication: a plain
/// `GET /` that closes the connection.
pub fn probe_request() -> (r: String)
    ensures
        r@ == probe_request_text(),
{
    let mut s = String::from_str("GET / HTTP/1.1\r\nHost: 127.0.0.1:");
    push_decimal(&mut s, PORT as u64);
    s.append("\r\nConnection: close\r\n\r\n");
    s
}

/// Whether a reply head is a 401 status line: the new `dsh web` answers 401 to a plain
/// `GET /`, older versions serve the app.
pub fn is_unauthorized_head(head: &str) -> (b: bool)
    ensures
        b == (starts_with(head@, "HTTP/1.1 401"@) || starts_with(head@, "HTTP/1.0 401"@)),
{
    let c = chars_of(head);
    chars_start_with(&c, "HTTP/1.1 401") || chars_start_with(&c, "HTTP/1.0 401")
}

/// Whether the first bytes of the server's reply, decoded leniently, are a 401 status line.
pub fn is_unauthorized_reply(head: &[u8]) -> (b: bool)
    ensures
        b == (starts_with(utf8_lossy(head@), "HTTP/1.1 401"@) || starts_with(
            utf8_lossy(head@),
            "HTTP/1.0 401"@,
        )),
{
    let text = decode_utf8_lossy(head);
    is_unauthorized_head(text.as_str())
}

/// What the UI is told about the server.
pub struct Status {
    pub running: bool,
    pub port: u16,
    pub url: String,
    /// A foreign `dsh web` holds the port but its launch token cannot be known, so the app
    /// cannot embed it.
    pub needs_auth: bool,
}

/// An event the UI hears about the server becoming usable.
pub enum ServerEvent {
    /// The server is ready at this address.
    Ready(String),
    /// The server wants a launch token that the app does not have.
    AuthError,
}

/// What the readiness poller does after one look at the port.
#[derive(PartialEq, Eq, Structural, Clone, Copy, Debug)]
pub enum PollAction {
    /// The port answers: announce the server.
    PortOpen,
    /// The process is gone before the port opened: stop polling.
    Abandon,
    /// The deadline passed: report a timeout.
    TimedOut,
    /// Look again after a pause.
    Wait,
}

/// The state the app keeps about the server: the process it launched, and the authenticated
/// URL (with `?token=`) read from that process's output.
pub struct ServerState {
    pid: Option<u32>,
    auth_url: Option<String>,
}

/// The characters of an optional string.
pub open spec fn opt_chars(o: Option<String>) -> Option<Seq<char>> {
    match o {
        Some(s) => Some(s@),
        None => None,
    }
}

/// The address to open: the authenticated URL when one was captured, the plain address
/// otherwise.
pub open spec fn ready_url_of(auth: Option<Seq<char>>) -> Seq<char> {
    match auth {
        Some(u) => u,
        None => base_url(),
    }
}

impl ServerState {
    /// The process the app launched, if any.
    pub closed spec fn owned_pid(&self) -> Option<u32> {
        self.pid
    }

    /// The captured authenticated URL, if any.
    pub closed spec fn captured_url(&self) -> Option<Seq<char>> {
        opt_chars(self.auth_url)
    }

    /// No process launched and no URL captured.
    pub fn new() -> (r: Self)
        ensures
            r.owned_pid() is None,
            r.captured_url() is None,
    {
        ServerState { pid: None, auth_url: None }
    }

    /// The process the app launched, if any.
    pub fn pid(&self) -> (r: Option<u32>)
        ensures
            r == self.owned_pid(),
    {
        self.pid
    }

    /// Whether the app runs the server itself.
    pub fn is_owned(&self) -> (b: bool)
        ensures
            b == self.owned_pid() is Some,
    {
        self.pid.is_some()
    }

    /// Whether an authenticated URL was captured.
    pub fn has_token(&self) -> (b: bool)
        ensures
            b == self.captured_url() is Some,
    {
        self.auth_url.is_some()
    }

    /// Records the process just launched.
    pub fn record_spawn(&mut self, pid: u32)
        ensures
            final(self).owned_pid() == Some(pid),
            final(self).captured_url() == old(self).captured_url(),
    {
        self.pid = Some(pid);
    }

    /// Records the authenticated URL read from the server's output.
    pub fn record_launch_url(&mut self, url: String)
        ensures
            final(self).captured_url() == Some(url@),
            final(self).owned_pid() == old(self).owned_pid(),
    {
        self.auth_url = Some(url);
    }

    /// Stops tracking the launched process, which the caller then kills. Returns it; when
    /// there was one, the captured URL is forgotten too.
    pub fn stop(&mut self) -> (r: Option<u32>)
        ensures
            r == old(self).owned_pid(),
            final(self).owned_pid() is None,
            final(self).captured_url() == (if r is Some {
                None
            } else {
                old(self).captured_url()
            }),
    {
        let pid = self.pid.take();
        if pid.is_some() {
            self.auth_url = None;
        }
        pid
    }

    /// The launched process has exited. The `dsh web` launcher can exit once its server is
    /// up, so an exit while the port still serves is no shutdown and changes nothing;
    /// otherwise the state is cleared. Returns whether it was (and the exit is to be
    /// announced).
    pub fn process_exited(&mut self, port_open: bool) -> (cleared: bool)
        ensures
            cleared == !port_open,
            port_open ==> final(self).owned_pid() == old(self).owned_pid()
                && final(self).captured_url() == old(self).captured_url(),
            !port_open ==> final(self).owned_pid() is None && final(self).captured_url() is None,
    {
        if port_open {
            return false;
        }
        self.pid = None;
        self.auth_url = None;
        true
    }

    /// The address to open: the captured authenticated URL, or the plain address.
    pub fn ready_url(&self) -> (r: String)
        ensures
            r@ == ready_url_of(self.captured_url()),
    {
        match &self.auth_url {
            Some(u) => u.clone(),
            None => url(),
        }
    }

    /// Whether the server's need for a token is unknown: no URL was captured and the app
    /// does not run the server, so only asking the port can tell.
    pub fn auth_unknown(&self) -> (b: bool)
        ensures
            b == (self.captured_url() is None && self.owned_pid() is None),
    {
        self.auth_url.is_none() && self.pid.is_none()
    }

    /// The status for the UI. `port_wants_token` is what the port answered (whether it
    /// serves and replies 401 to a plain request); it counts only while the need for a token
    /// is unknown.
    pub fn status(&self, running: bool, port_wants_token: bool) -> (s: Status)
        ensures
            s.running == running,
            s.port == PORT,
            s.url@ == ready_url_of(self.captured_url()),
            s.needs_auth == (self.captured_url() is None && self.owned_pid() is None
                && port_wants_token),
    {
        let needs_auth = self.auth_unknown() && port_wants_token;
        Status { running, port: PORT, url: self.ready_url(), needs_auth }
    }

    /// What to announce once the port answers: an authentication error when the address is
    /// the plain one and the server wants a token, the ready address otherwise.
    pub fn ready_event(&self, port_wants_token: bool) -> (e: ServerEvent)
        ensures
            e matches ServerEvent::Ready(u) ==> u@ == ready_url_of(self.captured_url()),
            e is AuthError <==> (ready_url_of(self.captured_url()) == base_url()
                && port_wants_token),
    {
        let u = self.ready_url();
        let plain = url();
        if u == plain && port_wants_token {
            ServerEvent::AuthError
        } else {
            ServerEvent::Ready(u)
        }
    }
}

/// What to announce when an already serving port is reused: an authentication error when it
/// needs a token the app lacks, the address otherwise.
pub fn reuse_event(status: &Status) -> (e: ServerEvent)
    ensures
        e is AuthError <==> status.needs_auth,
        e matches ServerEvent::Ready(u) ==> u@ == status.url@,
{
    if status.needs_auth {
        ServerEvent::AuthError
    } else {
        ServerEvent::Ready(status.url.clone())
    }
}

/// What starting the server does.
#[derive(PartialEq, Eq, Structural, Clone, Copy, Debug)]
pub enum StartAction {
    /// The app already runs the server: report its status.
    AlreadyRunning,
    /// Another server (such as the user's own `dsh web`) already serves the port: reuse it
    /// rather than launch a duplicate that would fail to bind.
    ReuseServing,
    /// Launch `dsh web`.
    Launch,
}

/// How to start the server, given whether the app runs it and whether the port serves
/// (which is asked only when the app does not run it).
pub fn start_action(owned: bool, port_open: bool) -> (a: StartAction)
    ensures
        a == (if owned {
            StartAction::AlreadyRunning
        } else if port_open {
            StartAction::ReuseServing
        } else {
            StartAction::Launch
        }),
{
    if owned {
        StartAction::AlreadyRunning
    } else if port_open {
        StartAction::ReuseServing
    } else {
        StartAction::Launch
    }
}

/// One step of the readiness poller: the port answering wins; otherwise polling ends when
/// the launched process is gone, and reports a timeout past the deadline.
pub fn poll_step(port_open: bool, owned: bool, past_deadline: bool) -> (a: PollAction)
    ensures
        a == (if port_open {
            PollAction::PortOpen
        } else if !owned {
            PollAction::Abandon
        } else if past_deadline {
            PollAction::TimedOut
        } else {
            PollAction::Wait
        }),
{
    if port_open {
        PollAction::PortOpen
    } else if !owned {
        PollAction::Abandon
    } else if past_deadline {
        PollAction::TimedOut
    } else {
        PollAction::Wait
    }
}

/// Whether the grace period for capturing the launch token is over: the token arrived, the
/// server turned out not to want one (an older, auth-free version), or time ran out.
pub fn token_wait_over(has_token: bool, port_wants_token: bool, past_deadline: bool) -> (b: bool)
    ensures
        b == (has_token || !port_wants_token || past_deadline),
{
    has_token || !port_wants_token || past_deadline
}

/// Whether the server counts as running after a stop: not when the app stopped its own
/// process; when it owned none, whether the port (a reused server) still serves.
pub fn running_after_stop(stopped_own: bool, port_open: bool) -> (b: bool)
    ensures
        b == (!stopped_own && port_open),
{
    !stopped_own && port_open
}

} // verus!
