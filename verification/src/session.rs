//! The per-connection session driver of RFC 1928: a state machine from
//! protocol events to the bytes owed to the client and the action the
//! connection handler must take next. All I/O stays with the caller;
//! the machine only decides.

use vstd::prelude::*;
use vstd::string::StrSliceExecFns;
use vstd::utf8::encode_utf8;
use vstd::utf8::encode_utf8_decode_utf8;

use crate::error::IoErrorKind;
use crate::protocol::addr::Address;
use crate::protocol::addr::AddressView;
use crate::protocol::addr::IpAddress;
use crate::protocol::cmd::Command;
use crate::protocol::handreq::HandshakeRequest;
use crate::protocol::handresp::HandshakeResponse;
use crate::protocol::method::AuthMethod;
use crate::protocol::rep::ReplyField;
use crate::protocol::rep_resp::ReplyResponse;
use crate::protocol::rep_resp::ReplyResponseView;
use crate::protocol::tellreq::TellRequest;
use crate::protocol::tellreq::TellRequestView;
use crate::protocol::upauth::UsernamePasswordAuth;
use crate::protocol::upauth::UsernamePasswordAuthView;
use crate::protocol::upauthret::UsernamePasswordAuthResult;

verus! {

/// Where a session stands. `Closed` is terminal: no event is admitted
/// there, and every transition into it closes the client stream.
#[derive(Debug, Clone, Copy, PartialEq, Eq, Structural)]
pub enum SessionState {
    /// Nothing read yet.
    Init,
    /// Method selection sent; a username/password subnegotiation is owed.
    Greeted,
    /// Negotiation done; the request PDU is owed.
    AuthNegotiated,
    /// Request read; the destination is being resolved.
    Commanded,
    /// Outbound TCP connect in flight.
    Connecting,
    /// UDP relay sockets being set up.
    UdpAssociating,
    /// The data plane is running.
    Relaying,
    /// Terminal: the client stream is closed.
    Closed,
}

/// What the connection handler must do after a step.
#[derive(Debug)]
pub enum Directive {
    /// Nothing beyond writing the step's output; keep reading.
    Continue,
    /// Resolve this destination to a concrete socket address.
    Resolve(Address),
    /// Open an outbound TCP connection to this address.
    ConnectTo(IpAddress, u16),
    /// Set up the UDP relay toward this address.
    UdpOpen(IpAddress, u16),
    /// Close the client stream; the session is over.
    Close,
}

/// The mathematical value of a [`Directive`].
pub enum DirectiveView {
    Continue,
    Resolve(AddressView),
    ConnectTo(IpAddress, u16),
    UdpOpen(IpAddress, u16),
    Close,
}

impl View for Directive {
    type V = DirectiveView;

    open spec fn view(&self) -> DirectiveView {
        match self {
            Directive::Continue => DirectiveView::Continue,
            Directive::Resolve(a) => DirectiveView::Resolve(a@),
            Directive::ConnectTo(ip, port) => DirectiveView::ConnectTo(*ip, *port),
            Directive::UdpOpen(ip, port) => DirectiveView::UdpOpen(*ip, *port),
            Directive::Close => DirectiveView::Close,
        }
    }
}

/// One protocol event, as the connection handler observes it: a decoded
/// PDU from the client, or the outcome of an action it was directed to
/// take.
pub enum SessionEvent {
    /// The client's greeting was read and decoded.
    Greeting(HandshakeRequest),
    /// The client's credentials were read and decoded.
    Auth(UsernamePasswordAuth),
    /// The request PDU was read and decoded.
    Request(TellRequest),
    /// Name resolution finished, with the concrete address or the error.
    Resolved(Result<(IpAddress, u16), IoErrorKind>),
    /// The outbound TCP connect finished; on success, the bound address.
    ConnectOutcome(Result<(IpAddress, u16), IoErrorKind>),
    /// UDP relay setup finished; on success, the client-facing local
    /// address.
    UdpOutcome(Result<(IpAddress, u16), IoErrorKind>),
    /// The data plane terminated, cleanly or not.
    RelayEnd,
    /// A malformed frame or an I/O error on the control stream: close
    /// with no reply.
    Abort,
}

/// The mathematical value of a [`SessionEvent`].
pub enum SessionEventView {
    Greeting(Seq<AuthMethod>),
    Auth(UsernamePasswordAuthView),
    Request(TellRequestView),
    Resolved(Result<(IpAddress, u16), IoErrorKind>),
    ConnectOutcome(Result<(IpAddress, u16), IoErrorKind>),
    UdpOutcome(Result<(IpAddress, u16), IoErrorKind>),
    RelayEnd,
    Abort,
}

impl View for SessionEvent {
    type V = SessionEventView;

    open spec fn view(&self) -> SessionEventView {
        match self {
            SessionEvent::Greeting(m) => SessionEventView::Greeting(m@),
            SessionEvent::Auth(a) => SessionEventView::Auth(a@),
            SessionEvent::Request(t) => SessionEventView::Request(t@),
            SessionEvent::Resolved(o) => SessionEventView::Resolved(*o),
            SessionEvent::ConnectOutcome(o) => SessionEventView::ConnectOutcome(*o),
            SessionEvent::UdpOutcome(o) => SessionEventView::UdpOutcome(*o),
            SessionEvent::RelayEnd => SessionEventView::RelayEnd,
            SessionEvent::Abort => SessionEventView::Abort,
        }
    }
}

/// What a step hands back: the bytes owed to the client (possibly
/// none), and the action to take next.
pub struct Step {
    pub output: Vec<u8>,
    pub next: Directive,
}

/// The mathematical value of a [`Session`].
pub struct SessionView {
    pub state: SessionState,
    pub creds: Option<UsernamePasswordAuthView>,
    pub method: AuthMethod,
    pub cmd: Option<Command>,
    pub dest: Option<AddressView>,
}

/// The unspecified `0.0.0.0:0`, carried by every failure reply.
pub open spec fn spec_default_addr() -> AddressView {
    AddressView::IP(IpAddress::V4(0, 0, 0, 0), 0)
}

/// The method-selection policy: username/password if it is configured
/// and offered, else no authentication if offered, else no acceptable
/// method, which ends the session.
pub open spec fn spec_negotiate(has_creds: bool, offered: Seq<AuthMethod>) -> AuthMethod {
    if has_creds && offered.contains(AuthMethod::UsernameOrPassword) {
        AuthMethod::UsernameOrPassword
    } else if offered.contains(AuthMethod::NoAuthenticationRequired) {
        AuthMethod::NoAuthenticationRequired
    } else {
        AuthMethod::NoAcceptableMethods
    }
}

/// The per-connection session driver. It owns no sockets: the
/// connection handler reads, writes, connects and closes exactly as the
/// steps direct.
pub struct Session {
    state: SessionState,
    creds: Option<UsernamePasswordAuth>,
    method: AuthMethod,
    cmd: Option<Command>,
    dest: Option<Address>,
}

impl View for Session {
    type V = SessionView;

    closed spec fn view(&self) -> SessionView {
        SessionView {
            state: self.state,
            creds: match &self.creds {
                None => None,
                Some(c) => Some(c@),
            },
            method: self.method,
            cmd: self.cmd,
            dest: match &self.dest {
                None => None,
                Some(d) => Some(d@),
            },
        }
    }
}

impl Session {
    /// The state-dependent facts every reachable session satisfies.
    pub open spec fn inv(v: SessionView) -> bool {
        &&& (v.state is Greeted ==> v.method == AuthMethod::UsernameOrPassword && v.creds
            is Some)
        &&& (v.state is Commanded ==> v.cmd is Some && v.dest is Some)
    }

    /// Which events a state admits.
    pub open spec fn admits(v: SessionView, ev: SessionEventView) -> bool {
        match ev {
            SessionEventView::Greeting(_) => v.state is Init,
            SessionEventView::Auth(_) => v.state is Greeted,
            SessionEventView::Request(_) => v.state is AuthNegotiated,
            SessionEventView::Resolved(_) => v.state is Commanded,
            SessionEventView::ConnectOutcome(_) => v.state is Connecting,
            SessionEventView::UdpOutcome(_) => v.state is UdpAssociating,
            SessionEventView::RelayEnd => v.state is Relaying,
            SessionEventView::Abort => !(v.state is Closed),
        }
    }

    /// The transition function: the session after the event, the bytes
    /// owed to the client, and the action to take.
    pub open spec fn spec_step(v: SessionView, ev: SessionEventView) -> (
        SessionView,
        Seq<u8>,
        DirectiveView,
    ) {
        match ev {
            SessionEventView::Greeting(offered) => {
                let chosen = spec_negotiate(v.creds is Some, offered);
                let out = HandshakeResponse::spec_bytes(chosen);
                if chosen is UsernameOrPassword {
                    (
                        SessionView { state: SessionState::Greeted, method: chosen, ..v },
                        out,
                        DirectiveView::Continue,
                    )
                } else if chosen is NoAuthenticationRequired {
                    (
                        SessionView { state: SessionState::AuthNegotiated, method: chosen, ..v },
                        out,
                        DirectiveView::Continue,
                    )
                } else {
                    (
                        SessionView { state: SessionState::Closed, method: chosen, ..v },
                        out,
                        DirectiveView::Close,
                    )
                }
            },
            SessionEventView::Auth(auth) => {
                let ok = v.creds matches Some(c) && c.uname == auth.uname && c.passwd
                    == auth.passwd;
                if ok {
                    (
                        SessionView { state: SessionState::AuthNegotiated, ..v },
                        UsernamePasswordAuthResult::Succeeded.spec_bytes(),
                        DirectiveView::Continue,
                    )
                } else {
                    (
                        SessionView { state: SessionState::Closed, ..v },
                        UsernamePasswordAuthResult::Failure.spec_bytes(),
                        DirectiveView::Close,
                    )
                }
            },
            SessionEventView::Request(req) => (
                SessionView {
                    state: SessionState::Commanded,
                    cmd: Some(req.cmd),
                    dest: Some(req.addr),
                    ..v
                },
                Seq::empty(),
                DirectiveView::Resolve(req.addr),
            ),
            SessionEventView::Resolved(outcome) => match outcome {
                Err(_) => (
                    SessionView { state: SessionState::Closed, ..v },
                    Seq::empty(),
                    DirectiveView::Close,
                ),
                Ok((ip, port)) => match v.cmd->Some_0 {
                    Command::Connect => (
                        SessionView { state: SessionState::Connecting, ..v },
                        Seq::empty(),
                        DirectiveView::ConnectTo(ip, port),
                    ),
                    Command::UdpAssociate => (
                        SessionView { state: SessionState::UdpAssociating, ..v },
                        Seq::empty(),
                        DirectiveView::UdpOpen(ip, port),
                    ),
                    Command::Bind => (
                        SessionView { state: SessionState::Closed, ..v },
                        ReplyResponse::spec_bytes(
                            ReplyResponseView {
                                rep: ReplyField::CommandNotSupported,
                                addr: spec_default_addr(),
                            },
                        ),
                        DirectiveView::Close,
                    ),
                },
            },
            SessionEventView::ConnectOutcome(outcome) => match outcome {
                Ok((ip, port)) => (
                    SessionView { state: SessionState::Relaying, ..v },
                    ReplyResponse::spec_bytes(
                        ReplyResponseView {
                            rep: ReplyField::Succeeded,
                            addr: AddressView::IP(ip, port),
                        },
                    ),
                    DirectiveView::Continue,
                ),
                Err(kind) => (
                    SessionView { state: SessionState::Closed, ..v },
                    ReplyResponse::spec_bytes(
                        ReplyResponseView {
                            rep: ReplyField::spec_for_io_error(kind, Command::Connect),
                            addr: spec_default_addr(),
                        },
                    ),
                    DirectiveView::Close,
                ),
            },
            SessionEventView::UdpOutcome(outcome) => match outcome {
                Ok((ip, port)) => (
                    SessionView { state: SessionState::Relaying, ..v },
                    ReplyResponse::spec_bytes(
                        ReplyResponseView {
                            rep: ReplyField::Succeeded,
                            addr: AddressView::IP(ip, port),
                        },
                    ),
                    DirectiveView::Continue,
                ),
                Err(kind) => (
                    SessionView { state: SessionState::Closed, ..v },
                    ReplyResponse::spec_bytes(
                        ReplyResponseView {
                            rep: ReplyField::spec_for_io_error(kind, Command::UdpAssociate),
                            addr: spec_default_addr(),
                        },
                    ),
                    DirectiveView::Close,
                ),
            },
            SessionEventView::RelayEnd => (
                SessionView { state: SessionState::Closed, ..v },
                Seq::empty(),
                DirectiveView::Close,
            ),
            SessionEventView::Abort => (
                SessionView { state: SessionState::Closed, ..v },
                Seq::empty(),
                DirectiveView::Close,
            ),
        }
    }

    /// A fresh session, optionally configured with the credentials that
    /// username/password authentication checks against.
    pub fn new(creds: Option<UsernamePasswordAuth>) -> (r: Session)
        ensures
            r@.state is Init,
            r@.creds == (match creds {
                None => None,
                Some(c) => Some::<UsernamePasswordAuthView>(c@),
            }),
            Session::inv(r@),
    {
        Session {
            state: SessionState::Init,
            creds,
            method: AuthMethod::NoAcceptableMethods,
            cmd: None,
            dest: None,
        }
    }

    /// Where the session stands.
    pub fn state(&self) -> (r: SessionState)
        ensures
            r == self@.state,
    {
        self.state
    }

    /// Drive the session by one event.
    pub fn handle(&mut self, ev: SessionEvent) -> (r: Step)
        requires
            Session::inv(old(self)@),
            Session::admits(old(self)@, ev@),
        ensures
            Session::inv(final(self)@),
            final(self)@ == Session::spec_step(old(self)@, ev@).0,
            r.output@ == Session::spec_step(old(self)@, ev@).1,
            r.next@ == Session::spec_step(old(self)@, ev@).2,
    {
        match ev {
            SessionEvent::Greeting(req) => {
                let offered = req.methods();
                let chosen = if self.creds.is_some() && contains_method(
                    &offered,
                    AuthMethod::UsernameOrPassword,
                ) {
                    AuthMethod::UsernameOrPassword
                } else if contains_method(&offered, AuthMethod::NoAuthenticationRequired) {
                    AuthMethod::NoAuthenticationRequired
                } else {
                    AuthMethod::NoAcceptableMethods
                };
                let output = HandshakeResponse::new(chosen).as_bytes();
                self.method = chosen;
                match chosen {
                    AuthMethod::UsernameOrPassword => {
                        self.state = SessionState::Greeted;
                        Step { output, next: Directive::Continue }
                    },
                    AuthMethod::NoAuthenticationRequired => {
                        self.state = SessionState::AuthNegotiated;
                        Step { output, next: Directive::Continue }
                    },
                    _ => {
                        self.state = SessionState::Closed;
                        Step { output, next: Directive::Close }
                    },
                }
            },
            SessionEvent::Auth(auth) => {
                let ok = match &self.creds {
                    None => false,
                    Some(c) => {
                        let uname_ok = constant_time_eq(
                            &c.uname().as_str().as_bytes_vec(),
                            &auth.uname().as_str().as_bytes_vec(),
                        );
                        let passwd_ok = constant_time_eq(
                            &c.passwd().as_str().as_bytes_vec(),
                            &auth.passwd().as_str().as_bytes_vec(),
                        );
                        proof {
                            encode_utf8_decode_utf8(c@.uname);
                            encode_utf8_decode_utf8(auth@.uname);
                            encode_utf8_decode_utf8(c@.passwd);
                            encode_utf8_decode_utf8(auth@.passwd);
                        }
                        uname_ok && passwd_ok
                    },
                };
                if ok {
                    self.state = SessionState::AuthNegotiated;
                    Step {
                        output: UsernamePasswordAuthResult::Succeeded.as_bytes(),
                        next: Directive::Continue,
                    }
                } else {
                    self.state = SessionState::Closed;
                    Step {
                        output: UsernamePasswordAuthResult::Failure.as_bytes(),
                        next: Directive::Close,
                    }
                }
            },
            SessionEvent::Request(req) => {
                let dest = req.addr();
                self.state = SessionState::Commanded;
                self.cmd = Some(req.cmd());
                self.dest = Some(dest.clone());
                Step { output: Vec::new(), next: Directive::Resolve(dest) }
            },
            SessionEvent::Resolved(outcome) => match outcome {
                Err(_) => {
                    self.state = SessionState::Closed;
                    Step { output: Vec::new(), next: Directive::Close }
                },
                Ok((ip, port)) => match self.cmd {
                    Some(Command::Connect) => {
                        self.state = SessionState::Connecting;
                        Step { output: Vec::new(), next: Directive::ConnectTo(ip, port) }
                    },
                    Some(Command::UdpAssociate) => {
                        self.state = SessionState::UdpAssociating;
                        Step { output: Vec::new(), next: Directive::UdpOpen(ip, port) }
                    },
                    _ => {
                        self.state = SessionState::Closed;
                        let reply = ReplyResponse::new(
                            ReplyField::CommandNotSupported,
                            Address::default(),
                        );
                        Step { output: reply.as_bytes(), next: Directive::Close }
                    },
                },
            },
            SessionEvent::ConnectOutcome(outcome) => match outcome {
                Ok((ip, port)) => {
                    self.state = SessionState::Relaying;
                    let reply = ReplyResponse::new(
                        ReplyField::Succeeded,
                        Address::IP(ip, port),
                    );
                    Step { output: reply.as_bytes(), next: Directive::Continue }
                },
                Err(kind) => {
                    self.state = SessionState::Closed;
                    let reply = ReplyResponse::new(
                        ReplyField::for_io_error(kind, Command::Connect),
                        Address::default(),
                    );
                    Step { output: reply.as_bytes(), next: Directive::Close }
                },
            },
            SessionEvent::UdpOutcome(outcome) => match outcome {
                Ok((ip, port)) => {
                    self.state = SessionState::Relaying;
                    let reply = ReplyResponse::new(
                        ReplyField::Succeeded,
                        Address::IP(ip, port),
                    );
                    Step { output: reply.as_bytes(), next: Directive::Continue }
                },
                Err(kind) => {
                    self.state = SessionState::Closed;
                    let reply = ReplyResponse::new(
                        ReplyField::for_io_error(kind, Command::UdpAssociate),
                        Address::default(),
                    );
                    Step { output: reply.as_bytes(), next: Directive::Close }
                },
            },
            SessionEvent::RelayEnd => {
                self.state = SessionState::Closed;
                Step { output: Vec::new(), next: Directive::Close }
            },
            SessionEvent::Abort => {
                self.state = SessionState::Closed;
                Step { output: Vec::new(), next: Directive::Close }
            },
        }
    }
}

/// Whether the offered-method list contains the method.
fn contains_method(offered: &Vec<AuthMethod>, m: AuthMethod) -> (r: bool)
    ensures
        r == offered@.contains(m),
{
    let mut i: usize = 0;
    while i < offered.len()
        invariant
            i <= offered@.len(),
            forall|j: int| 0 <= j < i ==> offered@[j] != m,
        decreases offered@.len() - i,
    {
        if offered[i] == m {
            return true;
        }
        i = i + 1;
    }
    false
}

/// Octet-wise equality without an early exit: the whole of both inputs
/// is folded into one accumulator, so the time taken does not depend on
/// where the first difference lies. Only the lengths short-circuit.
pub fn constant_time_eq(a: &Vec<u8>, b: &Vec<u8>) -> (r: bool)
    ensures
        r == (a@ == b@),
{
    if a.len() != b.len() {
        proof {
            assert(a@ != b@);
        }
        return false;
    }
    let mut acc: u8 = 0;
    let mut i: usize = 0;
    while i < a.len()
        invariant
            i <= a@.len(),
            a@.len() == b@.len(),
            (acc == 0) <==> (forall|j: int| 0 <= j < i ==> a@[j] == b@[j]),
        decreases a@.len() - i,
    {
        let x = a[i];
        let y = b[i];
        proof {
            assert(((acc | (x ^ y)) == 0) == (acc == 0 && x == y)) by (bit_vector);
        }
        acc = acc | (x ^ y);
        i = i + 1;
    }
    if acc == 0 {
        proof {
            assert(a@ =~= b@);
        }
        true
    } else {
        false
    }
}

/// The client stream is closed exactly once. A step directs a close
/// exactly when it enters the terminal state, no event is admitted in
/// the terminal state, and every admitted step starts outside it: over
/// any run of admitted events the close directive is produced exactly
/// once, at the transition into `Closed`.
pub proof fn lemma_close_exactly_once(v: SessionView, ev: SessionEventView)
    requires
        Session::inv(v),
        Session::admits(v, ev),
    ensures
        !(v.state is Closed),
        (Session::spec_step(v, ev).2 is Close) <==> (Session::spec_step(v, ev).0.state
            is Closed),
{
}

} // verus!
