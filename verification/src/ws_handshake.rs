//! The handshake that turns a browser's connection into a WebSocket.
//!
//! A handshake is driven by events. Each call of `Handshake::handshake` takes in what happened
//! on the connection and says what is to be done there next.

use crate::addr::{address_view, IpAddr, IpAddrView};
use crate::buffers::buffered;
use crate::digest::{accept_key, accept_value, ACCEPT_GUID_LEN, MAX_HASHED};
use crate::http::{detect, detect_protocol, read_upgrade, upgrade_request, without_blank};
use crate::http::{Detection, ParseResult, PrimaryProtocol};
use bytes::BytesMut;
use vstd::prelude::*;

verus! {

/// What a connection turned out to be.
#[derive(Clone, Copy, Debug, PartialEq, Eq, Structural)]
pub enum HandshakeRes {
    /// A WebSocket.
    Ws,
    /// A query for the status.
    Status,
    /// A connection to be closed.
    Close,
}

/// The answer to an `OPTIONS` request.
pub const PREFLIGHT_REPLY: &'static str =
    "HTTP/1.1 204 No Content\r\nAllow: GET\r\nCache-Control: max-age=604800\r\nAccess-Control-Allow-Origin: *\r\nAccess-Control-Allow-Methods: GET\r\nAccess-Control-Max-Age: 86400\r\nContent-Length: 0\r\nConnection: close\r\n\r\n";

/// The answer to a request that is no upgrade, up to the version that it ends with.
pub const REFUSAL_REPLY: &'static str =
    "HTTP/1.1 404 Not Found\r\nServer: rs/streaming\r\nAccess-Control-Allow-Origin: *\r\nAccess-Control-Allow-Credentials: true\r\nContent-Length: 0\r\nConnection: close\r\n\r\n";

/// The answer to an upgrade, up to the value that accepts it.
pub const UPGRADE_REPLY: &'static str =
    "HTTP/1.1 101 Switching Protocols\r\nUpgrade: websocket\r\nConnection: Upgrade\r\nSec-WebSocket-Accept: ";

/// The end of the answer to an upgrade.
pub const UPGRADE_REPLY_END: &'static str = "\r\n\r\n";

/// The error of a connection that was closed before a request came.
pub const CLOSED_ERROR: &'static str = "detect_protocl : 연결이 종료되었습니다.";

/// The error of a connection on which no HTTP request comes.
pub const NOT_HTTP_ERROR: &'static str = "HTTP 요청이 아닙니다";

/// The error of an upgrade that could not be answered, up to its cause.
pub const SEND_ERROR: &'static str = "ws handshake 전송오류 ";

/// What happened on the connection.
#[derive(Debug)]
pub enum Event {
    /// The handshake begins.
    Start,
    /// This many bytes were read and added to the buffer; none means that the peer closed.
    Read(usize),
    /// Reading or writing failed, for this reason.
    Failed(String),
    /// The answer was written.
    Written,
}

/// What is to be done on the connection.
#[derive(Debug)]
pub enum Action {
    /// Read, and add what comes to the buffer.
    Read,
    /// Write this answer.
    Write(String),
    /// Nothing: the handshake has ended, well or with an error.
    Done(Result<(), String>),
}

/// How far a handshake is.
#[derive(Debug)]
pub enum Phase {
    /// It has not begun, or has ended.
    Idle,
    /// The request is being read.
    Reading,
    /// The answer is being written. What the connection is then, and whether it is an error if
    /// writing fails.
    Sending(HandshakeRes, bool),
}

/// What an event says.
#[verifier::ext_equal]
pub enum EventView {
    Start,
    Read(nat),
    Failed(Seq<char>),
    Written,
}

/// What an action says.
#[verifier::ext_equal]
pub enum ActionView {
    Read,
    Write(Seq<char>),
    Done(Result<(), Seq<char>>),
}

/// What a phase says.
#[verifier::ext_equal]
pub enum PhaseView {
    Idle,
    Reading,
    Sending(HandshakeRes, bool),
}

impl View for Event {
    type V = EventView;

    open spec fn view(&self) -> EventView {
        match self {
            Event::Start => EventView::Start,
            Event::Read(n) => EventView::Read(*n as nat),
            Event::Failed(reason) => EventView::Failed(reason@),
            Event::Written => EventView::Written,
        }
    }
}

impl View for Action {
    type V = ActionView;

    open spec fn view(&self) -> ActionView {
        match self {
            Action::Read => ActionView::Read,
            Action::Write(answer) => ActionView::Write(answer@),
            Action::Done(Ok(_)) => ActionView::Done(Ok(())),
            Action::Done(Err(reason)) => ActionView::Done(Err(reason@)),
        }
    }
}

impl View for Phase {
    type V = PhaseView;

    open spec fn view(&self) -> PhaseView {
        match self {
            Phase::Idle => PhaseView::Idle,
            Phase::Reading => PhaseView::Reading,
            Phase::Sending(result, strict) => PhaseView::Sending(*result, *strict),
        }
    }
}

/// A handshake with a browser.
pub struct Handshake {
    /// The bytes received.
    pub read_buf: BytesMut,
    /// The address for which a proxy forwarded the request.
    pub ip_header: Option<IpAddr>,
    /// What the connection turned out to be.
    pub hs_result: Option<HandshakeRes>,
    /// The version of the program that answers.
    pub version: String,
    /// How far the handshake is.
    pub phase: Phase,
}

/// The state of a handshake.
#[verifier::ext_equal]
pub struct HandshakeView {
    pub received: Seq<u8>,
    pub ip_header: Option<IpAddrView>,
    pub hs_result: Option<HandshakeRes>,
    pub version: Seq<char>,
    pub phase: PhaseView,
}

impl View for Handshake {
    type V = HandshakeView;

    open spec fn view(&self) -> HandshakeView {
        HandshakeView {
            received: buffered(self.read_buf),
            ip_header: address_view(self.ip_header),
            hs_result: self.hs_result,
            version: self.version@,
            phase: self.phase@,
        }
    }
}

/// The answer to an upgrade asked for with `key`.
pub open spec fn upgrade_answer(key: Seq<u8>) -> Seq<char> {
    UPGRADE_REPLY@ + accept_value(key) + UPGRADE_REPLY_END@
}

/// The answer to a request that is no upgrade.
pub open spec fn refusal_answer(version: Seq<char>) -> Seq<char> {
    REFUSAL_REPLY@ + version
}

/// How a request is answered, given what it asks with if it is an upgrade. An `OPTIONS` request
/// is told what is allowed, an upgrade is accepted, with the forwarded address remembered, and any
/// other request is refused.
pub open spec fn answer(
    hs: HandshakeView,
    primary: PrimaryProtocol,
    upgrade: Option<(Option<IpAddrView>, Seq<u8>)>,
) -> (HandshakeView, ActionView) {
    if primary == PrimaryProtocol::HttpOptions {
        (
            HandshakeView { phase: PhaseView::Sending(HandshakeRes::Close, false), ..hs },
            ActionView::Write(PREFLIGHT_REPLY@),
        )
    } else {
        match upgrade {
            Some((ip, key)) => (
                HandshakeView {
                    ip_header: ip,
                    phase: PhaseView::Sending(HandshakeRes::Ws, true),
                    ..hs
                },
                ActionView::Write(upgrade_answer(key)),
            ),
            None => (
                HandshakeView { phase: PhaseView::Sending(HandshakeRes::Close, false), ..hs },
                ActionView::Write(refusal_answer(hs.version)),
            ),
        }
    }
}

/// The handshake ends, with this outcome.
pub open spec fn end(hs: HandshakeView, outcome: Result<(), Seq<char>>) -> (
    HandshakeView,
    ActionView,
) {
    (HandshakeView { phase: PhaseView::Idle, ..hs }, ActionView::Done(outcome))
}

/// The event is one that the handshake waits for.
pub open spec fn awaits(phase: PhaseView, event: EventView) -> bool {
    match phase {
        PhaseView::Idle => event is Start,
        PhaseView::Reading => event is Read || event is Failed,
        PhaseView::Sending(_, _) => event is Written || event is Failed,
    }
}

/// What an event leads to, where the handshake waits for it.
pub open spec fn step(hs: HandshakeView, event: EventView) -> (HandshakeView, ActionView) {
    match (hs.phase, event) {
        (PhaseView::Idle, _) => (
            HandshakeView { received: Seq::empty(), phase: PhaseView::Reading, ..hs },
            ActionView::Read,
        ),
        (PhaseView::Reading, EventView::Failed(reason)) => end(hs, Err(reason)),
        (PhaseView::Reading, EventView::Read(n)) => if n == 0 {
            end(hs, Err(CLOSED_ERROR@))
        } else {
            let next = HandshakeView { received: without_blank(hs.received), ..hs };
            match detect(hs.received) {
                Detection::Incomplete => (next, ActionView::Read),
                Detection::NotHttp => end(next, Err(NOT_HTTP_ERROR@)),
                Detection::Found(primary) => answer(next, primary, upgrade_request(next.received)),
            }
        },
        (PhaseView::Sending(_, true), EventView::Failed(reason)) => end(
            hs,
            Err(SEND_ERROR@ + reason),
        ),
        (PhaseView::Sending(result, _), _) => end(
            HandshakeView { hs_result: Some(result), ..hs },
            Ok(()),
        ),
        _ => (hs, ActionView::Read),
    }
}

/// The answer to an upgrade, with the value that accepts it.
pub fn upgrade_reply(accept: &str) -> (reply: String)
    ensures
        reply@ == UPGRADE_REPLY@ + accept@ + UPGRADE_REPLY_END@,
{
    let mut reply: String = UPGRADE_REPLY.to_owned();
    reply.append(accept);
    reply.append(UPGRADE_REPLY_END);
    reply
}

impl Handshake {
    /// A handshake that has not begun, answered by a program of this version.
    pub fn new(version: &str) -> (hs: Result<Self, String>)
        ensures
            hs matches Ok(h) && h@ == (HandshakeView {
                received: Seq::empty(),
                ip_header: None,
                hs_result: None,
                version: version@,
                phase: PhaseView::Idle,
            }),
    {
        Ok(
            Handshake {
                read_buf: BytesMut::with_capacity(16384),
                ip_header: None,
                hs_result: None,
                version: version.to_owned(),
                phase: Phase::Idle,
            },
        )
    }

    /// The bytes received.
    pub fn into_inner(self) -> (read_buf: BytesMut)
        ensures
            read_buf == self.read_buf,
    {
        self.read_buf
    }

    /// Takes in what happened on the connection, and says what is to be done there next.
    pub fn handshake(&mut self, event: Event) -> (action: Action)
        requires
            awaits(old(self)@.phase, event@),
            event@ is Read ==> old(self)@.received.len() + ACCEPT_GUID_LEN <= MAX_HASHED,
        ensures
            (final(self)@, action@) == step(old(self)@, event@),
    {
        match event {
            Event::Start => {
                self.read_buf.clear();
                self.phase = Phase::Reading;
                Action::Read
            },
            Event::Read(n) => {
                if n == 0 {
                    self.phase = Phase::Idle;
                    return Action::Done(Err(CLOSED_ERROR.to_owned()));
                }
                match detect_protocol(&mut self.read_buf) {
                    Detection::Incomplete => Action::Read,
                    Detection::NotHttp => {
                        self.phase = Phase::Idle;
                        Action::Done(Err(NOT_HTTP_ERROR.to_owned()))
                    },
                    Detection::Found(primary) => self.handshake_protocol(primary),
                }
            },
            Event::Written => self.finish(),
            Event::Failed(reason) => {
                match self.phase {
                    Phase::Reading => {
                        self.phase = Phase::Idle;
                        Action::Done(Err(reason))
                    },
                    Phase::Sending(_, true) => {
                        self.phase = Phase::Idle;
                        let mut message: String = SEND_ERROR.to_owned();
                        message.append(&reason);
                        Action::Done(Err(message))
                    },
                    _ => self.finish(),
                }
            },
        }
    }

    /// Ends the handshake well: the answer is written, or need not be.
    fn finish(&mut self) -> (action: Action)
        requires
            old(self)@.phase is Sending,
        ensures
            (final(self)@, action@) == end(
                (HandshakeView { hs_result: Some(old(self)@.phase->Sending_0), ..old(self)@ }),
                Ok(()),
            ),
    {
        if let Phase::Sending(result, _) = self.phase {
            self.hs_result = Some(result);
        }
        self.phase = Phase::Idle;
        Action::Done(Ok(()))
    }

    /// Answers the request that was received.
    pub fn handshake_protocol(&mut self, primary: PrimaryProtocol) -> (action: Action)
        requires
            old(self)@.received.len() + ACCEPT_GUID_LEN <= MAX_HASHED,
        ensures
            (final(self)@, action@) == answer(
                old(self)@,
                primary,
                upgrade_request(old(self)@.received),
            ),
    {
        if primary == PrimaryProtocol::HttpOptions {
            self.answer(primary, None)
        } else {
            let upgrade = read_upgrade(&self.read_buf);
            self.answer(primary, upgrade)
        }
    }

    /// Answers a request, given what it asks with if it is an upgrade.
    pub fn answer(&mut self, primary: PrimaryProtocol, upgrade: Option<ParseResult>) -> (action: Action)
        requires
            upgrade matches Some(u) ==> u.sec_websocket_key@.len() + ACCEPT_GUID_LEN <= MAX_HASHED,
        ensures
            (final(self)@, action@) == answer(
                old(self)@,
                primary,
                match upgrade {
                    Some(u) => Some(u@),
                    None => None,
                },
            ),
    {
        if primary == PrimaryProtocol::HttpOptions {
            self.phase = Phase::Sending(HandshakeRes::Close, false);
            return Action::Write(PREFLIGHT_REPLY.to_owned());
        }
        match upgrade {
            Some(u) => {
                self.ip_header = u.proxy_ip;
                self.phase = Phase::Sending(HandshakeRes::Ws, true);
                Action::Write(upgrade_reply(&accept_key(&u.sec_websocket_key)))
            },
            None => {
                self.phase = Phase::Sending(HandshakeRes::Close, false);
                let mut reply: String = REFUSAL_REPLY.to_owned();
                reply.append(&self.version);
                Action::Write(reply)
            },
        }
    }

    /// The address for which a proxy forwarded the request. It is handed out once.
    pub fn get_ip_header(&mut self) -> (ip: Option<IpAddr>)
        ensures
            ip == old(self).ip_header,
            final(self)@ == (HandshakeView { ip_header: None, ..old(self)@ }),
    {
        self.ip_header.take()
    }

    /// What the connection turned out to be. It is handed out once.
    pub fn get_protocol(&mut self) -> (result: Option<HandshakeRes>)
        ensures
            result == old(self).hs_result,
            final(self)@ == (HandshakeView { hs_result: None, ..old(self)@ }),
    {
        self.hs_result.take()
    }
}

} // verus!
