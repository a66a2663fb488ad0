use crate::backpressure::{Backpressure, MAX_FRAME_LEN, READ_BUF_MAX_LEN};
use crate::encoding::{base64_of, encode_base64};
use crate::backpressure::lemma_in_flight_bounded;
use crate::message::{
    data_follows_connect, lemma_follows_push, lemma_open_in_push, lemma_session_data_after_connect,
    lemma_sum_push, open_in, sum_since_open, tally_len, ProxyMessage, Tally,
};
use std::collections::HashMap;
use vstd::prelude::*;

verus! {

broadcast use vstd::std_specs::hash::group_hash_axioms;

/// The transport an Inlet listens on.
#[derive(Debug, Clone, PartialEq, Eq)]
pub enum InletProxyType {
    TCP,
    UDP,
    /// Reserved; starting an Inlet of this type fails.
    SOCKS5,
}

impl InletProxyType {
    pub fn from_u32(value: u32) -> (r: Option<InletProxyType>)
        ensures
            value == 0 <==> r matches Some(InletProxyType::TCP),
            value == 1 <==> r matches Some(InletProxyType::UDP),
            value == 2 <==> r matches Some(InletProxyType::SOCKS5),
            value > 2 <==> r is None,
    {
        match value {
            0 => Some(InletProxyType::TCP),
            1 => Some(InletProxyType::UDP),
            2 => Some(InletProxyType::SOCKS5),
            _ => None,
        }
    }
}

/// The Inlet's errors: the three of `start`, and a message that does not
/// belong on the Inlet's side.
#[derive(Debug, Clone, PartialEq, Eq)]
pub enum InletError {
    RepeatedStart,
    BindFailure(String),
    NotImplemented,
    UnknownMessage,
}

/// The name of the encryption method that leaves bytes as they are.
pub open spec fn no_encryption() -> Seq<char> {
    seq!['N', 'o', 'n', 'e']
}

/// Whether `name` is the name of the method that leaves bytes as they are.
pub fn is_no_encryption(name: &String) -> (r: bool)
    ensures
        r == (name@ == no_encryption()),
{
    proof {
        reveal_strlit("None");
    }
    let none: String = "None".to_owned();
    assert(none@ =~= no_encryption());
    *name == none
}

/// Sessions in the registry and not closing are exactly those open in the
/// history; every data message of the history stands on an open session;
/// every session's counter is well formed.
pub open spec fn registry_ok(m: Map<u32, SessionInfo>, h: Seq<ProxyMessage>) -> bool {
    &&& data_follows_connect(h)
    &&& forall|s: u32|
        #![trigger m.contains_key(s)]
        #![trigger open_in(h, s)]
        (m.contains_key(s) && !m[s].closing) <==> open_in(h, s)
    &&& forall|s: u32| #[trigger] m.contains_key(s) ==> m[s].backpressure.wf()
    &&& forall|s: u32| #[trigger]
        m.contains_key(s) ==> m[s].backpressure.sent@ == sum_since_open(h, s, Tally::I2oData)
            && m[s].backpressure.acked@ == sum_since_open(h, s, Tally::O2iResult)
}

/// Session `s` is in `m` and not closing.
pub open spec fn live(m: Map<u32, SessionInfo>, s: u32) -> bool {
    m.contains_key(s) && !m[s].closing
}

/// The registry stays well formed when message `msg` of session `sid` joins
/// the history and the registry changes at `sid` alone, in step with it.
proof fn lemma_registry_step(
    m0: Map<u32, SessionInfo>,
    m1: Map<u32, SessionInfo>,
    h: Seq<ProxyMessage>,
    msg: ProxyMessage,
    sid: u32,
)
    requires
        registry_ok(m0, h),
        msg.sid() == sid,
        m1.remove(sid) == m0.remove(sid),
        live(m1, sid) == (msg.opens(sid) || (!msg.closes(sid) && live(m0, sid))),
        msg.is_session_data() ==> open_in(h, sid),
        m1.contains_key(sid) ==> m1[sid].backpressure.wf(),
        m1.contains_key(sid) ==> m1[sid].backpressure.sent@ == (if msg.opens(sid) {
            0
        } else {
            sum_since_open(h, sid, Tally::I2oData) + tally_len(Tally::I2oData, msg, sid)
        }) && m1[sid].backpressure.acked@ == (if msg.opens(sid) {
            0
        } else {
            sum_since_open(h, sid, Tally::O2iResult) + tally_len(Tally::O2iResult, msg, sid)
        }),
    ensures
        registry_ok(m1, h.push(msg)),
{
    lemma_follows_push(h, msg);
    lemma_sum_push(h, msg, sid, Tally::I2oData);
    lemma_sum_push(h, msg, sid, Tally::O2iResult);
    assert forall|s: u32| #[trigger] m1.contains_key(s) implies m1[s].backpressure.sent@
        == sum_since_open(h.push(msg), s, Tally::I2oData) && m1[s].backpressure.acked@
        == sum_since_open(h.push(msg), s, Tally::O2iResult) by {
        lemma_sum_push(h, msg, s, Tally::I2oData);
        lemma_sum_push(h, msg, s, Tally::O2iResult);
        if s != sid {
            assert(m0.remove(sid).contains_key(s));
            assert(m1.remove(sid)[s] == m1[s]);
            assert(m0.remove(sid)[s] == m0[s]);
        }
    }
    assert forall|s: u32| (#[trigger] m1.contains_key(s) && !m1[s].closing) <==> open_in(h.push(msg), s) by {
        lemma_open_in_push(h, msg, s);
        if s != sid {
            assert(m1.remove(sid).contains_key(s) == m1.contains_key(s));
            assert(m0.remove(sid).contains_key(s) == m0.contains_key(s));
            if m1.contains_key(s) {
                assert(m1.remove(sid)[s] == m1[s]);
                assert(m0.remove(sid)[s] == m0[s]);
            }
        }
    }
    assert forall|s: u32| #[trigger] m1.contains_key(s) implies m1[s].backpressure.wf() by {
        if s != sid {
            assert(m1.remove(sid).contains_key(s));
            assert(m1.remove(sid)[s] == m1[s]);
            assert(m0.remove(sid)[s] == m0[s]);
        }
    }
}

/// `r` is the `I2oConnect` of session `sid` under configuration `c`, with
/// the encoded key `key` and the client address `client`.
pub open spec fn is_connect_message(
    r: ProxyMessage,
    sid: u32,
    c: InletConfig,
    key: Seq<char>,
    client: Seq<char>,
) -> bool {
    match r {
        ProxyMessage::I2oConnect(s, is_tcp, is_compressed, out, method, k, addr) => s == sid
            && is_tcp == c.is_tcp && is_compressed == c.is_compressed && out@ == c.output_addr@
            && method@ == c.encryption_method@ && k@ == key && addr@ == client,
        _ => false,
    }
}

/// `info` is a session just started under configuration `c` with key `key`.
pub open spec fn fresh_session(info: SessionInfo, c: InletConfig, key: Seq<u8>) -> bool {
    &&& info.is_compressed == c.is_compressed
    &&& info.is_encrypted == (c.encryption_method@ != no_encryption())
    &&& info.encryption_key@ == key
    &&& !info.closing
    &&& info.backpressure.read_buf_len == 0
    &&& info.backpressure.sent@ == 0
    &&& info.backpressure.acked@ == 0
    &&& info.backpressure.max_frame@ == 0
}

/// `b` is `a` with `len` more bytes counted as in flight.
pub open spec fn counted(a: SessionInfo, b: SessionInfo, len: nat) -> bool {
    &&& b.is_compressed == a.is_compressed
    &&& b.is_encrypted == a.is_encrypted
    &&& b.encryption_key == a.encryption_key
    &&& b.closing == a.closing
    &&& b.backpressure.read_buf_len == a.backpressure.read_buf_len + len
    &&& b.backpressure.sent@ == a.backpressure.sent@ + len
    &&& b.backpressure.acked@ == a.backpressure.acked@
}

/// The registry and history after message `msg` ends session `sid`: a
/// known session is marked closing and its writer asked to close; nothing
/// happens for an unknown one.
pub open spec fn closing_outcome(
    m0: Map<u32, SessionInfo>,
    h0: Seq<ProxyMessage>,
    msg: ProxyMessage,
    sid: u32,
    r: Result<InletAction, InletError>,
    m1: Map<u32, SessionInfo>,
    h1: Seq<ProxyMessage>,
) -> bool {
    if m0.contains_key(sid) {
        &&& r == Ok::<InletAction, InletError>(InletAction::Close(sid))
        &&& m1 == m0.insert(sid, SessionInfo { closing: true, ..m0[sid] })
        &&& h1 == h0.push(msg)
    } else {
        &&& r == Ok::<InletAction, InletError>(InletAction::Nothing)
        &&& m1 == m0
        &&& h1 == h0
    }
}

/// `r` asks for nothing and the registry and history are unchanged.
pub open spec fn ignored(
    m0: Map<u32, SessionInfo>,
    h0: Seq<ProxyMessage>,
    r: Result<InletAction, InletError>,
    m1: Map<u32, SessionInfo>,
    h1: Seq<ProxyMessage>,
) -> bool {
    r == Ok::<InletAction, InletError>(InletAction::Nothing) && m1 == m0 && h1 == h0
}

/// What `Inlet::input` does with `msg`, from registry `m0` and history `h0`
/// to result `r`, registry `m1` and history `h1`.
pub open spec fn input_outcome(
    m0: Map<u32, SessionInfo>,
    h0: Seq<ProxyMessage>,
    msg: ProxyMessage,
    r: Result<InletAction, InletError>,
    m1: Map<u32, SessionInfo>,
    h1: Seq<ProxyMessage>,
) -> bool {
    match msg {
        ProxyMessage::O2iConnect(sid, success, _) => if success {
            ignored(m0, h0, r, m1, h1)
        } else {
            closing_outcome(m0, h0, msg, sid, r, m1, h1)
        },
        ProxyMessage::O2iDisconnect(sid) => closing_outcome(m0, h0, msg, sid, r, m1, h1),
        ProxyMessage::O2iSendDataResult(sid, n) => if live(m0, sid) {
            &&& r == Ok::<InletAction, InletError>(InletAction::Nothing)
            &&& h1 == h0.push(msg)
            &&& m1.remove(sid) == m0.remove(sid)
            &&& m1.contains_key(sid)
            &&& acked(m0[sid], m1[sid], n as nat)
        } else {
            ignored(m0, h0, r, m1, h1)
        },
        ProxyMessage::O2iRecvData(sid, data) => if live(m0, sid) {
            &&& r matches Ok(InletAction::Deliver(d)) && d.session_id == sid && d.data == data
                && d.decrypt == m0[sid].is_encrypted && d.decompress == m0[sid].is_compressed
                && d.encryption_key@ == m0[sid].encryption_key@ && d.ack
                == ProxyMessage::I2oRecvDataResult(sid, data@.len() as usize)
            &&& m1 == m0
            &&& h1 == h0.push(msg).push(r->Ok_0->Deliver_0.ack)
        } else {
            ignored(m0, h0, r, m1, h1)
        },
        _ => r == Err::<InletAction, InletError>(InletError::UnknownMessage) && m1 == m0 && h1
            == h0,
    }
}

/// `b` is `a` after an acknowledgement of `len` bytes.
pub open spec fn acked(a: SessionInfo, b: SessionInfo, len: nat) -> bool {
    &&& b.is_compressed == a.is_compressed
    &&& b.is_encrypted == a.is_encrypted
    &&& b.encryption_key == a.encryption_key
    &&& b.closing == a.closing
    &&& b.backpressure.read_buf_len == if a.backpressure.read_buf_len <= len {
        0
    } else {
        a.backpressure.read_buf_len - len
    }
    &&& b.backpressure.sent@ == a.backpressure.sent@
    &&& b.backpressure.acked@ == a.backpressure.acked@ + len
}

/// What an Inlet was started with, shared by all of its sessions.
#[derive(Debug, Clone, PartialEq, Eq)]
pub struct InletConfig {
    pub is_tcp: bool,
    pub output_addr: String,
    pub is_compressed: bool,
    pub encryption_method: String,
}

/// One session in the Inlet's registry.
pub struct SessionInfo {
    pub is_compressed: bool,
    pub is_encrypted: bool,
    pub encryption_key: Vec<u8>,
    /// A disconnect or failed connect came in; the session waits for its close.
    pub closing: bool,
    pub backpressure: Backpressure,
}

/// What the caller of `Inlet::input` is to do.
#[derive(Debug, Clone, PartialEq, Eq)]
pub enum InletAction {
    Nothing,
    /// Enqueue `Close` on the session's writer.
    Close(u32),
    /// Decode `data` and write it to the session's client, then emit `ack`.
    Deliver(Delivery),
}

/// Bytes from the Outlet for one client, with how to decode them.
#[derive(Debug, Clone, PartialEq, Eq)]
pub struct Delivery {
    pub session_id: u32,
    /// The bytes as they came in, still encoded.
    pub data: Vec<u8>,
    /// Decrypt first, with `encryption_key`.
    pub decrypt: bool,
    /// Then decompress.
    pub decompress: bool,
    pub encryption_key: Vec<u8>,
    /// To be emitted once the decoded bytes are written: it carries the
    /// length before decoding.
    pub ack: ProxyMessage,
}

/// What became of a frame handed to `Inlet::on_recv_frame`.
#[derive(Debug, Clone, PartialEq, Eq)]
pub enum SendGate {
    /// The counter was under the ceiling: emit this message.
    Sent(ProxyMessage),
    /// The counter is over the ceiling: yield and offer the frame again.
    Wait(Vec<u8>),
    /// The session is gone or closing.
    Dropped,
}

/// The Inlet: its run state, configuration, and session registry.
pub struct Inlet {
    running: bool,
    description: String,
    config: InletConfig,
    sessions: HashMap<u32, SessionInfo>,
    /// Every message the Inlet emitted or acted on, in order.
    history: Ghost<Seq<ProxyMessage>>,
}

impl Inlet {
    pub closed spec fn is_running(&self) -> bool {
        self.running
    }

    /// Every message the Inlet emitted or acted on, in order.
    pub closed spec fn history(&self) -> Seq<ProxyMessage> {
        self.history@
    }

    pub closed spec fn sessions(&self) -> Map<u32, SessionInfo> {
        self.sessions@
    }

    pub closed spec fn config(&self) -> InletConfig {
        self.config
    }

    pub closed spec fn spec_description(&self) -> Seq<char> {
        self.description@
    }

    pub open spec fn wf(&self) -> bool {
        registry_ok(self.sessions(), self.history())
    }

    pub fn new(description: String) -> (r: Self)
        ensures
            r.wf(),
            !r.is_running(),
            r.sessions().is_empty(),
            r.spec_description() == description@,
            r.history() == Seq::<ProxyMessage>::empty(),
    {
        Inlet {
            running: false,
            description,
            config: InletConfig {
                is_tcp: true,
                output_addr: String::new(),
                is_compressed: false,
                encryption_method: "None".to_owned(),
            },
            sessions: HashMap::new(),
            history: Ghost(Seq::empty()),
        }
    }

    /// Starts the Inlet: on success it is running with this configuration and
    /// the caller binds the listener; `Ok` holds whether it is TCP.
    pub fn start(
        &mut self,
        inlet_proxy_type: InletProxyType,
        output_addr: String,
        is_compressed: bool,
        encryption_method: String,
    ) -> (r: Result<bool, InletError>)
        requires
            old(self).wf(),
        ensures
            final(self).wf(),
            final(self).sessions() == old(self).sessions(),
            final(self).history() == old(self).history(),
            final(self).spec_description() == old(self).spec_description(),
            old(self).is_running() ==> r matches Err(InletError::RepeatedStart),
            !old(self).is_running() && inlet_proxy_type is SOCKS5 ==> r matches Err(
                InletError::NotImplemented,
            ),
            !old(self).is_running() && inlet_proxy_type is TCP ==> r == Ok::<bool, InletError>(
                true,
            ),
            !old(self).is_running() && inlet_proxy_type is UDP ==> r == Ok::<bool, InletError>(
                false,
            ),
            r is Ok ==> final(self).is_running() && final(self).config() == (InletConfig {
                is_tcp: r->Ok_0,
                output_addr,
                is_compressed,
                encryption_method,
            }),
            r is Err ==> final(self).is_running() == old(self).is_running() && final(self).config()
                == old(self).config(),
    {
        if self.running {
            return Err(InletError::RepeatedStart);
        }
        let is_tcp = match inlet_proxy_type {
            InletProxyType::TCP => true,
            InletProxyType::UDP => false,
            InletProxyType::SOCKS5 => {
                return Err(InletError::NotImplemented);
            },
        };
        self.config = InletConfig { is_tcp, output_addr, is_compressed, encryption_method };
        self.running = true;
        assert(self.sessions() == old(self).sessions());
        Ok(is_tcp)
    }

    /// The listener could not be bound: the Inlet is not running after all.
    pub fn on_bind_failure(&mut self, os_err: String) -> (r: InletError)
        requires
            old(self).wf(),
        ensures
            final(self).wf(),
            !final(self).is_running(),
            final(self).sessions() == old(self).sessions(),
            final(self).history() == old(self).history(),
            final(self).config() == old(self).config(),
            final(self).spec_description() == old(self).spec_description(),
            r == InletError::BindFailure(os_err),
    {
        self.running = false;
        assert(self.sessions() == old(self).sessions());
        InletError::BindFailure(os_err)
    }

    /// Stops the Inlet; returns whether it was running, in which case the
    /// caller waits for the acceptor to finish. Stopping twice is harmless.
    pub fn stop(&mut self) -> (r: bool)
        requires
            old(self).wf(),
        ensures
            final(self).wf(),
            r == old(self).is_running(),
            !final(self).is_running(),
            final(self).sessions() == old(self).sessions(),
            final(self).history() == old(self).history(),
            final(self).config() == old(self).config(),
            final(self).spec_description() == old(self).spec_description(),
    {
        let was = self.running;
        self.running = false;
        assert(self.sessions() == old(self).sessions());
        was
    }

    pub fn running(&self) -> (r: bool)
        ensures
            r == self.is_running(),
    {
        self.running
    }

    pub fn description(&self) -> (r: &String)
        ensures
            r@ == self.spec_description(),
    {
        &self.description
    }

    /// A client connected: registers the session with the key generated for
    /// it, and returns the `I2oConnect` to emit.
    pub fn on_session_start(
        &mut self,
        session_id: u32,
        client_addr: String,
        encryption_key: Vec<u8>,
    ) -> (r: ProxyMessage)
        requires
            old(self).wf(),
        ensures
            final(self).wf(),
            is_connect_message(r, session_id, old(self).config(), base64_of(encryption_key@), client_addr@),
            final(self).history() == old(self).history().push(r),
            final(self).sessions().remove(session_id) == old(self).sessions().remove(session_id),
            final(self).sessions().contains_key(session_id),
            fresh_session(final(self).sessions()[session_id], old(self).config(), encryption_key@),
            final(self).is_running() == old(self).is_running(),
            final(self).config() == old(self).config(),
    {
        let key_b64 = encode_base64(&encryption_key);
        let is_encrypted = !is_no_encryption(&self.config.encryption_method);
        let info = SessionInfo {
            is_compressed: self.config.is_compressed,
            is_encrypted,
            encryption_key,
            closing: false,
            backpressure: Backpressure::new(),
        };
        let msg = ProxyMessage::I2oConnect(
            session_id,
            self.config.is_tcp,
            self.config.is_compressed,
            self.config.output_addr.clone(),
            self.config.encryption_method.clone(),
            key_b64,
            client_addr,
        );
        let ghost m0 = self.sessions@;
        self.sessions.insert(session_id, info);
        proof {
            assert(self.sessions@.remove(session_id) =~= m0.remove(session_id));
            lemma_registry_step(m0, self.sessions@, self.history@, msg, session_id);
            self.history = Ghost(self.history@.push(msg));
        }
        msg
    }

    /// A client's connection ended: removes the session and returns the
    /// `I2oDisconnect` to emit, once; `None` when it was already gone.
    pub fn on_session_close(&mut self, session_id: u32) -> (r: Option<ProxyMessage>)
        requires
            old(self).wf(),
        ensures
            final(self).wf(),
            final(self).sessions() == old(self).sessions().remove(session_id),
            old(self).sessions().contains_key(session_id) ==> r == Some(
                ProxyMessage::I2oDisconnect(session_id),
            ) && final(self).history() == old(self).history().push(r->Some_0),
            !old(self).sessions().contains_key(session_id) ==> r is None && final(self).history()
                == old(self).history(),
            final(self).is_running() == old(self).is_running(),
            final(self).config() == old(self).config(),
    {
        let ghost m0 = self.sessions@;
        match self.sessions.remove(&session_id) {
            Some(_) => {
                let msg = ProxyMessage::I2oDisconnect(session_id);
                proof {
                    assert(self.sessions@.remove(session_id) =~= m0.remove(session_id));
                    lemma_registry_step(m0, self.sessions@, self.history@, msg, session_id);
                    self.history = Ghost(self.history@.push(msg));
                }
                Some(msg)
            },
            None => {
                assert(self.sessions@ =~= m0.remove(session_id));
                None
            },
        }
    }

    /// A frame from the client, already compressed and encrypted as the
    /// session asks: sent when the session's counter is at most the ceiling,
    /// handed back to wait otherwise, dropped when the session is not live.
    pub fn on_recv_frame(&mut self, session_id: u32, frame: Vec<u8>) -> (r: SendGate)
        requires
            old(self).wf(),
            frame@.len() <= MAX_FRAME_LEN,
        ensures
            final(self).wf(),
            final(self).is_running() == old(self).is_running(),
            final(self).config() == old(self).config(),
            !live(old(self).sessions(), session_id) ==> r is Dropped && final(self).sessions()
                == old(self).sessions() && final(self).history() == old(self).history(),
            live(old(self).sessions(), session_id)
                && old(self).sessions()[session_id].backpressure.read_buf_len > READ_BUF_MAX_LEN
                ==> r == SendGate::Wait(frame) && final(self).sessions() == old(self).sessions()
                && final(self).history() == old(self).history(),
            live(old(self).sessions(), session_id)
                && old(self).sessions()[session_id].backpressure.read_buf_len <= READ_BUF_MAX_LEN
                ==> {
                &&& r == SendGate::Sent(ProxyMessage::I2oSendData(session_id, frame))
                &&& final(self).history() == old(self).history().push(r->Sent_0)
                &&& final(self).sessions().remove(session_id) == old(self).sessions().remove(session_id)
                &&& final(self).sessions().contains_key(session_id)
                &&& counted(old(self).sessions()[session_id], final(self).sessions()[session_id], frame@.len())
            },
    {
        let ghost m0 = self.sessions@;
        match self.sessions.remove(&session_id) {
            None => {
                assert(self.sessions@ =~= m0);
                SendGate::Dropped
            },
            Some(mut info) => {
                if info.closing || !info.backpressure.can_send() {
                    let closing = info.closing;
                    self.sessions.insert(session_id, info);
                    assert(self.sessions@ =~= m0);
                    if closing {
                        SendGate::Dropped
                    } else {
                        SendGate::Wait(frame)
                    }
                } else {
                    info.backpressure.on_send(frame.len() as u64);
                    self.sessions.insert(session_id, info);
                    let msg = ProxyMessage::I2oSendData(session_id, frame);
                    proof {
                        assert(self.sessions@.remove(session_id) =~= m0.remove(session_id));
                        lemma_registry_step(m0, self.sessions@, self.history@, msg, session_id);
                        self.history = Ghost(self.history@.push(msg));
                    }
                    SendGate::Sent(msg)
                }
            },
        }
    }

    /// Handles a message from the Outlet. A failed connect or a disconnect of
    /// a known session marks it closing and asks for its writer's `Close`; an
    /// acknowledgement of a live session lowers its counter (clamped at zero);
    /// data for a live session is handed out to be decoded and written, with
    /// the acknowledgement of its length as it came in. Messages for unknown
    /// or closing sessions are dropped; a message of the Inlet's own direction
    /// is refused.
    pub fn input(&mut self, message: ProxyMessage) -> (r: Result<InletAction, InletError>)
        requires
            old(self).wf(),
        ensures
            final(self).wf(),
            final(self).is_running() == old(self).is_running(),
            final(self).config() == old(self).config(),
            input_outcome(old(self).sessions(), old(self).history(), message, r,
                final(self).sessions(), final(self).history()),
    {
        let ghost m0 = self.sessions@;
        let ghost msg = message;
        match message {
            ProxyMessage::O2iConnect(session_id, success, _) => {
                if success {
                    return Ok(InletAction::Nothing);
                }
                self.mark_closing(session_id, Ghost(msg))
            },
            ProxyMessage::O2iDisconnect(session_id) => self.mark_closing(session_id, Ghost(msg)),
            ProxyMessage::O2iSendDataResult(session_id, data_len) => {
                match self.sessions.remove(&session_id) {
                    None => {
                        assert(self.sessions@ =~= m0);
                        Ok(InletAction::Nothing)
                    },
                    Some(mut info) => {
                        if info.closing {
                            self.sessions.insert(session_id, info);
                            assert(self.sessions@ =~= m0);
                        } else {
                            info.backpressure.on_ack(data_len as u64);
                            self.sessions.insert(session_id, info);
                            proof {
                                assert(self.sessions@.remove(session_id) =~= m0.remove(session_id));
                                lemma_registry_step(m0, self.sessions@, self.history@, msg, session_id);
                                self.history = Ghost(self.history@.push(msg));
                            }
                        }
                        Ok(InletAction::Nothing)
                    },
                }
            },
            ProxyMessage::O2iRecvData(session_id, data) => {
                if !self.sessions.contains_key(&session_id) {
                    return Ok(InletAction::Nothing);
                }
                let info = self.sessions.get(&session_id).unwrap();
                if info.closing {
                    return Ok(InletAction::Nothing);
                }
                let data_len = data.len();
                let ack = ProxyMessage::I2oRecvDataResult(session_id, data_len);
                let delivery = Delivery {
                    session_id,
                    data,
                    decrypt: info.is_encrypted,
                    decompress: info.is_compressed,
                    encryption_key: info.encryption_key.clone(),
                    ack,
                };
                proof {
                    lemma_registry_step(m0, m0, self.history@, msg, session_id);
                    lemma_registry_step(m0, m0, self.history@.push(msg), ack, session_id);
                    self.history = Ghost(self.history@.push(msg).push(ack));
                }
                Ok(InletAction::Deliver(delivery))
            },
            _ => Err(InletError::UnknownMessage),
        }
    }

    /// Marks a known session closing on `msg`, a message that ends it, and
    /// asks for its writer's `Close`.
    fn mark_closing(&mut self, session_id: u32, msg: Ghost<ProxyMessage>) -> (r: Result<
        InletAction,
        InletError,
    >)
        requires
            old(self).wf(),
            msg@.closes(session_id),
        ensures
            final(self).wf(),
            final(self).is_running() == old(self).is_running(),
            final(self).config() == old(self).config(),
            closing_outcome(old(self).sessions(), old(self).history(), msg@, session_id, r,
                final(self).sessions(), final(self).history()),
    {
        let ghost m0 = self.sessions@;
        match self.sessions.remove(&session_id) {
            None => {
                assert(self.sessions@ =~= m0);
                Ok(InletAction::Nothing)
            },
            Some(mut info) => {
                info.closing = true;
                self.sessions.insert(session_id, info);
                proof {
                    assert(self.sessions@.remove(session_id) =~= m0.remove(session_id));
                    assert(self.sessions@ =~= m0.insert(
                        session_id,
                        SessionInfo { closing: true, ..m0[session_id] },
                    ));
                    lemma_registry_step(m0, self.sessions@, self.history@, msg@, session_id);
                    self.history = Ghost(self.history@.push(msg@));
                }
                Ok(InletAction::Close(session_id))
            },
        }
    }
}

/// In an Inlet's history, every data or acknowledgement message names a
/// session that an earlier `I2oConnect` opened and that no disconnect or
/// failed connect has ended since.
pub proof fn lemma_inlet_data_after_connect(inlet: &Inlet, i: int)
    requires
        inlet.wf(),
        0 <= i < inlet.history().len(),
        inlet.history()[i].is_session_data(),
    ensures
        exists|j: int|
            0 <= j < i && (#[trigger] inlet.history()[j]).opens(inlet.history()[i].sid())
                && forall|k: int|
                j < k < i ==> !(#[trigger] inlet.history()[k]).closes(inlet.history()[i].sid()),
{
    lemma_session_data_after_connect(inlet.history(), i);
}

/// On every session of an Inlet, the bytes of the `I2oSendData` emitted
/// since its `I2oConnect` minus those of the `O2iSendDataResult` taken are at
/// most the ceiling plus the largest frame sent.
pub proof fn lemma_inlet_in_flight_bounded(inlet: &Inlet, session_id: u32)
    requires
        inlet.wf(),
        inlet.sessions().contains_key(session_id),
    ensures
        ({
            let h = inlet.history();
            let b = inlet.sessions()[session_id].backpressure;
            &&& sum_since_open(h, session_id, Tally::I2oData) - sum_since_open(
                h,
                session_id,
                Tally::O2iResult,
            ) <= READ_BUF_MAX_LEN + b.max_frame@
            &&& b.max_frame@ <= MAX_FRAME_LEN
        }),
{
    lemma_in_flight_bounded(&inlet.sessions()[session_id].backpressure);
}

/// `b` is `a` after a successful `start`, or after `stop`.
pub open spec fn start_or_stop_step(a: Inlet, b: Inlet, starting: bool) -> bool {
    &&& b.sessions() == a.sessions()
    &&& b.history() == a.history()
    &&& if starting {
        b.is_running()
    } else {
        !b.is_running()
    }
}

/// Starting and stopping an Inlet any number of times, with no client
/// connecting, leaves it stopped with an empty registry: `states` runs from
/// a new Inlet through alternate starts and stops.
pub proof fn lemma_start_stop_cycles(states: Seq<Inlet>)
    requires
        states.len() >= 1,
        states.len() % 2 == 1,
        states[0].sessions().is_empty(),
        !states[0].is_running(),
        forall|k: int|
            0 <= k < states.len() - 1 ==> start_or_stop_step(
                #[trigger] states[k],
                states[k + 1],
                k % 2 == 0,
            ),
    ensures
        states.last().sessions().is_empty(),
        !states.last().is_running(),
    decreases states.len(),
{
    if states.len() > 1 {
        let p = states.drop_last().drop_last();
        assert forall|k: int| 0 <= k < p.len() - 1 implies start_or_stop_step(
            #[trigger] p[k],
            p[k + 1],
            k % 2 == 0,
        ) by {
            assert(p[k] == states[k]);
            assert(p[k + 1] == states[k + 1]);
            assert(start_or_stop_step(states[k], states[k + 1], k % 2 == 0));
        }
        lemma_start_stop_cycles(p);
        let n = states.len() - 1;
        assert(p.last() == states[n - 2]);
        assert(start_or_stop_step(states[n - 2], states[n - 1], (n - 2) % 2 == 0));
        assert(start_or_stop_step(states[n - 1], states[n], (n - 1) % 2 == 0));
    }
}

} // verus!
