use crate::backpressure::{lemma_in_flight_bounded, Backpressure, MAX_FRAME_LEN, READ_BUF_MAX_LEN};
use crate::encoding::{base64_of, decode_base64};
use crate::inlet::{acked, counted, is_no_encryption, live, no_encryption, Delivery, InletError, SendGate, SessionInfo};
use crate::message::{
    data_follows_connect, lemma_follows_push, lemma_open_in_push, lemma_session_data_after_connect,
    lemma_sum_push, open_in, sum_since_open, tally_len, ProxyMessage, Tally,
};
use std::collections::HashMap;
use vstd::prelude::*;

verus! {

broadcast use vstd::std_specs::hash::group_hash_axioms;

/// A backend connection the caller is to open for a new session.
#[derive(Debug, Clone, PartialEq, Eq)]
pub struct DialRequest {
    pub session_id: u32,
    pub is_tcp: bool,
    pub endpoint_addr: String,
}

/// What the caller of `Outlet::input` is to do.
#[derive(Debug, Clone, PartialEq, Eq)]
pub enum OutletAction {
    Nothing,
    /// Open the backend connection, then report with `on_dial_result`.
    Dial(DialRequest),
    /// Emit this message.
    Reply(ProxyMessage),
    /// Enqueue `Close` on the session's backend writer.
    Close(u32),
    /// Decode the bytes, write them to the backend, then emit the ack.
    Deliver(Delivery),
}

/// Sessions being dialed are open in the history and not yet registered;
/// registered live sessions are open in the history; every data message of
/// the history stands on an open session; every counter is well formed.
pub open spec fn outlet_ok(
    p: Map<u32, SessionInfo>,
    m: Map<u32, SessionInfo>,
    h: Seq<ProxyMessage>,
) -> bool {
    &&& data_follows_connect(h)
    &&& forall|s: u32| #[trigger]
        p.contains_key(s) ==> open_in(h, s) && !m.contains_key(s) && !p[s].closing
            && p[s].backpressure.wf()
    &&& forall|s: u32| #[trigger] m.contains_key(s) ==> (!m[s].closing ==> open_in(h, s))
    &&& forall|s: u32| #[trigger] m.contains_key(s) ==> m[s].backpressure.wf()
    &&& forall|s: u32| #[trigger]
        m.contains_key(s) ==> m[s].backpressure.sent@ == sum_since_open(h, s, Tally::O2iData)
            && m[s].backpressure.acked@ == sum_since_open(h, s, Tally::I2oResult)
    &&& forall|s: u32| #[trigger]
        p.contains_key(s) ==> p[s].backpressure.sent@ == sum_since_open(h, s, Tally::O2iData)
            && p[s].backpressure.acked@ == sum_since_open(h, s, Tally::I2oResult)
}

/// The counters of `info` match the Outlet's sums once `msg` of session
/// `sid` joins history `h`.
pub open spec fn tallied(info: SessionInfo, h: Seq<ProxyMessage>, msg: ProxyMessage, sid: u32) -> bool {
    &&& info.backpressure.sent@ == if msg.opens(sid) {
        0
    } else {
        sum_since_open(h, sid, Tally::O2iData) + tally_len(Tally::O2iData, msg, sid)
    }
    &&& info.backpressure.acked@ == if msg.opens(sid) {
        0
    } else {
        sum_since_open(h, sid, Tally::I2oResult) + tally_len(Tally::I2oResult, msg, sid)
    }
}

proof fn lemma_outlet_step(
    q0: Map<u32, SessionInfo>,
    m0: Map<u32, SessionInfo>,
    q1: Map<u32, SessionInfo>,
    m1: Map<u32, SessionInfo>,
    h: Seq<ProxyMessage>,
    msg: ProxyMessage,
    sid: u32,
)
    requires
        outlet_ok(q0, m0, h),
        msg.sid() == sid,
        q1.remove(sid) == q0.remove(sid),
        m1.remove(sid) == m0.remove(sid),
        q1.contains_key(sid) ==> (msg.opens(sid) || (!msg.closes(sid) && open_in(h, sid)))
            && !m1.contains_key(sid) && !q1[sid].closing && q1[sid].backpressure.wf(),
        live(m1, sid) ==> (msg.opens(sid) || (!msg.closes(sid) && open_in(h, sid))),
        msg.is_session_data() ==> open_in(h, sid),
        m1.contains_key(sid) ==> m1[sid].backpressure.wf(),
        m1.contains_key(sid) ==> tallied(m1[sid], h, msg, sid),
        q1.contains_key(sid) ==> tallied(q1[sid], h, msg, sid),
    ensures
        outlet_ok(q1, m1, h.push(msg)),
{
    lemma_follows_push(h, msg);
    lemma_sum_push(h, msg, sid, Tally::O2iData);
    lemma_sum_push(h, msg, sid, Tally::I2oResult);
    assert forall|s: u32| #[trigger] m1.contains_key(s) implies m1[s].backpressure.sent@
        == sum_since_open(h.push(msg), s, Tally::O2iData) && m1[s].backpressure.acked@
        == sum_since_open(h.push(msg), s, Tally::I2oResult) by {
        lemma_sum_push(h, msg, s, Tally::O2iData);
        lemma_sum_push(h, msg, s, Tally::I2oResult);
        if s != sid {
            assert(m0.remove(sid).contains_key(s));
            assert(m1.remove(sid)[s] == m1[s]);
            assert(m0.remove(sid)[s] == m0[s]);
        }
    }
    assert forall|s: u32| #[trigger] q1.contains_key(s) implies q1[s].backpressure.sent@
        == sum_since_open(h.push(msg), s, Tally::O2iData) && q1[s].backpressure.acked@
        == sum_since_open(h.push(msg), s, Tally::I2oResult) by {
        lemma_sum_push(h, msg, s, Tally::O2iData);
        lemma_sum_push(h, msg, s, Tally::I2oResult);
        if s != sid {
            assert(q0.remove(sid).contains_key(s));
            assert(q1.remove(sid)[s] == q1[s]);
            assert(q0.remove(sid)[s] == q0[s]);
        }
    }
    lemma_open_in_push(h, msg, sid);
    assert forall|s: u32| #[trigger] q1.contains_key(s) implies open_in(h.push(msg), s)
        && !m1.contains_key(s) && !q1[s].closing && q1[s].backpressure.wf() by {
        lemma_open_in_push(h, msg, s);
        if s != sid {
            assert(q0.remove(sid).contains_key(s));
            assert(q1.remove(sid)[s] == q1[s]);
            assert(q0.remove(sid)[s] == q0[s]);
            assert(!m0.remove(sid).contains_key(s));
        }
    }
    assert forall|s: u32| #[trigger] m1.contains_key(s) implies (!m1[s].closing ==> open_in(
        h.push(msg),
        s,
    )) && m1[s].backpressure.wf() by {
        lemma_open_in_push(h, msg, s);
        if s != sid {
            assert(m0.remove(sid).contains_key(s));
            assert(m1.remove(sid)[s] == m1[s]);
            assert(m0.remove(sid)[s] == m0[s]);
        }
    }
}

/// What `Outlet::input` does with `msg`, from dials `q0`, sessions `m0` and
/// history `h0` to result `r`, dials `q1`, sessions `m1` and history `h1`.
pub open spec fn outlet_input_outcome(
    q0: Map<u32, SessionInfo>,
    m0: Map<u32, SessionInfo>,
    h0: Seq<ProxyMessage>,
    msg: ProxyMessage,
    r: Result<OutletAction, InletError>,
    q1: Map<u32, SessionInfo>,
    m1: Map<u32, SessionInfo>,
    h1: Seq<ProxyMessage>,
) -> bool {
    let nothing = r == Ok::<OutletAction, InletError>(OutletAction::Nothing);
    let unchanged = q1 == q0 && m1 == m0 && h1 == h0;
    match msg {
        ProxyMessage::I2oConnect(sid, is_tcp, is_compressed, endpoint, method, key, _) => if q0.contains_key(sid)
            || m0.contains_key(sid) {
            nothing && unchanged
        } else {
            m1 == m0 && (match r {
                Ok(OutletAction::Dial(d)) => {
                    &&& d.session_id == sid && d.is_tcp == is_tcp && d.endpoint_addr@ == endpoint@
                    &&& q1.remove(sid) == q0.remove(sid) && q1.contains_key(sid)
                    &&& q1[sid].is_compressed == is_compressed
                    &&& q1[sid].is_encrypted == (method@ != no_encryption())
                    &&& base64_of(q1[sid].encryption_key@) == key@
                    &&& !q1[sid].closing && q1[sid].backpressure.read_buf_len == 0
                    &&& q1[sid].backpressure.sent@ == 0 && q1[sid].backpressure.acked@ == 0
                    &&& h1 == h0.push(msg)
                },
                Ok(OutletAction::Reply(reply)) => {
                    &&& reply matches ProxyMessage::O2iConnect(s, ok, _) && s == sid && !ok
                    &&& q1 == q0
                    &&& h1 == h0.push(msg).push(reply)
                },
                _ => false,
            })
        },
        ProxyMessage::I2oDisconnect(sid) => if q0.contains_key(sid) {
            nothing && q1 == q0.remove(sid) && m1 == m0 && h1 == h0.push(msg)
        } else if m0.contains_key(sid) {
            &&& r == Ok::<OutletAction, InletError>(OutletAction::Close(sid))
            &&& q1 == q0
            &&& m1 == m0.insert(sid, SessionInfo { closing: true, ..m0[sid] })
            &&& h1 == h0.push(msg)
        } else {
            nothing && unchanged
        },
        ProxyMessage::I2oSendData(sid, data) => if live(m0, sid) {
            &&& r matches Ok(OutletAction::Deliver(d)) && d.session_id == sid && d.data == data
                && d.decrypt == m0[sid].is_encrypted && d.decompress == m0[sid].is_compressed
                && d.encryption_key@ == m0[sid].encryption_key@ && d.ack
                == ProxyMessage::O2iSendDataResult(sid, data@.len() as usize)
            &&& q1 == q0 && m1 == m0
            &&& h1 == h0.push(msg).push(r->Ok_0->Deliver_0.ack)
        } else {
            nothing && unchanged
        },
        ProxyMessage::I2oRecvDataResult(sid, n) => if live(m0, sid) {
            &&& nothing
            &&& q1 == q0
            &&& h1 == h0.push(msg)
            &&& m1.remove(sid) == m0.remove(sid)
            &&& m1.contains_key(sid)
            &&& acked(m0[sid], m1[sid], n as nat)
        } else {
            nothing && unchanged
        },
        _ => r == Err::<OutletAction, InletError>(InletError::UnknownMessage) && unchanged,
    }
}

/// The Outlet: sessions being dialed, sessions connected to the backend.
pub struct Outlet {
    description: String,
    pending: HashMap<u32, SessionInfo>,
    sessions: HashMap<u32, SessionInfo>,
    history: Ghost<Seq<ProxyMessage>>,
}

impl Outlet {
    pub closed spec fn pending(&self) -> Map<u32, SessionInfo> {
        self.pending@
    }

    pub closed spec fn sessions(&self) -> Map<u32, SessionInfo> {
        self.sessions@
    }

    /// Every message the Outlet emitted or acted on, in order.
    pub closed spec fn history(&self) -> Seq<ProxyMessage> {
        self.history@
    }

    pub closed spec fn spec_description(&self) -> Seq<char> {
        self.description@
    }

    pub open spec fn wf(&self) -> bool {
        outlet_ok(self.pending(), self.sessions(), self.history())
    }

    pub fn new(description: String) -> (r: Self)
        ensures
            r.wf(),
            r.pending().is_empty(),
            r.sessions().is_empty(),
            r.history() == Seq::<ProxyMessage>::empty(),
            r.spec_description() == description@,
    {
        Outlet {
            description,
            pending: HashMap::new(),
            sessions: HashMap::new(),
            history: Ghost(Seq::empty()),
        }
    }

    pub fn description(&self) -> (r: &String)
        ensures
            r@ == self.spec_description(),
    {
        &self.description
    }

    /// Handles a message from the Inlet. A connect for a new session with a
    /// well-formed key asks for a dial, one with a malformed key is answered
    /// with a failed connect; a disconnect closes a connected session or
    /// forgets one being dialed; data for a live session is handed out to be
    /// decoded and written, with the acknowledgement of its length as it came
    /// in; an acknowledgement lowers the session's counter. Anything for an
    /// unknown or closing session is dropped; an `O2i*` message is refused.
    pub fn input(&mut self, message: ProxyMessage) -> (r: Result<OutletAction, InletError>)
        requires
            old(self).wf(),
        ensures
            final(self).wf(),
            final(self).spec_description() == old(self).spec_description(),
            outlet_input_outcome(old(self).pending(), old(self).sessions(), old(self).history(),
                message, r, final(self).pending(), final(self).sessions(), final(self).history()),
    {
        let ghost q0 = self.pending@;
        let ghost m0 = self.sessions@;
        let ghost msg = message;
        match message {
            ProxyMessage::I2oConnect(session_id, is_tcp, is_compressed, endpoint_addr, method, key_b64, _) => {
                if self.pending.contains_key(&session_id) || self.sessions.contains_key(&session_id) {
                    return Ok(OutletAction::Nothing);
                }
                match decode_base64(&key_b64) {
                    None => {
                        let reply = ProxyMessage::O2iConnect(session_id, false, "invalid encryption key".to_owned());
                        proof {
                            lemma_outlet_step(q0, m0, q0, m0, self.history@, msg, session_id);
                            lemma_outlet_step(q0, m0, q0, m0, self.history@.push(msg), reply, session_id);
                            self.history = Ghost(self.history@.push(msg).push(reply));
                        }
                        Ok(OutletAction::Reply(reply))
                    },
                    Some(key) => {
                        let info = SessionInfo {
                            is_compressed,
                            is_encrypted: !is_no_encryption(&method),
                            encryption_key: key,
                            closing: false,
                            backpressure: Backpressure::new(),
                        };
                        self.pending.insert(session_id, info);
                        proof {
                            assert(self.pending@.remove(session_id) =~= q0.remove(session_id));
                            lemma_outlet_step(q0, m0, self.pending@, m0, self.history@, msg, session_id);
                            self.history = Ghost(self.history@.push(msg));
                        }
                        Ok(OutletAction::Dial(DialRequest { session_id, is_tcp, endpoint_addr }))
                    },
                }
            },
            ProxyMessage::I2oDisconnect(session_id) => {
                if self.pending.contains_key(&session_id) {
                    self.pending.remove(&session_id);
                    proof {
                        assert(self.pending@.remove(session_id) =~= q0.remove(session_id));
                        lemma_outlet_step(q0, m0, self.pending@, m0, self.history@, msg, session_id);
                        self.history = Ghost(self.history@.push(msg));
                    }
                    return Ok(OutletAction::Nothing);
                }
                match self.sessions.remove(&session_id) {
                    None => {
                        assert(self.sessions@ =~= m0);
                        Ok(OutletAction::Nothing)
                    },
                    Some(mut info) => {
                        info.closing = true;
                        self.sessions.insert(session_id, info);
                        proof {
                            assert(self.sessions@.remove(session_id) =~= m0.remove(session_id));
                            assert(self.sessions@ =~= m0.insert(
                                session_id,
                                SessionInfo { closing: true, ..m0[session_id] },
                            ));
                            lemma_outlet_step(q0, m0, q0, self.sessions@, self.history@, msg, session_id);
                            self.history = Ghost(self.history@.push(msg));
                        }
                        Ok(OutletAction::Close(session_id))
                    },
                }
            },
            ProxyMessage::I2oSendData(session_id, data) => {
                if !self.sessions.contains_key(&session_id) {
                    return Ok(OutletAction::Nothing);
                }
                let info = self.sessions.get(&session_id).unwrap();
                if info.closing {
                    return Ok(OutletAction::Nothing);
                }
                let data_len = data.len();
                let ack = ProxyMessage::O2iSendDataResult(session_id, data_len);
                let delivery = Delivery {
                    session_id,
                    data,
                    decrypt: info.is_encrypted,
                    decompress: info.is_compressed,
                    encryption_key: info.encryption_key.clone(),
                    ack,
                };
                proof {
                    lemma_outlet_step(q0, m0, q0, m0, self.history@, msg, session_id);
                    lemma_outlet_step(q0, m0, q0, m0, self.history@.push(msg), ack, session_id);
                    self.history = Ghost(self.history@.push(msg).push(ack));
                }
                Ok(OutletAction::Deliver(delivery))
            },
            ProxyMessage::I2oRecvDataResult(session_id, data_len) => {
                match self.sessions.remove(&session_id) {
                    None => {
                        assert(self.sessions@ =~= m0);
                        Ok(OutletAction::Nothing)
                    },
                    Some(mut info) => {
                        if info.closing {
                            self.sessions.insert(session_id, info);
                            assert(self.sessions@ =~= m0);
                        } else {
                            info.backpressure.on_ack(data_len as u64);
                            self.sessions.insert(session_id, info);
                            proof {
                                assert(self.sessions@.remove(session_id) =~= m0.remove(session_id));
                                lemma_outlet_step(q0, m0, q0, self.sessions@, self.history@, msg, session_id);
                                self.history = Ghost(self.history@.push(msg));
                            }
                        }
                        Ok(OutletAction::Nothing)
                    },
                }
            },
            _ => Err(InletError::UnknownMessage),
        }
    }

    /// The dial for `session_id` ended: on success the session is connected,
    /// and either way the `O2iConnect` to emit is returned. `None` when the
    /// session is no longer being dialed (the caller drops the connection).
    pub fn on_dial_result(&mut self, session_id: u32, result: Result<(), String>) -> (r: Option<ProxyMessage>)
        requires
            old(self).wf(),
        ensures
            final(self).wf(),
            final(self).spec_description() == old(self).spec_description(),
            !old(self).pending().contains_key(session_id) ==> r is None && final(self).pending()
                == old(self).pending() && final(self).sessions() == old(self).sessions()
                && final(self).history() == old(self).history(),
            old(self).pending().contains_key(session_id) ==> {
                &&& final(self).pending() == old(self).pending().remove(session_id)
                &&& r is Some && final(self).history() == old(self).history().push(r->Some_0)
                &&& match result {
                    Ok(_) => {
                        &&& r->Some_0 matches ProxyMessage::O2iConnect(s, ok, e) && s == session_id && ok
                            && e@.len() == 0
                        &&& final(self).sessions() == old(self).sessions().insert(
                            session_id,
                            old(self).pending()[session_id],
                        )
                    },
                    Err(e) => {
                        &&& r->Some_0 == ProxyMessage::O2iConnect(session_id, false, e)
                        &&& final(self).sessions() == old(self).sessions()
                    },
                }
            },
    {
        let ghost q0 = self.pending@;
        let ghost m0 = self.sessions@;
        match self.pending.remove(&session_id) {
            None => {
                assert(self.pending@ =~= q0);
                None
            },
            Some(info) => {
                let msg = match result {
                    Ok(()) => {
                        self.sessions.insert(session_id, info);
                        ProxyMessage::O2iConnect(session_id, true, String::new())
                    },
                    Err(e) => ProxyMessage::O2iConnect(session_id, false, e),
                };
                proof {
                    assert(self.pending@.remove(session_id) =~= q0.remove(session_id));
                    assert(self.sessions@.remove(session_id) =~= m0.remove(session_id));
                    lemma_outlet_step(q0, m0, self.pending@, self.sessions@, self.history@, msg, session_id);
                    self.history = Ghost(self.history@.push(msg));
                }
                Some(msg)
            },
        }
    }

    /// The backend connection of `session_id` ended: removes the session and
    /// returns the `O2iDisconnect` to emit, once.
    pub fn on_session_close(&mut self, session_id: u32) -> (r: Option<ProxyMessage>)
        requires
            old(self).wf(),
        ensures
            final(self).wf(),
            final(self).spec_description() == old(self).spec_description(),
            final(self).pending() == old(self).pending(),
            final(self).sessions() == old(self).sessions().remove(session_id),
            old(self).sessions().contains_key(session_id) ==> r == Some(
                ProxyMessage::O2iDisconnect(session_id),
            ) && final(self).history() == old(self).history().push(r->Some_0),
            !old(self).sessions().contains_key(session_id) ==> r is None && final(self).history()
                == old(self).history(),
    {
        let ghost q0 = self.pending@;
        let ghost m0 = self.sessions@;
        match self.sessions.remove(&session_id) {
            Some(_) => {
                let msg = ProxyMessage::O2iDisconnect(session_id);
                proof {
                    assert(self.sessions@.remove(session_id) =~= m0.remove(session_id));
                    lemma_outlet_step(q0, m0, q0, self.sessions@, self.history@, msg, session_id);
                    self.history = Ghost(self.history@.push(msg));
                }
                Some(msg)
            },
            None => {
                assert(self.sessions@ =~= m0.remove(session_id));
                None
            },
        }
    }

    /// Bytes read from the backend, already compressed and encrypted as the
    /// session asks: sent as `O2iRecvData` when the session's counter is at
    /// most the ceiling, handed back to wait otherwise, dropped when the
    /// session is not live.
    pub fn on_recv_frame(&mut self, session_id: u32, frame: Vec<u8>) -> (r: SendGate)
        requires
            old(self).wf(),
            frame@.len() <= MAX_FRAME_LEN,
        ensures
            final(self).wf(),
            final(self).spec_description() == old(self).spec_description(),
            final(self).pending() == old(self).pending(),
            !live(old(self).sessions(), session_id) ==> r is Dropped && final(self).sessions()
                == old(self).sessions() && final(self).history() == old(self).history(),
            live(old(self).sessions(), session_id)
                && old(self).sessions()[session_id].backpressure.read_buf_len > READ_BUF_MAX_LEN
                ==> r == SendGate::Wait(frame) && final(self).sessions() == old(self).sessions()
                && final(self).history() == old(self).history(),
            live(old(self).sessions(), session_id)
                && old(self).sessions()[session_id].backpressure.read_buf_len <= READ_BUF_MAX_LEN
                ==> {
                &&& r == SendGate::Sent(ProxyMessage::O2iRecvData(session_id, frame))
                &&& final(self).history() == old(self).history().push(r->Sent_0)
                &&& final(self).sessions().remove(session_id) == old(self).sessions().remove(session_id)
                &&& final(self).sessions().contains_key(session_id)
                &&& counted(old(self).sessions()[session_id], final(self).sessions()[session_id], frame@.len())
            },
    {
        let ghost q0 = self.pending@;
        let ghost m0 = self.sessions@;
        match self.sessions.remove(&session_id) {
            None => {
                assert(self.sessions@ =~= m0);
                SendGate::Dropped
            },
            Some(mut info) => {
                if info.closing || !info.backpressure.can_send() {
                    let closing = info.closing;
                    self.sessions.insert(session_id, info);
                    assert(self.sessions@ =~= m0);
                    if closing {
                        SendGate::Dropped
                    } else {
                        SendGate::Wait(frame)
                    }
                } else {
                    info.backpressure.on_send(frame.len() as u64);
                    self.sessions.insert(session_id, info);
                    let msg = ProxyMessage::O2iRecvData(session_id, frame);
                    proof {
                        assert(self.sessions@.remove(session_id) =~= m0.remove(session_id));
                        lemma_outlet_step(q0, m0, q0, self.sessions@, self.history@, msg, session_id);
                        self.history = Ghost(self.history@.push(msg));
                    }
                    SendGate::Sent(msg)
                }
            },
        }
    }
}

/// In an Outlet's history, every data or acknowledgement message names a
/// session that an earlier `I2oConnect` opened and that no disconnect or
/// failed connect has ended since.
pub proof fn lemma_outlet_data_after_connect(outlet: &Outlet, i: int)
    requires
        outlet.wf(),
        0 <= i < outlet.history().len(),
        outlet.history()[i].is_session_data(),
    ensures
        exists|j: int|
            0 <= j < i && (#[trigger] outlet.history()[j]).opens(outlet.history()[i].sid())
                && forall|k: int|
                j < k < i ==> !(#[trigger] outlet.history()[k]).closes(outlet.history()[i].sid()),
{
    lemma_session_data_after_connect(outlet.history(), i);
}

/// On every connected session of an Outlet, the bytes of the `O2iRecvData`
/// emitted since the session's `I2oConnect` minus those of the
/// `I2oRecvDataResult` taken are at most the ceiling plus the largest frame
/// sent.
pub proof fn lemma_outlet_in_flight_bounded(outlet: &Outlet, session_id: u32)
    requires
        outlet.wf(),
        outlet.sessions().contains_key(session_id),
    ensures
        ({
            let h = outlet.history();
            let b = outlet.sessions()[session_id].backpressure;
            &&& sum_since_open(h, session_id, Tally::O2iData) - sum_since_open(
                h,
                session_id,
                Tally::I2oResult,
            ) <= READ_BUF_MAX_LEN + b.max_frame@
            &&& b.max_frame@ <= MAX_FRAME_LEN
        }),
{
    lemma_in_flight_bounded(&outlet.sessions()[session_id].backpressure);
}

} // verus!
