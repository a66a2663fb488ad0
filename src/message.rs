use vstd::prelude::*;

verus! {

/// A directional proxy message. `I2o*` travel from the Inlet to the Outlet,
/// `O2i*` from the Outlet to the Inlet.
#[derive(Debug, Clone, PartialEq, Eq)]
pub enum ProxyMessage {
    /// session id, is tcp, is compressed, endpoint address, method name,
    /// base64 key, client address
    I2oConnect(u32, bool, bool, String, String, String, String),
    I2oDisconnect(u32),
    I2oSendData(u32, Vec<u8>),
    I2oRecvDataResult(u32, usize),
    /// session id, success, error message
    O2iConnect(u32, bool, String),
    O2iDisconnect(u32),
    O2iRecvData(u32, Vec<u8>),
    O2iSendDataResult(u32, usize),
}

impl ProxyMessage {
    /// The session a message belongs to.
    pub open spec fn sid(self) -> u32 {
        match self {
            ProxyMessage::I2oConnect(s, _, _, _, _, _, _) => s,
            ProxyMessage::I2oDisconnect(s) => s,
            ProxyMessage::I2oSendData(s, _) => s,
            ProxyMessage::I2oRecvDataResult(s, _) => s,
            ProxyMessage::O2iConnect(s, _, _) => s,
            ProxyMessage::O2iDisconnect(s) => s,
            ProxyMessage::O2iRecvData(s, _) => s,
            ProxyMessage::O2iSendDataResult(s, _) => s,
        }
    }

    /// The message opens session `s`.
    pub open spec fn opens(self, s: u32) -> bool {
        self is I2oConnect && self.sid() == s
    }

    /// The message ends session `s`: a disconnect from either side, or a
    /// failed connect.
    pub open spec fn closes(self, s: u32) -> bool {
        self.sid() == s && (self is I2oDisconnect || self is O2iDisconnect || (
        self is O2iConnect && !self->O2iConnect_1))
    }

    /// The message carries data or a data acknowledgement.
    pub open spec fn is_session_data(self) -> bool {
        self is I2oSendData || self is I2oRecvDataResult || self is O2iRecvData
            || self is O2iSendDataResult
    }

    /// Session id of a message, computed.
    pub fn session_id(&self) -> (r: u32)
        ensures
            r == self.sid(),
    {
        match self {
            ProxyMessage::I2oConnect(s, _, _, _, _, _, _) => *s,
            ProxyMessage::I2oDisconnect(s) => *s,
            ProxyMessage::I2oSendData(s, _) => *s,
            ProxyMessage::I2oRecvDataResult(s, _) => *s,
            ProxyMessage::O2iConnect(s, _, _) => *s,
            ProxyMessage::O2iDisconnect(s) => *s,
            ProxyMessage::O2iRecvData(s, _) => *s,
            ProxyMessage::O2iSendDataResult(s, _) => *s,
        }
    }
}

/// Session `s` is open after the messages of `t`: the last message of `t`
/// that opens or ends `s` opens it.
pub open spec fn open_in(t: Seq<ProxyMessage>, s: u32) -> bool
    decreases t.len(),
{
    if t.len() == 0 {
        false
    } else if t.last().opens(s) {
        true
    } else if t.last().closes(s) {
        false
    } else {
        open_in(t.drop_last(), s)
    }
}

/// Every data message of `t` stands on a session that is open before it.
pub open spec fn data_follows_connect(t: Seq<ProxyMessage>) -> bool {
    forall|i: int|
        0 <= i < t.len() && (#[trigger] t[i]).is_session_data() ==> open_in(
            t.take(i),
            t[i].sid(),
        )
}

pub proof fn lemma_open_in_push(t: Seq<ProxyMessage>, m: ProxyMessage, s: u32)
    ensures
        open_in(t.push(m), s) == (m.opens(s) || (!m.closes(s) && open_in(t, s))),
{
    assert(t.push(m).drop_last() =~= t);
}

pub proof fn lemma_follows_push(t: Seq<ProxyMessage>, m: ProxyMessage)
    requires
        data_follows_connect(t),
        m.is_session_data() ==> open_in(t, m.sid()),
    ensures
        data_follows_connect(t.push(m)),
{
    let u = t.push(m);
    assert forall|i: int| 0 <= i < u.len() && (#[trigger] u[i]).is_session_data() implies open_in(
        u.take(i),
        u[i].sid(),
    ) by {
        if i < t.len() {
            assert(u.take(i) =~= t.take(i));
            assert(u[i] == t[i]);
        } else {
            assert(u.take(i) =~= t);
        }
    }
}

/// If session `s` is open after `t`, some message of `t` opened it and no
/// later message of `t` ended it.
pub proof fn lemma_open_has_connect(t: Seq<ProxyMessage>, s: u32)
    requires
        open_in(t, s),
    ensures
        exists|j: int|
            0 <= j < t.len() && (#[trigger] t[j]).opens(s) && forall|k: int|
                j < k < t.len() ==> !(#[trigger] t[k]).closes(s),
    decreases t.len(),
{
    let n = t.len() - 1;
    if t.last().opens(s) {
        assert(t[n].opens(s));
    } else {
        let p = t.drop_last();
        lemma_open_has_connect(p, s);
        let j = choose|j: int|
            0 <= j < p.len() && (#[trigger] p[j]).opens(s) && forall|k: int|
                j < k < p.len() ==> !(#[trigger] p[k]).closes(s);
        assert(t[j].opens(s));
        assert forall|k: int| j < k < t.len() implies !(#[trigger] t[k]).closes(s) by {
            if k < n {
                assert(t[k] == p[k]);
            }
        }
    }
}

/// Every data or acknowledgement message in a well-formed history names a
/// session that an `I2oConnect` earlier in the history opened and that no
/// disconnect or failed connect has ended since.
pub proof fn lemma_session_data_after_connect(t: Seq<ProxyMessage>, i: int)
    requires
        data_follows_connect(t),
        0 <= i < t.len(),
        t[i].is_session_data(),
    ensures
        exists|j: int|
            0 <= j < i && (#[trigger] t[j]).opens(t[i].sid()) && forall|k: int|
                j < k < i ==> !(#[trigger] t[k]).closes(t[i].sid()),
{
    let p = t.take(i);
    lemma_open_has_connect(p, t[i].sid());
    let j = choose|j: int|
        0 <= j < p.len() && (#[trigger] p[j]).opens(t[i].sid()) && forall|k: int|
            j < k < p.len() ==> !(#[trigger] p[k]).closes(t[i].sid());
    assert(t[j] == p[j]);
    assert forall|k: int| j < k < i implies !(#[trigger] t[k]).closes(t[i].sid()) by {
        assert(t[k] == p[k]);
    }
}

/// Bytes that `m` carries toward the Outlet on session `s`.
pub open spec fn i2o_data_len(m: ProxyMessage, s: u32) -> nat {
    match m {
        ProxyMessage::I2oSendData(t, d) => if t == s {
            d@.len()
        } else {
            0
        },
        _ => 0,
    }
}

/// Bytes that `m` acknowledges as written to the backend on session `s`.
pub open spec fn o2i_result_len(m: ProxyMessage, s: u32) -> nat {
    match m {
        ProxyMessage::O2iSendDataResult(t, n) => if t == s {
            n as nat
        } else {
            0
        },
        _ => 0,
    }
}

/// Bytes that `m` carries toward the Inlet on session `s`.
pub open spec fn o2i_data_len(m: ProxyMessage, s: u32) -> nat {
    match m {
        ProxyMessage::O2iRecvData(t, d) => if t == s {
            d@.len()
        } else {
            0
        },
        _ => 0,
    }
}

/// Bytes that `m` acknowledges as written to the client on session `s`.
pub open spec fn i2o_result_len(m: ProxyMessage, s: u32) -> nat {
    match m {
        ProxyMessage::I2oRecvDataResult(t, n) => if t == s {
            n as nat
        } else {
            0
        },
        _ => 0,
    }
}

/// Which byte count of a message a sum takes.
pub enum Tally {
    I2oData,
    O2iResult,
    O2iData,
    I2oResult,
}

pub open spec fn tally_len(k: Tally, m: ProxyMessage, s: u32) -> nat {
    match k {
        Tally::I2oData => i2o_data_len(m, s),
        Tally::O2iResult => o2i_result_len(m, s),
        Tally::O2iData => o2i_data_len(m, s),
        Tally::I2oResult => i2o_result_len(m, s),
    }
}

/// The sum of the counts `k` over the messages of `t` after the last one
/// that opens session `s`.
pub open spec fn sum_since_open(t: Seq<ProxyMessage>, s: u32, k: Tally) -> nat
    decreases t.len(),
{
    if t.len() == 0 {
        0
    } else if t.last().opens(s) {
        0
    } else {
        sum_since_open(t.drop_last(), s, k) + tally_len(k, t.last(), s)
    }
}

pub proof fn lemma_sum_push(
    t: Seq<ProxyMessage>,
    m: ProxyMessage,
    s: u32,
    k: Tally,
)
    ensures
        sum_since_open(t.push(m), s, k) == if m.opens(s) {
            0
        } else {
            sum_since_open(t, s, k) + tally_len(k, m, s)
        },
{
    assert(t.push(m).drop_last() =~= t);
}

} // verus!
