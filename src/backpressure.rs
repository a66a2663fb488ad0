use vstd::prelude::*;

verus! {

/// Ceiling on the bytes in flight toward the peer before the producer waits.
pub const READ_BUF_MAX_LEN: u64 = 1048576;

/// Largest frame a data message may carry: its length travels as a `u32`.
pub const MAX_FRAME_LEN: u64 = 4294967295;

/// The per-session backpressure counter (`read_buf_len`): bytes sent toward
/// the peer and not yet acknowledged, clamped at zero on acknowledgement.
pub struct Backpressure {
    pub read_buf_len: u64,
    /// Total bytes sent on this session.
    pub sent: Ghost<nat>,
    /// Total bytes acknowledged on this session.
    pub acked: Ghost<nat>,
    /// Largest frame sent on this session.
    pub max_frame: Ghost<nat>,
}

impl Backpressure {
    pub open spec fn wf(&self) -> bool {
        &&& self.sent@ - self.acked@ <= self.read_buf_len
        &&& self.read_buf_len <= READ_BUF_MAX_LEN + self.max_frame@
        &&& self.max_frame@ <= MAX_FRAME_LEN
    }

    pub fn new() -> (r: Self)
        ensures
            r.wf(),
            r.read_buf_len == 0,
            r.sent@ == 0,
            r.acked@ == 0,
            r.max_frame@ == 0,
    {
        Backpressure { read_buf_len: 0, sent: Ghost(0), acked: Ghost(0), max_frame: Ghost(0) }
    }

    /// Whether a new frame may be sent now: the counter is at most the ceiling.
    pub fn can_send(&self) -> (r: bool)
        ensures
            r == (self.read_buf_len <= READ_BUF_MAX_LEN),
    {
        self.read_buf_len <= READ_BUF_MAX_LEN
    }

    /// Counts a frame of `len` bytes as sent.
    pub fn on_send(&mut self, len: u64)
        requires
            old(self).wf(),
            old(self).read_buf_len <= READ_BUF_MAX_LEN,
            len <= MAX_FRAME_LEN,
        ensures
            final(self).wf(),
            final(self).read_buf_len == old(self).read_buf_len + len,
            final(self).sent@ == old(self).sent@ + len,
            final(self).acked@ == old(self).acked@,
            final(self).max_frame@ == if len > old(self).max_frame@ {
                len as nat
            } else {
                old(self).max_frame@
            },
    {
        self.read_buf_len = self.read_buf_len + len;
        self.sent = Ghost((self.sent@ + len) as nat);
        proof {
            if len > self.max_frame@ {
                self.max_frame = Ghost(len as nat);
            }
        }
    }

    /// Takes an acknowledgement of `len` bytes: the counter drops by `len`,
    /// and to zero when `len` is at least the counter.
    pub fn on_ack(&mut self, len: u64)
        requires
            old(self).wf(),
        ensures
            final(self).wf(),
            final(self).read_buf_len == if old(self).read_buf_len <= len {
                0
            } else {
                old(self).read_buf_len - len
            },
            final(self).sent@ == old(self).sent@,
            final(self).acked@ == old(self).acked@ + len,
            final(self).max_frame@ == old(self).max_frame@,
    {
        if self.read_buf_len <= len {
            self.read_buf_len = 0;
        } else {
            self.read_buf_len = self.read_buf_len - len;
        }
        self.acked = Ghost((self.acked@ + len) as nat);
    }
}

/// On every session the bytes sent minus the bytes acknowledged never exceed
/// the ceiling plus the largest frame sent.
pub proof fn lemma_in_flight_bounded(b: &Backpressure)
    requires
        b.wf(),
    ensures
        b.sent@ - b.acked@ <= READ_BUF_MAX_LEN + b.max_frame@,
{
}

} // verus!
