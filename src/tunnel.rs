use crate::text::{address_port, decimal, get_tunnel_address_port, last_colon, push_decimal};
use vstd::prelude::*;

verus! {

/// A tunnel between two players: clients reach `source` on the sender's
/// side, and the receiver dials `endpoint`.
#[derive(Debug, Clone, PartialEq, Eq)]
pub struct Model {
    pub id: u32,
    pub source: String,
    pub endpoint: String,
    pub enabled: u8,
    pub sender: u32,
    pub receiver: u32,
    pub description: String,
    pub tunnel_type: u32,
    pub password: String,
    pub username: String,
}

/// A tunnel as plain values.
pub struct TunnelView {
    pub id: u32,
    pub source: Seq<char>,
    pub endpoint: Seq<char>,
    pub enabled: u8,
    pub sender: u32,
    pub receiver: u32,
    pub description: Seq<char>,
    pub tunnel_type: u32,
    pub password: Seq<char>,
    pub username: Seq<char>,
}

impl Model {
    /// A copy of the tunnel.
    pub fn duplicate(&self) -> (r: Model)
        ensures
            r@ == self@,
    {
        Model {
            id: self.id,
            source: self.source.clone(),
            endpoint: self.endpoint.clone(),
            enabled: self.enabled,
            sender: self.sender,
            receiver: self.receiver,
            description: self.description.clone(),
            tunnel_type: self.tunnel_type,
            password: self.password.clone(),
            username: self.username.clone(),
        }
    }
}

impl Model {
    /// `id:<id>-sender:<sender>-enabled:<enabled>`.
    pub fn outlet_description(&self) -> (r: String)
        ensures
            r@ == outlet_text(self@),
    {
        proof {
            reveal_strlit("id:");
            reveal_strlit("-sender:");
            reveal_strlit("-enabled:");
        }
        let mut s = String::new();
        s.append("id:");
        push_decimal(&mut s, self.id as u64);
        s.append("-sender:");
        push_decimal(&mut s, self.sender as u64);
        s.append("-enabled:");
        push_decimal(&mut s, self.enabled as u64);
        s
    }

    /// Every field of the tunnel but its description, as
    /// `id:..-source:..-endpoint:..-sender:..-receiver:..-tunnel_type:..-username:..-password:..-enabled:..`.
    pub fn inlet_description(&self) -> (r: String)
        ensures
            r@ == inlet_text(self@),
    {
        proof {
            reveal_strlit("id:");
            reveal_strlit("-source:");
            reveal_strlit("-endpoint:");
            reveal_strlit("-sender:");
            reveal_strlit("-receiver:");
            reveal_strlit("-tunnel_type:");
            reveal_strlit("-username:");
            reveal_strlit("-password:");
            reveal_strlit("-enabled:");
        }
        let mut s = String::new();
        s.append("id:");
        push_decimal(&mut s, self.id as u64);
        s.append("-source:");
        s.append(self.source.as_str());
        s.append("-endpoint:");
        s.append(self.endpoint.as_str());
        s.append("-sender:");
        push_decimal(&mut s, self.sender as u64);
        s.append("-receiver:");
        push_decimal(&mut s, self.receiver as u64);
        s.append("-tunnel_type:");
        push_decimal(&mut s, self.tunnel_type as u64);
        s.append("-username:");
        s.append(self.username.as_str());
        s.append("-password:");
        s.append(self.password.as_str());
        s.append("-enabled:");
        push_decimal(&mut s, self.enabled as u64);
        s
    }
}

/// The Outlet-side description of tunnel `t`.
pub open spec fn outlet_text(t: TunnelView) -> Seq<char> {
    "id:"@ + decimal(t.id as nat) + "-sender:"@ + decimal(t.sender as nat) + "-enabled:"@
        + decimal(t.enabled as nat)
}

/// The Inlet-side description of tunnel `t`.
pub open spec fn inlet_text(t: TunnelView) -> Seq<char> {
    "id:"@ + decimal(t.id as nat) + "-source:"@ + t.source + "-endpoint:"@ + t.endpoint
        + "-sender:"@ + decimal(t.sender as nat) + "-receiver:"@ + decimal(t.receiver as nat)
        + "-tunnel_type:"@ + decimal(t.tunnel_type as nat) + "-username:"@ + t.username
        + "-password:"@ + t.password + "-enabled:"@ + decimal(t.enabled as nat)
}

impl View for Model {
    type V = TunnelView;

    open spec fn view(&self) -> TunnelView {
        TunnelView {
            id: self.id,
            source: self.source@,
            endpoint: self.endpoint@,
            enabled: self.enabled,
            sender: self.sender,
            receiver: self.receiver,
            description: self.description@,
            tunnel_type: self.tunnel_type,
            password: self.password@,
            username: self.username@,
        }
    }
}

/// Why a tunnel was refused.
#[derive(Debug, Clone, Copy, PartialEq, Eq, Structural)]
pub enum TunnelError {
    AddressFormat,
    PortConflict,
    NotFound,
}

/// A source address is `host:port` with a port.
pub open spec fn valid_source(s: Seq<char>) -> bool {
    address_port(s) is Some
}

/// An endpoint address is `host:port` with a port and a non-empty host.
pub open spec fn valid_endpoint(s: Seq<char>) -> bool {
    address_port(s) is Some && last_colon(s) > 0
}

pub fn is_valid_tunnel_source_address(addr: &String) -> (r: bool)
    ensures
        r == valid_source(addr@),
{
    get_tunnel_address_port(addr).is_some()
}

pub fn is_valid_tunnel_endpoint_address(addr: &String) -> (r: bool)
    ensures
        r == valid_endpoint(addr@),
{
    if get_tunnel_address_port(addr).is_none() {
        return false;
    }
    let v = crate::text::chars_of(addr.as_str());
    let mut i: usize = v.len();
    while i > 0
        invariant
            i <= v@.len(),
            v@ == addr@,
            address_port(addr@) is Some,
            forall|j: int| i <= j < v@.len() ==> v@[j] != ':',
        decreases i,
    {
        if v[i - 1] == ':' {
            proof {
                lemma_last_colon_is(v@, i - 1);
            }
            return i - 1 > 0;
        }
        i = i - 1;
    }
    proof {
        lemma_last_colon_none(v@);
    }
    false
}

proof fn lemma_last_colon_is(s: Seq<char>, k: int)
    requires
        0 <= k < s.len(),
        s[k] == ':',
        forall|j: int| k < j < s.len() ==> s[j] != ':',
    ensures
        last_colon(s) == k,
    decreases s.len(),
{
    if s.last() != ':' {
        lemma_last_colon_is(s.drop_last(), k);
    }
}

proof fn lemma_last_colon_none(s: Seq<char>)
    requires
        forall|j: int| 0 <= j < s.len() ==> s[j] != ':',
    ensures
        last_colon(s) == -1,
    decreases s.len(),
{
    if s.len() > 0 {
        lemma_last_colon_none(s.drop_last());
    }
}

/// Some tunnel of `t` other than `exclude` has sender `sender` and its
/// source on port `port`.
pub open spec fn port_conflict(
    t: Seq<Model>,
    sender: u32,
    port: Option<u16>,
    exclude: Option<u32>,
) -> bool {
    exists|i: int|
        0 <= i < t.len() && (#[trigger] t[i]).sender == sender && exclude != Some(t[i].id)
            && address_port(t[i].source@) == port
}

/// What `validate_tunnel` decides for tunnel `t` against table `tunnels`.
pub open spec fn validation(tunnels: Seq<Model>, t: TunnelView, exclude: Option<u32>) -> Result<
    (),
    TunnelError,
> {
    if !valid_source(t.source) || !valid_endpoint(t.endpoint) {
        Err(TunnelError::AddressFormat)
    } else if port_conflict(tunnels, t.sender, address_port(t.source), exclude) {
        Err(TunnelError::PortConflict)
    } else {
        Ok(())
    }
}

/// The page size that a query uses.
pub open spec fn effective_page_size(page_size: nat) -> nat {
    if page_size == 0 || page_size > 100 {
        10
    } else {
        page_size
    }
}

/// Page `page_number` of `t`.
pub open spec fn page_of(t: Seq<Model>, page_number: nat, page_size: nat) -> Seq<Model> {
    let size = effective_page_size(page_size);
    let start = page_number * size;
    if start <= t.len() {
        t.subrange(start as int, if start + size <= t.len() { start + size } else { t.len() } as int)
    } else {
        Seq::empty()
    }
}

proof fn lemma_page_past_end(p: int, size: int, len: int)
    requires
        size > 0,
        len >= 0,
        p > len / size,
    ensures
        p * size > len,
{
    assert(p >= len / size + 1);
    assert(p * size >= (len / size + 1) * size) by (nonlinear_arith)
        requires
            p >= len / size + 1,
            size > 0,
    ;
    assert((len / size + 1) * size > len) by (nonlinear_arith)
        requires
            size > 0,
            len >= 0,
    ;
}

proof fn lemma_page_in_range(p: int, size: int, len: int)
    requires
        size > 0,
        len >= 0,
        0 <= p <= len / size,
    ensures
        0 <= p * size <= len,
{
    assert(p * size <= (len / size) * size) by (nonlinear_arith)
        requires
            p <= len / size,
            size > 0,
    ;
    assert((len / size) * size <= len) by (nonlinear_arith)
        requires
            size > 0,
            len >= 0,
    ;
    assert(p * size >= 0) by (nonlinear_arith)
        requires
            p >= 0,
            size > 0,
    ;
}

/// The in-memory table of tunnels the server knows.
#[derive(Debug)]
pub struct TunnelManager {
    pub tunnels: Vec<Model>,
}

impl TunnelManager {
    pub fn new() -> (r: Self)
        ensures
            r.tunnels@.len() == 0,
    {
        TunnelManager { tunnels: Vec::new() }
    }

    /// Whether another tunnel of `sender` (not `tunnel_id`) already listens
    /// on `port`.
    pub fn port_conflict_detection(
        &self,
        sender: u32,
        port: Option<u16>,
        tunnel_id: Option<u32>,
    ) -> (r: bool)
        ensures
            r == port_conflict(self.tunnels@, sender, port, tunnel_id),
    {
        let mut i: usize = 0;
        while i < self.tunnels.len()
            invariant
                i <= self.tunnels@.len(),
                forall|j: int|
                    0 <= j < i ==> !((#[trigger] self.tunnels@[j]).sender == sender && tunnel_id
                        != Some(self.tunnels@[j].id) && address_port(self.tunnels@[j].source@)
                        == port),
            decreases self.tunnels@.len() - i,
        {
            let x = &self.tunnels[i];
            if x.sender == sender && tunnel_id != Some(x.id) && get_tunnel_address_port(&x.source)
                == port {
                return true;
            }
            i = i + 1;
        }
        false
    }

    /// The first tunnel with id `id`.
    pub fn get_tunnel(&self, id: u32) -> (r: Option<&Model>)
        ensures
            r is None <==> forall|i: int| 0 <= i < self.tunnels@.len() ==> (#[trigger] self.tunnels@[i]).id != id,
            r matches Some(m) ==> exists|i: int|
                0 <= i < self.tunnels@.len() && *m == #[trigger] self.tunnels@[i] && m.id == id
                    && forall|j: int| 0 <= j < i ==> self.tunnels@[j].id != id,
    {
        match self.position(id) {
            Some(i) => Some(&self.tunnels[i]),
            None => None,
        }
    }

    /// Index of the first tunnel with id `id`.
    pub fn position(&self, id: u32) -> (r: Option<usize>)
        ensures
            r is None <==> forall|i: int| 0 <= i < self.tunnels@.len() ==> (#[trigger] self.tunnels@[i]).id != id,
            r matches Some(k) ==> k < self.tunnels@.len() && self.tunnels@[k as int].id == id
                && forall|j: int| 0 <= j < k ==> self.tunnels@[j].id != id,
    {
        let mut i: usize = 0;
        while i < self.tunnels.len()
            invariant
                i <= self.tunnels@.len(),
                forall|j: int| 0 <= j < i ==> (#[trigger] self.tunnels@[j]).id != id,
            decreases self.tunnels@.len() - i,
        {
            if self.tunnels[i].id == id {
                return Some(i);
            }
            i = i + 1;
        }
        None
    }

    /// Checks a tunnel before it is added (`exclude` is `None`) or replaces
    /// tunnel `exclude`: its addresses must be well formed, and no other
    /// tunnel of its sender may listen on the same port.
    pub fn validate_tunnel(&self, tunnel: &Model, exclude: Option<u32>) -> (r: Result<(), TunnelError>)
        ensures
            r == validation(self.tunnels@, tunnel@, exclude),
    {
        if !is_valid_tunnel_source_address(&tunnel.source) || !is_valid_tunnel_endpoint_address(
            &tunnel.endpoint,
        ) {
            return Err(TunnelError::AddressFormat);
        }
        if self.port_conflict_detection(
            tunnel.sender,
            get_tunnel_address_port(&tunnel.source),
            exclude,
        ) {
            return Err(TunnelError::PortConflict);
        }
        Ok(())
    }

    /// Adds a tunnel that passed `validate_tunnel` and was stored.
    pub fn insert_tunnel(&mut self, tunnel: Model)
        ensures
            final(self).tunnels@ == old(self).tunnels@.push(tunnel),
    {
        self.tunnels.push(tunnel);
    }

    /// Checks an update of tunnel `tunnel.id`: `Ok` holds the index of the
    /// tunnel it replaces.
    pub fn check_update_tunnel(&self, tunnel: &Model) -> (r: Result<usize, TunnelError>)
        ensures
            validation(self.tunnels@, tunnel@, Some(tunnel.id)) is Err ==> r is Err && r->Err_0
                == validation(self.tunnels@, tunnel@, Some(tunnel.id))->Err_0,
            validation(self.tunnels@, tunnel@, Some(tunnel.id)) is Ok ==> match r {
                Ok(k) => k < self.tunnels@.len() && self.tunnels@[k as int].id == tunnel.id
                    && forall|j: int| 0 <= j < k ==> self.tunnels@[j].id != tunnel.id,
                Err(e) => e == TunnelError::NotFound && forall|i: int|
                    0 <= i < self.tunnels@.len() ==> (#[trigger] self.tunnels@[i]).id != tunnel.id,
            },
    {
        match self.validate_tunnel(tunnel, Some(tunnel.id)) {
            Err(e) => Err(e),
            Ok(()) => match self.position(tunnel.id) {
                Some(k) => Ok(k),
                None => Err(TunnelError::NotFound),
            },
        }
    }

    /// Puts `tunnel` in place of the one at `index`, and returns that one.
    pub fn replace_tunnel(&mut self, index: usize, tunnel: Model) -> (r: Model)
        requires
            index < old(self).tunnels@.len(),
        ensures
            r == old(self).tunnels@[index as int],
            final(self).tunnels@ == old(self).tunnels@.update(index as int, tunnel),
    {
        let mut tunnel = tunnel;
        std::mem::swap(&mut self.tunnels[index], &mut tunnel);
        tunnel
    }

    /// Removes the first tunnel with id `id` and returns it.
    pub fn remove_tunnel(&mut self, id: u32) -> (r: Option<Model>)
        ensures
            r is None <==> forall|i: int| 0 <= i < old(self).tunnels@.len() ==> (#[trigger] old(self).tunnels@[i]).id != id,
            r is None ==> final(self).tunnels@ == old(self).tunnels@,
            r matches Some(m) ==> exists|k: int|
                0 <= k < old(self).tunnels@.len() && m == old(self).tunnels@[k] && m.id == id
                    && (forall|j: int| 0 <= j < k ==> (#[trigger] old(self).tunnels@[j]).id != id)
                    && final(self).tunnels@ == old(self).tunnels@.remove(k),
    {
        match self.position(id) {
            Some(k) => Some(self.tunnels.remove(k)),
            None => None,
        }
    }

    /// One page of the table: pages hold `page_size` tunnels, or 10 when
    /// `page_size` is 0 or over 100; pages past the end are empty.
    pub fn query(&self, page_number: usize, page_size: usize) -> (r: Vec<Model>)
        ensures
            r@.len() == page_of(self.tunnels@, page_number as nat, page_size as nat).len(),
            r@.map_values(|m: Model| m@) == page_of(self.tunnels@, page_number as nat, page_size as nat).map_values(
                |m: Model| m@,
            ),
    {
        let size: usize = if page_size == 0 || page_size > 100 {
            10
        } else {
            page_size
        };
        let len = self.tunnels.len();
        if page_number > len / size {
            proof {
                lemma_page_past_end(page_number as int, size as int, len as int);
            }
            return Vec::new();
        }
        proof {
            lemma_page_in_range(page_number as int, size as int, len as int);
        }
        let start = page_number * size;
        let end = if len - start < size {
            len
        } else {
            start + size
        };
        let mut out: Vec<Model> = Vec::new();
        let mut i: usize = start;
        while i < end
            invariant
                start <= i <= end <= self.tunnels@.len(),
                out@.len() == i - start,
                out@.map_values(|m: Model| m@) == self.tunnels@.subrange(start as int, i as int).map_values(
                    |m: Model| m@,
                ),
            decreases end - i,
        {
            let m = self.tunnels[i].duplicate();
            let ghost prev = out@;
            out.push(m);
            proof {
                let a = out@.map_values(|m: Model| m@);
                let b = self.tunnels@.subrange(start as int, i + 1).map_values(|m: Model| m@);
                let c = self.tunnels@.subrange(start as int, i as int).map_values(|m: Model| m@);
                assert(prev.map_values(|m: Model| m@) == c);
                assert forall|k: int| 0 <= k < a.len() implies a[k] == b[k] by {
                    if k < prev.len() {
                        assert(a[k] == prev.map_values(|m: Model| m@)[k]);
                        assert(c[k] == b[k]);
                    }
                }
                assert(out@.map_values(|m: Model| m@) =~= self.tunnels@.subrange(start as int, i + 1).map_values(
                    |m: Model| m@,
                ));
            }
            i = i + 1;
        }
        out
    }
}

/// A notice of a tunnel change to player `p`, unless `p` is 0 (no player).
pub open spec fn notice(p: u32, is_delete: bool) -> Seq<(u32, bool)> {
    if p != 0 {
        seq![(p, is_delete)]
    } else {
        Seq::empty()
    }
}

/// The notices of a tunnel added or deleted: to its sender, then to its
/// receiver when that is another player.
pub open spec fn change_notices(sender: u32, receiver: u32, is_delete: bool) -> Seq<(u32, bool)> {
    notice(sender, is_delete) + if receiver != sender {
        notice(receiver, is_delete)
    } else {
        Seq::empty()
    }
}

/// The notices of a tunnel updated from sender `os` and receiver `orv` to
/// sender `s` and receiver `r`: deletions to the old players that differ
/// from the new sender, then the notices of an addition.
pub open spec fn update_notices(os: u32, orv: u32, s: u32, r: u32) -> Seq<(u32, bool)> {
    (if os != s {
        notice(os, true)
    } else {
        Seq::empty()
    }) + (if orv != s {
        notice(orv, true)
    } else {
        Seq::empty()
    }) + change_notices(s, r, false)
}

fn push_notice(v: &mut Vec<(u32, bool)>, p: u32, is_delete: bool)
    ensures
        final(v)@ == old(v)@ + notice(p, is_delete),
{
    if p != 0 {
        v.push((p, is_delete));
    }
    assert(v@ =~= old(v)@ + notice(p, is_delete));
}

/// The players to tell of a tunnel added or deleted, each with whether it
/// is a deletion.
pub fn tunnel_change_notices(tunnel: &Model, is_delete: bool) -> (r: Vec<(u32, bool)>)
    ensures
        r@ == change_notices(tunnel.sender, tunnel.receiver, is_delete),
{
    let mut v: Vec<(u32, bool)> = Vec::new();
    push_notice(&mut v, tunnel.sender, is_delete);
    if tunnel.receiver != tunnel.sender {
        push_notice(&mut v, tunnel.receiver, is_delete);
    }
    assert(v@ =~= change_notices(tunnel.sender, tunnel.receiver, is_delete));
    v
}

/// The players to tell of tunnel `previous` replaced by `tunnel`.
pub fn tunnel_update_notices(previous: &Model, tunnel: &Model) -> (r: Vec<(u32, bool)>)
    ensures
        r@ == update_notices(previous.sender, previous.receiver, tunnel.sender, tunnel.receiver),
{
    let mut v: Vec<(u32, bool)> = Vec::new();
    if previous.sender != tunnel.sender {
        push_notice(&mut v, previous.sender, true);
    }
    if previous.receiver != tunnel.sender {
        push_notice(&mut v, previous.receiver, true);
    }
    push_notice(&mut v, tunnel.sender, false);
    if tunnel.receiver != tunnel.sender {
        push_notice(&mut v, tunnel.receiver, false);
    }
    assert(v@ =~= update_notices(previous.sender, previous.receiver, tunnel.sender, tunnel.receiver));
    v
}

} // verus!
