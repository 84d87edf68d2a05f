//! The endpoint registry: each client's last observed UDP address, and the
//! reverse index from address to client, kept consistent with each other.
use std::collections::HashMap;
use vstd::prelude::*;
use crate::ClientId;

verus! {

broadcast use vstd::std_specs::hash::group_hash_axioms;

/// An IP address: the 4 or 16 address bytes, read big-endian.
#[derive(Debug, Clone, Copy, PartialEq, Eq, Hash, Structural)]
pub enum IpAddr {
    V4(u32),
    V6(u128),
}

/// A UDP socket address.
#[derive(Debug, Clone, Copy, PartialEq, Eq, Hash, Structural)]
pub struct Endpoint {
    pub ip: IpAddr,
    pub port: u16,
}

/// What the registry knows of one client: where its datagrams last came
/// from, and when (a monotonic time in milliseconds).
#[derive(Debug, Clone, Copy, PartialEq, Eq, Structural)]
pub struct UdpClientState {
    pub udp_addr: Endpoint,
    pub last_seen: u64,
}

/// The client that the last entry for `a` in `s` names.
pub open spec fn rev_lookup(s: Seq<(Endpoint, ClientId)>, a: Endpoint) -> Option<ClientId>
    decreases s.len(),
{
    if s.len() == 0 {
        None
    } else if s.last().0 == a {
        Some(s.last().1)
    } else {
        rev_lookup(s.drop_last(), a)
    }
}

/// The mathematical content of the registry.
pub struct EpModel {
    pub addrs: Map<ClientId, UdpClientState>,
    pub rev: Map<Endpoint, ClientId>,
}

impl EpModel {
    /// The reverse index names, for each address, a client whose record
    /// holds that very address.
    pub open spec fn wf(self) -> bool {
        forall|a: Endpoint| #[trigger] self.rev.contains_key(a) ==> {
            &&& self.addrs.contains_key(self.rev[a])
            &&& self.addrs[self.rev[a]].udp_addr == a
        }
    }

    /// `rev` without `a` where `a` names `c`.
    pub open spec fn unlink(rev: Map<Endpoint, ClientId>, a: Endpoint, c: ClientId) -> Map<Endpoint, ClientId> {
        if rev.contains_key(a) && rev[a] == c {
            rev.remove(a)
        } else {
            rev
        }
    }

    /// The registry after a datagram from `c` arrived from `src` at `now`.
    /// A known client at a new address migrates: its old address no longer
    /// names it, the new one does.
    pub open spec fn observe(self, c: ClientId, src: Endpoint, now: u64) -> EpModel {
        if self.addrs.contains_key(c) {
            let old_addr = self.addrs[c].udp_addr;
            if old_addr != src {
                EpModel {
                    addrs: self.addrs.insert(c, UdpClientState { udp_addr: src, last_seen: now }),
                    rev: Self::unlink(self.rev, old_addr, c).insert(src, c),
                }
            } else {
                EpModel {
                    addrs: self.addrs.insert(c, UdpClientState { udp_addr: old_addr, last_seen: now }),
                    rev: self.rev,
                }
            }
        } else {
            EpModel {
                addrs: self.addrs.insert(c, UdpClientState { udp_addr: src, last_seen: now }),
                rev: self.rev.insert(src, c),
            }
        }
    }

    /// The registry without `c`'s record and its reverse entry.
    pub open spec fn remove(self, c: ClientId) -> EpModel {
        if self.addrs.contains_key(c) {
            EpModel {
                addrs: self.addrs.remove(c),
                rev: Self::unlink(self.rev, self.addrs[c].udp_addr, c),
            }
        } else {
            self
        }
    }

    /// The registry with `c`'s last-seen time set to `now`, if `c` is known.
    pub open spec fn touch(self, c: ClientId, now: u64) -> EpModel {
        if self.addrs.contains_key(c) {
            EpModel {
                addrs: self.addrs.insert(c, UdpClientState { udp_addr: self.addrs[c].udp_addr, last_seen: now }),
                rev: self.rev,
            }
        } else {
            self
        }
    }

    /// The address of `c`, if known.
    pub open spec fn addr_of(self, c: ClientId) -> Option<Endpoint> {
        if self.addrs.contains_key(c) {
            Some(self.addrs[c].udp_addr)
        } else {
            None
        }
    }

    /// The client that `a` resolves to, if any.
    pub open spec fn client_at(self, a: Endpoint) -> Option<ClientId> {
        if self.rev.contains_key(a) {
            Some(self.rev[a])
        } else {
            None
        }
    }
}

/// The endpoint registry.
pub struct AppUdpState {
    udp_addrs: HashMap<ClientId, UdpClientState>,
    addr_to_client: Vec<(Endpoint, ClientId)>,
}

/// The map that a list of reverse entries stands for.
pub open spec fn rev_map(s: Seq<(Endpoint, ClientId)>) -> Map<Endpoint, ClientId> {
    Map::new(|a: Endpoint| rev_lookup(s, a) is Some, |a: Endpoint| rev_lookup(s, a)->Some_0)
}

impl View for AppUdpState {
    type V = EpModel;

    closed spec fn view(&self) -> EpModel {
        EpModel { addrs: self.udp_addrs@, rev: rev_map(self.addr_to_client@) }
    }
}

proof fn lemma_rev_push(s: Seq<(Endpoint, ClientId)>, a: Endpoint, c: ClientId)
    ensures
        rev_map(s.push((a, c))) == rev_map(s).insert(a, c),
{
    assert forall|b: Endpoint| rev_lookup(s.push((a, c)), b) == (if b == a { Some(c) } else { rev_lookup(s, b) }) by {
        assert(s.push((a, c)).drop_last() =~= s);
    }
    assert(rev_map(s.push((a, c))) =~= rev_map(s).insert(a, c));
}

/// Removes every entry for `a` from `s`.
fn rev_remove(s: &Vec<(Endpoint, ClientId)>, a: Endpoint) -> (r: Vec<(Endpoint, ClientId)>)
    ensures
        rev_map(r@) == rev_map(s@).remove(a),
{
    let mut out: Vec<(Endpoint, ClientId)> = Vec::new();
    let mut i: usize = 0;
    while i < s.len()
        invariant
            i <= s@.len(),
            forall|b: Endpoint| #[trigger] rev_lookup(out@, b) == (if b == a { None } else { rev_lookup(s@.take(i as int), b) }),
        decreases s@.len() - i,
    {
        let e = s[i];
        assert(s@.take(i + 1).drop_last() =~= s@.take(i as int));
        assert(s@.take(i + 1).last() == e);
        if e.0 != a {
            let ghost prev = out@;
            out.push(e);
            assert forall|b: Endpoint| #[trigger] rev_lookup(out@, b) == (if b == a { None } else { rev_lookup(s@.take(i + 1), b) }) by {
                assert(out@.drop_last() =~= prev);
                assert(out@.last() == e);
                assert(rev_lookup(prev, b) == (if b == a { None } else { rev_lookup(s@.take(i as int), b) }));
            }
        }
        i = i + 1;
    }
    assert(s@.take(s@.len() as int) =~= s@);
    assert(rev_map(out@) =~= rev_map(s@).remove(a));
    out
}

/// The last entry for `a` in `s`.
fn rev_get(s: &Vec<(Endpoint, ClientId)>, a: Endpoint) -> (r: Option<ClientId>)
    ensures
        r == rev_lookup(s@, a),
{
    let mut i: usize = s.len();
    assert(s@.take(i as int) =~= s@);
    while i > 0
        invariant
            i <= s@.len(),
            rev_lookup(s@, a) == rev_lookup(s@.take(i as int), a),
        decreases i,
    {
        let e = s[i - 1];
        assert(s@.take(i as int).drop_last() =~= s@.take(i - 1));
        assert(s@.take(i as int).last() == e);
        if e.0 == a {
            return Some(e.1);
        }
        i = i - 1;
    }
    None
}

impl AppUdpState {
    pub closed spec fn wf(&self) -> bool {
        self@.wf()
    }

    /// An empty registry.
    pub fn new() -> (r: Self)
        ensures
            r.wf(),
            r@.addrs == Map::<ClientId, UdpClientState>::empty(),
            r@.rev == Map::<Endpoint, ClientId>::empty(),
    {
        let r = AppUdpState { udp_addrs: HashMap::new(), addr_to_client: Vec::new() };
        assert(r@.addrs =~= Map::empty());
        assert(r@.rev =~= Map::empty());
        r
    }

    /// Drops the reverse entry for `a` if it names `c`.
    fn unlink(&mut self, a: Endpoint, c: ClientId)
        ensures
            final(self).udp_addrs@ == old(self).udp_addrs@,
            final(self)@.rev == EpModel::unlink(old(self)@.rev, a, c),
    {
        if rev_get(&self.addr_to_client, a) == Some(c) {
            self.addr_to_client = rev_remove(&self.addr_to_client, a);
        }
    }

    /// Makes `a` name `c` in the reverse index.
    fn link(&mut self, a: Endpoint, c: ClientId)
        ensures
            final(self).udp_addrs@ == old(self).udp_addrs@,
            final(self)@.rev == old(self)@.rev.insert(a, c),
    {
        let mut v = rev_remove(&self.addr_to_client, a);
        proof {
            lemma_rev_push(v@, a, c);
        }
        v.push((a, c));
        self.addr_to_client = v;
        assert(self@.rev =~= old(self)@.rev.insert(a, c));
    }

    /// Records a datagram from `client_id` that arrived from `src` at `now`.
    pub fn observe(&mut self, client_id: ClientId, src: Endpoint, now: u64)
        requires
            old(self).wf(),
        ensures
            final(self).wf(),
            final(self)@ == old(self)@.observe(client_id, src, now),
    {
        match self.udp_addrs.get(&client_id) {
            Some(ep) => {
                let old_addr = ep.udp_addr;
                if old_addr != src {
                    self.unlink(old_addr, client_id);
                    self.link(src, client_id);
                    self.udp_addrs.insert(client_id, UdpClientState { udp_addr: src, last_seen: now });
                } else {
                    self.udp_addrs.insert(client_id, UdpClientState { udp_addr: old_addr, last_seen: now });
                }
            },
            None => {
                self.udp_addrs.insert(client_id, UdpClientState { udp_addr: src, last_seen: now });
                self.link(src, client_id);
            },
        }
        assert forall|a: Endpoint| #[trigger] self@.rev.contains_key(a) implies {
            &&& self@.addrs.contains_key(self@.rev[a])
            &&& self@.addrs[self@.rev[a]].udp_addr == a
        } by {
            if a != src {
                assert(old(self)@.rev.contains_key(a));
            }
        }
    }

    /// Forgets `client_id`: its record, and the reverse entry of its address.
    pub fn cleanup_udp(&mut self, client_id: ClientId)
        requires
            old(self).wf(),
        ensures
            final(self).wf(),
            final(self)@ == old(self)@.remove(client_id),
    {
        match self.udp_addrs.remove(&client_id) {
            Some(ep) => {
                self.unlink(ep.udp_addr, client_id);
            },
            None => {
                assert(self@.addrs =~= old(self)@.addrs);
            },
        }
        assert forall|a: Endpoint| #[trigger] self@.rev.contains_key(a) implies {
            &&& self@.addrs.contains_key(self@.rev[a])
            &&& self@.addrs[self@.rev[a]].udp_addr == a
        } by {
            assert(old(self)@.rev.contains_key(a));
        }
    }

    /// Sets the last-seen time of `client_id`, if it is known.
    pub fn touch(&mut self, client_id: ClientId, now: u64)
        requires
            old(self).wf(),
        ensures
            final(self).wf(),
            final(self)@ == old(self)@.touch(client_id, now),
    {
        if let Some(ep) = self.udp_addrs.get(&client_id) {
            let addr = ep.udp_addr;
            self.udp_addrs.insert(client_id, UdpClientState { udp_addr: addr, last_seen: now });
        }
        assert forall|a: Endpoint| #[trigger] self@.rev.contains_key(a) implies {
            &&& self@.addrs.contains_key(self@.rev[a])
            &&& self@.addrs[self@.rev[a]].udp_addr == a
        } by {
            assert(old(self)@.rev.contains_key(a));
        }
    }

    /// The address last observed for `client_id`.
    pub fn addr_of(&self, client_id: ClientId) -> (r: Option<Endpoint>)
        ensures
            r == self@.addr_of(client_id),
    {
        match self.udp_addrs.get(&client_id) {
            Some(ep) => Some(ep.udp_addr),
            None => None,
        }
    }

    /// The client whose datagrams come from `a`.
    pub fn client_at(&self, a: Endpoint) -> (r: Option<ClientId>)
        ensures
            r == self@.client_at(a),
    {
        rev_get(&self.addr_to_client, a)
    }
}

/// Recording a datagram keeps the reverse index consistent with the
/// records.
pub proof fn lemma_observe_wf(e: EpModel, c: ClientId, src: Endpoint, now: u64)
    requires
        e.wf(),
    ensures
        e.observe(c, src, now).wf(),
        e.observe(c, src, now).client_at(src) == Some(c) || (e.addrs.contains_key(c) && e.addrs[c].udp_addr == src),
{
    let e2 = e.observe(c, src, now);
    assert forall|a: Endpoint| #[trigger] e2.rev.contains_key(a) implies {
        &&& e2.addrs.contains_key(e2.rev[a])
        &&& e2.addrs[e2.rev[a]].udp_addr == a
    } by {
        if a != src {
            assert(e.rev.contains_key(a));
        }
    }
}

/// When a client's source address changes between two datagrams, the old
/// address no longer resolves to it and the new one does; every address
/// still resolves to at most one client, whose record holds that address.
pub proof fn lemma_endpoint_migration(e: EpModel, c: ClientId, a1: Endpoint, a2: Endpoint, t1: u64, t2: u64)
    requires
        e.wf(),
        a1 != a2,
    ensures
        ({
            let e2 = e.observe(c, a1, t1).observe(c, a2, t2);
            &&& e2.client_at(a2) == Some(c)
            &&& e2.client_at(a1) != Some(c)
            &&& e2.addr_of(c) == Some(a2)
            &&& e2.wf()
        }),
{
    let e1 = e.observe(c, a1, t1);
    lemma_observe_wf(e, c, a1, t1);
    lemma_observe_wf(e1, c, a2, t2);
}

} // verus!
