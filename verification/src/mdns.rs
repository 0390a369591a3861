//! Discovery adapter: mirrors which addresses are currently believed valid
//! for each discovered peer. Addresses are added by discovery events and
//! removed by expiry events; a peer whose last address expires loses its
//! entry entirely, so no peer is ever stored with an empty address set.

use vstd::prelude::*;

use crate::events::NodeEvent;
use crate::kv;
use crate::peer::{Addr, PeerId};

verus! {

/// The abstract value of a snapshot of discovery entries.
pub open spec fn entries_view(s: Seq<(PeerId, Vec<Addr>)>) -> Seq<(Seq<u8>, Seq<Seq<u8>>)> {
    s.map_values(|e: (PeerId, Vec<Addr>)| (e.0@, e.1@.map_values(|a: Addr| a@)))
}

/// The mapping an entry snapshot denotes.
pub open spec fn entries_as_map(s: Seq<(PeerId, Vec<Addr>)>) -> Map<Seq<u8>, Seq<Seq<u8>>> {
    kv::as_map(entries_view(s))
}

/// How the discovery mapping moves under a discovery-add event: the address
/// joins the peer's set, which is created if absent; adding an address that
/// is already present changes nothing.
pub open spec fn discovery_add(
    m: Map<Seq<u8>, Seq<Seq<u8>>>,
    p: Seq<u8>,
    a: Seq<u8>,
) -> Map<Seq<u8>, Seq<Seq<u8>>> {
    if m.contains_key(p) {
        if m[p].contains(a) {
            m
        } else {
            m.insert(p, m[p].push(a))
        }
    } else {
        m.insert(p, seq![a])
    }
}

/// How the discovery mapping moves under a discovery-expire event: the
/// address leaves the peer's set if present; a peer left with no address
/// loses its entry; expiring an unknown peer or address changes nothing.
pub open spec fn discovery_expire(
    m: Map<Seq<u8>, Seq<Seq<u8>>>,
    p: Seq<u8>,
    a: Seq<u8>,
) -> Map<Seq<u8>, Seq<Seq<u8>>> {
    if !m.contains_key(p) {
        m
    } else if !m[p].contains(a) {
        m
    } else {
        let rest = m[p].remove_value(a);
        if rest.len() == 0 {
            m.remove(p)
        } else {
            m.insert(p, rest)
        }
    }
}

/// How the discovery mapping moves under any node event.
pub open spec fn discovery_step(
    m: Map<Seq<u8>, Seq<Seq<u8>>>,
    ev: NodeEvent,
) -> Map<Seq<u8>, Seq<Seq<u8>>> {
    match ev {
        NodeEvent::DiscoveryAdd { peer, addr } => discovery_add(m, peer@, addr@),
        NodeEvent::DiscoveryExpire { peer, addr } => discovery_expire(m, peer@, addr@),
        _ => m,
    }
}

/// The discovery adapter's state mirror: each discovered peer with its
/// currently valid addresses.
pub struct State {
    node_list: Vec<(PeerId, Vec<Addr>)>,
}

impl View for State {
    type V = Map<Seq<u8>, Seq<Seq<u8>>>;

    closed spec fn view(&self) -> Map<Seq<u8>, Seq<Seq<u8>>> {
        entries_as_map(self.node_list@)
    }
}

impl State {
    pub closed spec fn entries(&self) -> Seq<(Seq<u8>, Seq<Seq<u8>>)> {
        entries_view(self.node_list@)
    }

    /// Entries have pairwise-distinct peers, and each holds a non-empty,
    /// duplicate-free address set.
    pub closed spec fn wf(&self) -> bool {
        &&& kv::keys_distinct(self.entries())
        &&& forall|i: int|
            0 <= i < self.entries().len() ==> (#[trigger] self.entries()[i]).1.len() >= 1
                && self.entries()[i].1.no_duplicates()
    }

    pub fn new() -> (r: State)
        ensures
            r.wf(),
            r@ == Map::<Seq<u8>, Seq<Seq<u8>>>::empty(),
    {
        State { node_list: Vec::new() }
    }

    fn find_peer(&self, p: &PeerId) -> (r: Option<usize>)
        ensures
            match r {
                Some(i) => i < self.node_list@.len() && self.entries()[i as int].0 == p@,
                None => !kv::has_key(self.entries(), p@),
            },
    {
        let mut i: usize = 0;
        while i < self.node_list.len()
            invariant
                i <= self.node_list@.len(),
                forall|j: int| 0 <= j < i ==> self.entries()[j].0 != p@,
            decreases self.node_list@.len() - i,
        {
            if self.node_list[i].0.same_as(p) {
                return Some(i);
            }
            i += 1;
        }
        proof {
            if kv::has_key(self.entries(), p@) {
                let j = choose|j: int|
                    0 <= j < self.entries().len() && self.entries()[j].0 == p@;
                assert(self.entries()[j].0 != p@);
            }
        }
        None
    }

    fn find_addr(addrs: &Vec<Addr>, a: &Addr) -> (r: Option<usize>)
        ensures
            match r {
                Some(j) => j < addrs@.len() && addrs@[j as int]@ == a@ && forall|k: int|
                    0 <= k < j ==> addrs@[k]@ != a@,
                None => forall|k: int| 0 <= k < addrs@.len() ==> addrs@[k]@ != a@,
            },
    {
        let mut j: usize = 0;
        while j < addrs.len()
            invariant
                j <= addrs@.len(),
                forall|k: int| 0 <= k < j ==> addrs@[k]@ != a@,
            decreases addrs@.len() - j,
        {
            if addrs[j].same_as(a) {
                return Some(j);
            }
            j += 1;
        }
        None
    }

    /// Record that `a` was discovered for `p`; idempotent.
    pub fn add_address(&mut self, p: &PeerId, a: &Addr)
        requires
            old(self).wf(),
        ensures
            final(self).wf(),
            final(self)@ == discovery_add(old(self)@, p@, a@),
    {
        proof {
            kv::lemma_as_map_contains(self.entries());
        }
        match self.find_peer(p) {
            None => {
                let mut addrs: Vec<Addr> = Vec::new();
                addrs.push(a.clone());
                self.node_list.push((p.clone(), addrs));
                proof {
                    let ov = old(self).entries();
                    assert(addrs@.map_values(|x: Addr| x@) =~= seq![a@]);
                    assert(self.entries() =~= ov.push((p@, seq![a@])));
                    kv::lemma_as_map_push(ov, p@, seq![a@]);
                }
            },
            Some(i) => {
                proof {
                    kv::lemma_as_map_index(self.entries(), i as int);
                }
                match Self::find_addr(&self.node_list[i].1, a) {
                    Some(_) => {
                        proof {
                            let ov = old(self).entries();
                            assert(ov[i as int].1.contains(a@)) by {
                                let j = choose|j: int|
                                    0 <= j < self.node_list@[i as int].1@.len()
                                        && self.node_list@[i as int].1@[j]@ == a@;
                                assert(ov[i as int].1[j] == a@);
                            }
                        }
                    },
                    None => {
                        let ghost ov = old(self).entries();
                        let ghost oa = ov[i as int].1;
                        let mut e = self.node_list.remove(i);
                        e.1.push(a.clone());
                        proof {
                            assert(e.1@.map_values(|x: Addr| x@) =~= oa.push(a@));
                        }
                        self.node_list.insert(i, e);
                        proof {
                            assert(!oa.contains(a@)) by {
                                if oa.contains(a@) {
                                    let j = choose|j: int| 0 <= j < oa.len() && oa[j] == a@;
                                    assert(old(self).node_list@[i as int].1@[j]@ == a@);
                                }
                            }
                            assert(self.node_list@ =~= old(self).node_list@.update(
                                i as int,
                                self.node_list@[i as int],
                            ));
                            assert(self.entries() =~= ov.update(i as int, (p@, oa.push(a@))));
                            kv::lemma_as_map_update(ov, i as int, oa.push(a@));
                            assert forall|x: int|
                                0 <= x < self.entries().len() implies (
                            #[trigger] self.entries()[x]).1.len() >= 1
                                && self.entries()[x].1.no_duplicates() by {
                                if x != i {
                                    assert(self.entries()[x] == ov[x]);
                                }
                            }
                        }
                    },
                }
            },
        }
    }

    /// Record that `a` expired for `p`; removes the peer entirely when its
    /// last address expires, and ignores unknown peers and addresses.
    pub fn expire_address(&mut self, p: &PeerId, a: &Addr)
        requires
            old(self).wf(),
        ensures
            final(self).wf(),
            final(self)@ == discovery_expire(old(self)@, p@, a@),
    {
        proof {
            kv::lemma_as_map_contains(self.entries());
        }
        match self.find_peer(p) {
            None => {},
            Some(i) => {
                proof {
                    kv::lemma_as_map_index(self.entries(), i as int);
                }
                match Self::find_addr(&self.node_list[i].1, a) {
                    None => {
                        proof {
                            let oa = old(self).entries()[i as int].1;
                            assert(!oa.contains(a@)) by {
                                if oa.contains(a@) {
                                    let j = choose|j: int| 0 <= j < oa.len() && oa[j] == a@;
                                    assert(self.node_list@[i as int].1@[j]@ == a@);
                                }
                            }
                        }
                    },
                    Some(j) => {
                        let ghost ov = self.entries();
                        let ghost oa = ov[i as int].1;
                        proof {
                            assert(oa[j as int] == a@);
                            assert(oa.contains(a@));
                            oa.index_of_first_ensures(a@);
                            assert(oa.index_of_first(a@) == Some(j as int)) by {
                                let f = oa.index_of_first(a@).unwrap();
                                assert(oa[f] == a@);
                                if f < j {
                                    assert(self.node_list@[i as int].1@[f]@ != a@);
                                }
                            }
                        }
                        let mut e = self.node_list.remove(i);
                        e.1.remove(j);
                        proof {
                            assert(e.1@.map_values(|x: Addr| x@) =~= oa.remove(j as int));
                        }
                        if e.1.len() == 0 {
                            proof {
                                assert(self.node_list@ =~= old(self).node_list@.remove(i as int));
                                assert(self.entries() =~= ov.remove(i as int));
                                kv::lemma_as_map_remove(ov, i as int);
                            }
                        } else {
                            self.node_list.insert(i, e);
                            proof {
                                assert(self.node_list@ =~= old(self).node_list@.update(
                                    i as int,
                                    self.node_list@[i as int],
                                ));
                                assert(self.entries() =~= ov.update(
                                    i as int,
                                    (p@, oa.remove(j as int)),
                                ));
                                kv::lemma_as_map_update(ov, i as int, oa.remove(j as int));
                                assert forall|x: int|
                                    0 <= x < self.entries().len() implies (
                                #[trigger] self.entries()[x]).1.len() >= 1
                                    && self.entries()[x].1.no_duplicates() by {
                                    if x != i {
                                        assert(self.entries()[x] == ov[x]);
                                    } else {
                                        assert(oa.no_duplicates());
                                    }
                                }
                            }
                        }
                    },
                }
            },
        }
    }

    /// Classify one node event and fold it into the mirror; events that do
    /// not concern discovery are ignored.
    pub fn handle_event(&mut self, ev: &NodeEvent)
        requires
            old(self).wf(),
        ensures
            final(self).wf(),
            final(self)@ == discovery_step(old(self)@, *ev),
    {
        match ev {
            NodeEvent::DiscoveryAdd { peer, addr } => self.add_address(peer, addr),
            NodeEvent::DiscoveryExpire { peer, addr } => self.expire_address(peer, addr),
            _ => {},
        }
    }

    /// An owned snapshot of the discovery mapping; mutating it never affects
    /// the mirror.
    pub fn list_discovered(&self) -> (r: Vec<(PeerId, Vec<Addr>)>)
        requires
            self.wf(),
        ensures
            entries_as_map(r@) == self@,
            kv::keys_distinct(entries_view(r@)),
    {
        let mut r: Vec<(PeerId, Vec<Addr>)> = Vec::new();
        let mut i: usize = 0;
        while i < self.node_list.len()
            invariant
                i <= self.node_list@.len(),
                r@.len() == i,
                forall|j: int|
                    0 <= j < i ==> (#[trigger] r@[j]).0@ == self.node_list@[j].0@
                        && r@[j].1@.map_values(|x: Addr| x@) == self.node_list@[j].1@.map_values(
                        |x: Addr| x@,
                    ),
            decreases self.node_list@.len() - i,
        {
            let e = &self.node_list[i];
            let copy = (e.0.clone(), e.1.clone());
            proof {
                let ghost orig = self.node_list@[i as int].1;
                assert forall|k: int| 0 <= k < copy.1@.len() implies copy.1@[k]@ == orig@[k]@ by {
                    assert(cloned::<Addr>(orig@[k], copy.1@[k]));
                }
                assert(copy.1@.map_values(|x: Addr| x@) =~= orig@.map_values(|x: Addr| x@));
            }
            r.push(copy);
            i += 1;
        }
        proof {
            assert(entries_view(r@) =~= self.entries());
        }
        r
    }
}

/// Applying the same discovery addition twice yields the same mapping as
/// applying it once.
pub proof fn lemma_discovery_add_idempotent(m: Map<Seq<u8>, Seq<Seq<u8>>>, p: Seq<u8>, a: Seq<u8>)
    ensures
        discovery_add(discovery_add(m, p, a), p, a) == discovery_add(m, p, a),
{
    let m1 = discovery_add(m, p, a);
    if m.contains_key(p) {
        if !m[p].contains(a) {
            assert(m1[p] == m[p].push(a));
            assert(m1[p][m[p].len() as int] == a);
            assert(m1[p].contains(a));
        }
    } else {
        assert(m1[p] == seq![a]);
        assert(m1[p][0] == a);
        assert(m1[p].contains(a));
    }
}

/// Once every address a peer was discovered with has expired, the peer has
/// no entry in the discovery mapping at all.
pub proof fn lemma_discovery_cleanup(
    m: Map<Seq<u8>, Seq<Seq<u8>>>,
    p: Seq<u8>,
    a1: Seq<u8>,
    a2: Seq<u8>,
)
    requires
        !m.contains_key(p),
    ensures
        !discovery_expire(
            discovery_expire(discovery_add(discovery_add(m, p, a1), p, a2), p, a1),
            p,
            a2,
        ).contains_key(p),
{
    let m1 = discovery_add(m, p, a1);
    assert(m1[p] == seq![a1]);
    assert(m1[p][0] == a1);
    assert(m1[p].contains(a1));
    let m2 = discovery_add(m1, p, a2);
    if a1 == a2 {
        assert(m2 == m1);
        m1[p].index_of_first_ensures(a1);
        assert(m1[p].index_of_first(a1) == Some(0int)) by {
            let f = m1[p].index_of_first(a1).unwrap();
            assert(0 <= f < 1);
        }
        assert(m1[p].remove_value(a1) =~= Seq::<Seq<u8>>::empty());
        let m3 = discovery_expire(m2, p, a1);
        assert(m3 == m2.remove(p));
        assert(!m3.contains_key(p));
    } else {
        assert(!m1[p].contains(a2)) by {
            if m1[p].contains(a2) {
                let k = choose|k: int| 0 <= k < m1[p].len() && m1[p][k] == a2;
                assert(k == 0);
            }
        }
        let s2 = seq![a1].push(a2);
        assert(m2[p] == s2);
        assert(s2[0] == a1 && s2[1] == a2);
        assert(s2.contains(a1));
        s2.index_of_first_ensures(a1);
        assert(s2.index_of_first(a1) == Some(0int)) by {
            let f = s2.index_of_first(a1).unwrap();
            assert(s2[f] == a1);
            if f == 1 {
                assert(a1 == a2);
            }
        }
        let rest = s2.remove_value(a1);
        assert(rest =~= seq![a2]);
        let m3 = discovery_expire(m2, p, a1);
        assert(m3 == m2.insert(p, rest));
        assert(m3.contains_key(p) && m3[p] == rest);
        assert(rest[0] == a2);
        assert(rest.contains(a2));
        rest.index_of_first_ensures(a2);
        assert(rest.index_of_first(a2) == Some(0int)) by {
            let f = rest.index_of_first(a2).unwrap();
            assert(0 <= f < 1);
        }
        assert(rest.remove_value(a2) =~= Seq::<Seq<u8>>::empty());
        let m4 = discovery_expire(m3, p, a2);
        assert(m4 == m3.remove(p));
        assert(!m4.contains_key(p));
    }
}

} // verus!
