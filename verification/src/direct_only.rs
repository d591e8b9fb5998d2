//! The rule that keeps the data plane direct.
//!
//! A relayed connection (`/p2p-circuit`) exists only for the control plane
//! (hole-punch signalling). On it the transfer protocol gets no handler and is
//! never told that the connection exists, so file bytes cannot travel through
//! a third-party relay. Only relays the user operates and trusts are exempt.
//! The libp2p behaviour that applies this decision lives with the node
//! runtime; what it decides is here.
use vstd::prelude::*;
use crate::addr::{Multiaddr, Part, PeerId, parts, parts_of, peer_id_base58};

verus! {

/// The address goes through a relay circuit.
pub open spec fn spec_is_relayed(ps: Seq<Part>) -> bool {
    exists|i: int| 0 <= i < ps.len() && ps[i] is P2pCircuit
}

/// Scanning from position `i`, with `last` the most recent `/p2p` seen: the
/// relay of the first circuit.
pub open spec fn scan_relay(ps: Seq<Part>, i: int, last: Option<Seq<u8>>) -> Option<Seq<u8>>
    decreases ps.len() - i,
{
    if i < 0 || i >= ps.len() {
        None
    } else {
        match ps[i] {
            Part::P2p(id) => scan_relay(ps, i + 1, Some(id)),
            Part::P2pCircuit => last,
            _ => scan_relay(ps, i + 1, last),
        }
    }
}

/// The relay a circuit address goes through (`…/p2p/<relay>/p2p-circuit…`):
/// the last `/p2p` before the first `/p2p-circuit`.
pub open spec fn spec_relay_of(ps: Seq<Part>) -> Option<Seq<u8>> {
    scan_relay(ps, 0, None)
}

pub open spec fn opt_peer_bytes(o: Option<PeerId>) -> Option<Seq<u8>> {
    match o {
        Some(p) => Some(p@),
        None => None,
    }
}

pub fn is_relayed(addr: &Multiaddr) -> (r: bool)
    ensures
        r == spec_is_relayed(parts(addr@)),
{
    let cs = addr.components();
    let ghost ps = parts_of(cs@);
    let mut i: usize = 0;
    while i < cs.len()
        invariant
            ps == parts(addr@),
            ps == parts_of(cs@),
            i <= cs@.len(),
            forall|j: int| 0 <= j < i ==> !(ps[j] is P2pCircuit),
        decreases cs.len() - i,
    {
        if let crate::addr::Component::P2pCircuit = &cs[i] {
            assert(ps[i as int] is P2pCircuit);
            return true;
        }
        i = i + 1;
    }
    false
}

proof fn lemma_scan_valid(ps: Seq<Part>, i: int, last: Option<Seq<u8>>)
    requires
        crate::addr::peers_valid(ps),
        last matches Some(id) ==> peer_id_base58(id) is Some,
    ensures
        scan_relay(ps, i, last) matches Some(id) ==> peer_id_base58(id) is Some,
    decreases ps.len() - i,
{
    if 0 <= i < ps.len() {
        match ps[i] {
            Part::P2p(id) => {
                assert(peer_id_base58(id) is Some);
                lemma_scan_valid(ps, i + 1, Some(id));
            },
            Part::P2pCircuit => {},
            _ => lemma_scan_valid(ps, i + 1, last),
        }
    }
}

/// No circuit from `i` on: no relay.
proof fn lemma_scan_no_circuit(ps: Seq<Part>, i: int, last: Option<Seq<u8>>)
    requires
        0 <= i,
        forall|k: int| i <= k < ps.len() ==> !(#[trigger] ps[k] is P2pCircuit),
    ensures
        scan_relay(ps, i, last) is None,
    decreases ps.len() - i,
{
    if i < ps.len() {
        match ps[i] {
            Part::P2p(id) => lemma_scan_no_circuit(ps, i + 1, Some(id)),
            _ => lemma_scan_no_circuit(ps, i + 1, last),
        }
    }
}

/// Up to the circuit at `j` there is no `/p2p` from `i` on: the relay is the
/// one seen before `i`.
proof fn lemma_scan_keeps_last(ps: Seq<Part>, i: int, last: Option<Seq<u8>>, j: int)
    requires
        0 <= i <= j < ps.len(),
        ps[j] is P2pCircuit,
        forall|k: int| i <= k < j ==> !(#[trigger] ps[k] is P2pCircuit) && !(ps[k] is P2p),
    ensures
        scan_relay(ps, i, last) == last,
    decreases j - i,
{
    if i < j {
        lemma_scan_keeps_last(ps, i + 1, last, j);
    }
}

/// The first circuit from `i` on is at `j`, and the last `/p2p` before it
/// is at `a`: that is the relay.
proof fn lemma_scan_finds(ps: Seq<Part>, i: int, last: Option<Seq<u8>>, a: int, j: int)
    requires
        0 <= i <= a < j < ps.len(),
        ps[j] is P2pCircuit,
        ps[a] is P2p,
        forall|k: int| i <= k < j ==> !(#[trigger] ps[k] is P2pCircuit),
        forall|k: int| a < k < j ==> !(#[trigger] ps[k] is P2p),
    ensures
        scan_relay(ps, i, last) == Some(ps[a]->P2p_0),
    decreases a - i,
{
    if i < a {
        match ps[i] {
            Part::P2p(id) => lemma_scan_finds(ps, i + 1, Some(id), a, j),
            _ => lemma_scan_finds(ps, i + 1, last, a, j),
        }
    } else {
        lemma_scan_keeps_last(ps, a + 1, Some(ps[a]->P2p_0), j);
    }
}

/// Where a relay found from `i` on comes from: the first circuit `j`, and
/// either the last `/p2p` `a` before it, or (`a == -1`) the one seen before `i`.
proof fn lemma_scan_witness(ps: Seq<Part>, i: int, last: Option<Seq<u8>>, id: Seq<u8>) -> (w: (int, int))
    requires
        0 <= i,
        scan_relay(ps, i, last) == Some(id),
    ensures
        i <= w.0 < ps.len(),
        ps[w.0] is P2pCircuit,
        forall|k: int| i <= k < w.0 ==> !(#[trigger] ps[k] is P2pCircuit),
        (w.1 == -1 && last == Some(id) && forall|k: int| i <= k < w.0 ==> !(#[trigger] ps[k] is P2p))
            || (i <= w.1 < w.0 && ps[w.1] == Part::P2p(id) && forall|k: int| w.1 < k < w.0 ==> !(#[trigger] ps[k] is P2p)),
    decreases ps.len() - i,
{
    match ps[i] {
        Part::P2pCircuit => (i, -1),
        Part::P2p(x) => {
            let w = lemma_scan_witness(ps, i + 1, Some(x), id);
            if w.1 == -1 {
                (w.0, i)
            } else {
                w
            }
        },
        _ => lemma_scan_witness(ps, i + 1, last, id),
    }
}

/// The relay of an address is the peer named just before its first
/// `/p2p-circuit`: an address with no circuit has no relay; one whose first
/// circuit has a `/p2p` before it has the last such peer as relay; and a
/// relay that is reported is named right before the first circuit.
pub proof fn law_relay_is_the_peer_before_the_circuit(ps: Seq<Part>)
    ensures
        (forall|k: int| 0 <= k < ps.len() ==> !(#[trigger] ps[k] is P2pCircuit)) ==> spec_relay_of(ps) is None,
        forall|a: int, j: int| #![trigger ps[a], ps[j]] 0 <= a < j < ps.len() && ps[j] is P2pCircuit && ps[a] is P2p
            && (forall|k: int| 0 <= k < j ==> !(#[trigger] ps[k] is P2pCircuit))
            && (forall|k: int| a < k < j ==> !(#[trigger] ps[k] is P2p))
            ==> spec_relay_of(ps) == Some(ps[a]->P2p_0),
        spec_relay_of(ps) matches Some(id) ==> exists|a: int, j: int| #![trigger ps[a], ps[j]] 0 <= a < j < ps.len() && ps[a] == Part::P2p(id)
            && ps[j] is P2pCircuit && (forall|k: int| 0 <= k < j ==> !(#[trigger] ps[k] is P2pCircuit))
            && (forall|k: int| a < k < j ==> !(#[trigger] ps[k] is P2p)),
{
    if forall|k: int| 0 <= k < ps.len() ==> !(#[trigger] ps[k] is P2pCircuit) {
        lemma_scan_no_circuit(ps, 0, None);
    }
    assert forall|a: int, j: int| #![trigger ps[a], ps[j]] 0 <= a < j < ps.len() && ps[j] is P2pCircuit && ps[a] is P2p
        && (forall|k: int| 0 <= k < j ==> !(#[trigger] ps[k] is P2pCircuit))
        && (forall|k: int| a < k < j ==> !(#[trigger] ps[k] is P2p))
        implies spec_relay_of(ps) == Some(ps[a]->P2p_0) by {
        lemma_scan_finds(ps, 0, None, a, j);
    }
    if let Some(id) = spec_relay_of(ps) {
        let w = lemma_scan_witness(ps, 0, None, id);
        assert(ps[w.0] is P2pCircuit);
    }
}

/// The relay a circuit address goes through, if it is one.
pub fn relay_of(addr: &Multiaddr) -> (r: Option<PeerId>)
    ensures
        opt_peer_bytes(r) == spec_relay_of(parts(addr@)),
        // An address that goes through no circuit has no relay.
        (forall|k: int| 0 <= k < parts(addr@).len() ==> !(#[trigger] parts(addr@)[k] is P2pCircuit)) ==> r is None,
        // A relay is the peer named last before the first circuit.
        r matches Some(p) ==> exists|a: int, j: int| #![trigger parts(addr@)[a], parts(addr@)[j]] 0 <= a < j < parts(addr@).len()
            && parts(addr@)[a] == Part::P2p(p@) && parts(addr@)[j] is P2pCircuit
            && (forall|k: int| 0 <= k < j ==> !(#[trigger] parts(addr@)[k] is P2pCircuit))
            && (forall|k: int| a < k < j ==> !(#[trigger] parts(addr@)[k] is P2p)),
{
    let r = scan_for_relay(addr);
    proof {
        law_relay_is_the_peer_before_the_circuit(parts(addr@));
    }
    r
}

fn scan_for_relay(addr: &Multiaddr) -> (r: Option<PeerId>)
    ensures
        opt_peer_bytes(r) == spec_relay_of(parts(addr@)),
{
    let cs = addr.components();
    let ghost ps = parts_of(cs@);
    let mut last: Option<&Vec<u8>> = None;
    let mut i: usize = 0;
    proof {
        lemma_scan_valid(ps, 0, None);
    }
    while i < cs.len()
        invariant
            ps == parts(addr@),
            ps == parts_of(cs@),
            crate::addr::peers_valid(ps),
            i <= cs@.len(),
            spec_relay_of(ps) == scan_relay(ps, i as int, match last { Some(b) => Some(b@), None => None }),
            last matches Some(b) ==> peer_id_base58(b@) is Some,
        decreases cs.len() - i,
    {
        match &cs[i] {
            crate::addr::Component::P2p(id) => {
                assert(ps[i as int] == Part::P2p(id@));
                last = Some(id);
            },
            crate::addr::Component::P2pCircuit => {
                assert(ps[i as int] == Part::P2pCircuit);
                return match last {
                    Some(b) => PeerId::from_bytes(b.as_slice()),
                    None => None,
                };
            },
            _ => {},
        }
        i = i + 1;
    }
    None
}

} // verus!

verus! {

/// Relayed, and not through one of the trusted relays.
pub open spec fn spec_blocked(trusted: Seq<Seq<u8>>, a: Seq<Part>, b: Seq<Part>) -> bool {
    if !spec_is_relayed(a) && !spec_is_relayed(b) {
        false
    } else {
        let via = if spec_relay_of(a) is Some { spec_relay_of(a) } else { spec_relay_of(b) };
        !(via matches Some(r) && trusted.contains(r))
    }
}

pub open spec fn peers_view(v: Seq<PeerId>) -> Seq<Seq<u8>> {
    v.map_values(|p: PeerId| p@)
}

/// Which connections the transfer protocol may use.
///
/// `relayed` holds the connections that were given no transfer handler; the
/// protocol behaviour never hears of them.
pub struct ConnectionGate {
    relayed: Vec<u64>,
    trusted: Vec<PeerId>,
}

/// What to do with an established connection.
#[derive(Debug, Clone, Copy, PartialEq, Eq, Structural)]
pub enum Handler {
    /// The transfer protocol gets the connection.
    Inner,
    /// A handler that advertises and accepts nothing.
    Dummy,
}

impl ConnectionGate {
    pub closed spec fn relayed_ids(&self) -> Seq<u64> {
        self.relayed@
    }

    pub closed spec fn trusted_relays(&self) -> Seq<Seq<u8>> {
        peers_view(self.trusted@)
    }

    /// A gate that trusts the given relays (those the user operates).
    pub fn new(trusted: Vec<PeerId>) -> (g: ConnectionGate)
        ensures
            g.relayed_ids() == Seq::<u64>::empty(),
            g.trusted_relays() == peers_view(trusted@),
    {
        ConnectionGate { relayed: Vec::new(), trusted }
    }

    fn is_trusted(&self, p: &PeerId) -> (r: bool)
        ensures
            r == self.trusted_relays().contains(p@),
    {
        let mut i: usize = 0;
        while i < self.trusted.len()
            invariant
                i <= self.trusted@.len(),
                forall|j: int| 0 <= j < i ==> self.trusted@[j]@ != p@,
            decreases self.trusted.len() - i,
        {
            if self.trusted[i].eq(p) {
                assert(self.trusted_relays()[i as int] == p@);
                return true;
            }
            i = i + 1;
        }
        assert forall|j: int| 0 <= j < self.trusted_relays().len() implies self.trusted_relays()[j] != p@ by {
            assert(self.trusted_relays()[j] == self.trusted@[j]@);
        }
        false
    }

    /// A connection between these two addresses goes through a relay that is
    /// not trusted.
    pub fn blocked(&self, a: &Multiaddr, b: &Multiaddr) -> (r: bool)
        ensures
            r == spec_blocked(self.trusted_relays(), parts(a@), parts(b@)),
    {
        if !is_relayed(a) && !is_relayed(b) {
            return false;
        }
        let via = match relay_of(a) {
            Some(r) => Some(r),
            None => relay_of(b),
        };
        match via {
            Some(r) => !self.is_trusted(&r),
            None => true,
        }
    }

    fn is_relayed_id(&self, id: u64) -> (r: bool)
        ensures
            r == self.relayed_ids().contains(id),
    {
        let mut i: usize = 0;
        while i < self.relayed.len()
            invariant
                i <= self.relayed@.len(),
                forall|j: int| 0 <= j < i ==> self.relayed@[j] != id,
            decreases self.relayed.len() - i,
        {
            if self.relayed[i] == id {
                assert(self.relayed@[i as int] == id);
                return true;
            }
            i = i + 1;
        }
        false
    }

    /// A connection was established between `local` and `remote`: decides its
    /// handler and remembers the connections that get none.
    pub fn established(&mut self, id: u64, local: &Multiaddr, remote: &Multiaddr) -> (h: Handler)
        ensures
            final(self).trusted_relays() == old(self).trusted_relays(),
            (h == Handler::Dummy) == spec_blocked(old(self).trusted_relays(), parts(local@), parts(remote@)),
            h == Handler::Dummy ==> final(self).relayed_ids() == old(self).relayed_ids().push(id),
            h == Handler::Inner ==> final(self).relayed_ids() == old(self).relayed_ids(),
    {
        if self.blocked(local, remote) {
            self.relayed.push(id);
            Handler::Dummy
        } else {
            Handler::Inner
        }
    }

    /// The swarm reports that connection `id` is established: whether the
    /// transfer protocol may hear of it.
    pub fn forward_established(&self, id: u64) -> (r: bool)
        ensures
            r == !self.relayed_ids().contains(id),
    {
        !self.is_relayed_id(id)
    }

    /// The swarm reports that connection `id` closed: whether the transfer
    /// protocol may hear of it. A gated connection is forgotten.
    pub fn forward_closed(&mut self, id: u64) -> (r: bool)
        ensures
            r == !old(self).relayed_ids().contains(id),
            final(self).trusted_relays() == old(self).trusted_relays(),
            final(self).relayed_ids() == old(self).relayed_ids().filter(|x: u64| x != id),
    {
        let mut kept: Vec<u64> = Vec::new();
        let mut found = false;
        let mut i: usize = 0;
        while i < self.relayed.len()
            invariant
                i <= self.relayed@.len(),
                kept@ == self.relayed@.take(i as int).filter(|x: u64| x != id),
                found == self.relayed@.take(i as int).contains(id),
            decreases self.relayed.len() - i,
        {
            proof {
                let t = self.relayed@.take(i + 1);
                assert(t.drop_last() =~= self.relayed@.take(i as int));
                reveal(Seq::filter);
            }
            if self.relayed[i] == id {
                found = true;
            } else {
                kept.push(self.relayed[i]);
            }
            proof {
                let t = self.relayed@.take(i + 1);
                assert(t.last() == self.relayed@[i as int]);
                if self.relayed@.take(i + 1).contains(id) && !self.relayed@.take(i as int).contains(id) {
                    assert(self.relayed@[i as int] == id);
                }
                if self.relayed@.take(i as int).contains(id) {
                    let k = choose|k: int| 0 <= k < i && self.relayed@.take(i as int)[k] == id;
                    assert(t[k] == id);
                }
            }
            i = i + 1;
        }
        assert(self.relayed@.take(self.relayed@.len() as int) =~= self.relayed@);
        self.relayed = kept;
        !found
    }
}

/// The data plane stays direct: a connection between two addresses that go
/// through no relay circuit is always handed to the transfer protocol, and one
/// through a relay circuit never is unless that relay is trusted. With no
/// trusted relays, no relayed connection ever carries data.
pub proof fn law_relayed_connections_carry_no_data(
    trusted: Seq<Seq<u8>>,
    local: Seq<Part>,
    remote: Seq<Part>,
)
    ensures
        !spec_is_relayed(local) && !spec_is_relayed(remote) ==> !spec_blocked(trusted, local, remote),
        (spec_is_relayed(local) || spec_is_relayed(remote)) && trusted.len() == 0 ==> spec_blocked(
            trusted,
            local,
            remote,
        ),
        (spec_is_relayed(local) || spec_is_relayed(remote)) && (forall|r: Seq<u8>|
            !trusted.contains(r)) ==> spec_blocked(trusted, local, remote),
{
}

} // verus!
