//! What the command line and the desktop front ends decide and say: short
//! forms of peer ids, the words for a failure or a connection, the network
//! state, the pace of progress updates, the device name and the contacts.
use vstd::prelude::*;
use crate::addr::{Multiaddr, PeerId, multiaddr_text, base58_of};
use crate::node::{ConnectFailure, Snapshot, addr_views};
use crate::text::{append, collect_chars, push_char, trim, trim_bounds};
use crate::ticket::{Ticket, TicketError};

verus! {

/// The last `n` characters of `s` (all of it when shorter).
pub open spec fn tail(s: Seq<char>, n: nat) -> Seq<char> {
    if s.len() <= n { s } else { s.skip(s.len() - n) }
}

/// `…` followed by the last `n` characters of `s`.
fn ellipsis_tail(s: &str, n: usize) -> (r: String)
    ensures
        r@ == seq!['…'] + tail(s@, n as nat),
{
    let v = collect_chars(s);
    let start: usize = if v.len() <= n { 0 } else { v.len() - n };
    let mut r = String::new();
    push_char(&mut r, '…');
    let mut i: usize = start;
    while i < v.len()
        invariant
            start <= i <= v@.len(),
            v@ == s@,
            r@ == seq!['…'] + v@.subrange(start as int, i as int),
        decreases v.len() - i,
    {
        push_char(&mut r, v[i]);
        assert(v@.subrange(start as int, i + 1) =~= v@.subrange(start as int, i as int).push(v@[i as int]));
        i = i + 1;
    }
    assert(v@.subrange(start as int, v@.len() as int) =~= tail(s@, n as nat));
    r
}

/// A peer as the command line shows it: `…` and the last eight characters
/// of its base58 text.
pub fn short(p: &PeerId) -> (r: String)
    ensures
        r@ == seq!['…'] + tail(base58_of(p@), 8),
{
    let s = p.to_base58();
    ellipsis_tail(s.as_str(), 8)
}

/// A peer id text as the desktop shows it: `…` and its last six characters.
pub fn short_id(id: &str) -> (r: String)
    ensures
        r@ == seq!['…'] + tail(id@, 6),
{
    ellipsis_tail(id, 6)
}

pub open spec fn relayed_words() -> Seq<char> {
    "Il destinatario è online, ma tra le vostre due reti non è possibile un collegamento diretto (di solito succede con reti mobili 4G/5G o aziendali). Prova da un'altra rete, per esempio il Wi‑Fi di casa su uno dei due dispositivi."@
}

pub open spec fn not_found_words() -> Seq<char> {
    "Destinatario non trovato. L'app è aperta sull'altro dispositivo? Se è appena stata aperta, aspetta un minuto e riprova."@
}

pub open spec fn no_answer_words() -> Seq<char> {
    "Il destinatario non risponde: potrebbe essere offline, oppure il codice non è più valido. Chiedigli di aprire l'app e di mandarti il codice aggiornato."@
}

pub open spec fn blocked_words() -> Seq<char> {
    " Nota: la tua rete sembra bloccare le connessioni necessarie."@
}

/// The failure in plain words for the desktop user.
pub open spec fn friendly_words(f: ConnectFailure) -> Seq<char> {
    let cause = if f.relayed_connection {
        relayed_words()
    } else if !f.found_in_dht && f.dial_errors@.len() == 0 {
        not_found_words()
    } else {
        no_answer_words()
    };
    if f.have_observed_addr { cause } else { cause + blocked_words() }
}

/// Why no direct connection came about, in the user's words: the peer is
/// online but the networks allow no direct path; it was not found; or it
/// does not answer. A network that seems to block us is mentioned.
pub fn friendly_failure(f: &ConnectFailure) -> (r: String)
    ensures
        r@ == friendly_words(*f),
{
    let mut msg = String::new();
    if f.relayed_connection {
        append(&mut msg, "Il destinatario è online, ma tra le vostre due reti non è possibile un collegamento diretto (di solito succede con reti mobili 4G/5G o aziendali). Prova da un'altra rete, per esempio il Wi‑Fi di casa su uno dei due dispositivi.");
    } else if !f.found_in_dht && f.dial_errors.len() == 0 {
        append(&mut msg, "Destinatario non trovato. L'app è aperta sull'altro dispositivo? Se è appena stata aperta, aspetta un minuto e riprova.");
    } else {
        append(&mut msg, "Il destinatario non risponde: potrebbe essere offline, oppure il codice non è più valido. Chiedigli di aprire l'app e di mandarti il codice aggiornato.");
    }
    if !f.have_observed_addr {
        append(&mut msg, " Nota: la tua rete sembra bloccare le connessioni necessarie.");
    }
    msg
}

/// `pat` occurs in `s` at position `i`.
pub open spec fn occurs_at(s: Seq<char>, pat: Seq<char>, i: int) -> bool {
    0 <= i && i + pat.len() <= s.len() && s.subrange(i, i + pat.len()) == pat
}

/// `pat` occurs in `s`.
pub open spec fn contains_text(s: Seq<char>, pat: Seq<char>) -> bool {
    exists|i: int| #[trigger] occurs_at(s, pat, i)
}

pub open spec fn starts_with_text(s: Seq<char>, p: Seq<char>) -> bool {
    p.len() <= s.len() && s.take(p.len() as int) == p
}

/// Whether `pat` occurs in `s` from position `i` on.
fn matches_at(s: &Vec<char>, pat: &Vec<char>, i: usize) -> (r: bool)
    requires
        i + pat@.len() <= s@.len(),
    ensures
        r == (s@.subrange(i as int, i + pat@.len()) == pat@),
{
    let n = s.len();
    let mut j: usize = 0;
    while j < pat.len()
        invariant
            n == s@.len(),
            i + pat@.len() <= s@.len(),
            j <= pat@.len(),
            forall|k: int| 0 <= k < j ==> s@[i + k] == pat@[k],
        decreases pat.len() - j,
    {
        if s[i + j] != pat[j] {
            assert(s@.subrange(i as int, i + pat@.len())[j as int] != pat@[j as int]);
            return false;
        }
        j = j + 1;
    }
    assert(s@.subrange(i as int, i + pat@.len()) =~= pat@);
    true
}

fn text_contains(s: &Vec<char>, pat: &Vec<char>) -> (r: bool)
    ensures
        r == contains_text(s@, pat@),
{
    if pat.len() > s.len() {
        return false;
    }
    let last = s.len() - pat.len();
    let mut i: usize = 0;
    loop
        invariant
            i <= last,
            last + pat@.len() == s@.len(),
            forall|k: int| k < i ==> !#[trigger] occurs_at(s@, pat@, k),
        ensures
            forall|k: int| k <= last ==> !#[trigger] occurs_at(s@, pat@, k),
        decreases last - i,
    {
        if matches_at(s, pat, i) {
            assert(occurs_at(s@, pat@, i as int));
            return true;
        }
        if i == last {
            break;
        }
        i = i + 1;
    }
    assert forall|k: int| !#[trigger] occurs_at(s@, pat@, k) by {
        if k > last {
        }
    }
    false
}

fn text_starts_with(s: &Vec<char>, p: &Vec<char>) -> (r: bool)
    ensures
        r == starts_with_text(s@, p@),
{
    if p.len() > s.len() {
        return false;
    }
    let r = matches_at(s, p, 0);
    assert(s@.subrange(0, p@.len() as int) == s@.take(p@.len() as int));
    r
}

/// The address of a connection in a local network: `/ip4/192.168.`,
/// `/ip4/10.` or `/ip4/172.` (by its text, as the desktop shows it).
pub open spec fn lan_text(s: Seq<char>) -> bool {
    starts_with_text(s, "/ip4/192.168."@) || starts_with_text(s, "/ip4/10."@) || starts_with_text(s, "/ip4/172."@)
}

pub open spec fn via_words(s: Seq<char>, hole_punched: bool) -> Seq<char> {
    let transport = if contains_text(s, "quic"@) { "QUIC"@ } else { "TCP"@ };
    if lan_text(s) {
        "diretta in rete locale ("@ + transport + ")"@
    } else if hole_punched {
        "diretta via Internet, NAT attraversato ("@ + transport + ")"@
    } else {
        "diretta via Internet ("@ + transport + ")"@
    }
}

/// A connection is described as one in the local network when its address
/// text starts with `/ip4/192.168.`, `/ip4/10.` or `/ip4/172.`, and otherwise
/// as one through the Internet (crossing the NAT when it was hole punched);
/// the transport named is QUIC when the text mentions `quic`, else TCP.
pub proof fn law_connections_are_described_by_where_they_run(s: Seq<char>, hole_punched: bool)
    ensures
        starts_with_text(s, "/ip4/192.168."@) ==> starts_with_text(via_words(s, hole_punched), "diretta in rete locale ("@),
        starts_with_text(s, "/ip4/10."@) ==> starts_with_text(via_words(s, hole_punched), "diretta in rete locale ("@),
        starts_with_text(s, "/ip4/172."@) ==> starts_with_text(via_words(s, hole_punched), "diretta in rete locale ("@),
        !starts_with_text(s, "/ip4/192.168."@) && !starts_with_text(s, "/ip4/10."@) && !starts_with_text(s, "/ip4/172."@)
            ==> starts_with_text(via_words(s, hole_punched), if hole_punched {
                "diretta via Internet, NAT attraversato ("@
            } else {
                "diretta via Internet ("@
            }),
        contains_text(s, "quic"@) ==> ends_with_text(via_words(s, hole_punched), "QUIC)"@),
        !contains_text(s, "quic"@) ==> ends_with_text(via_words(s, hole_punched), "TCP)"@),
{
    reveal_strlit("QUIC)");
    reveal_strlit("TCP)");
    reveal_strlit("QUIC");
    reveal_strlit("TCP");
    reveal_strlit(")");
    let transport = if contains_text(s, "quic"@) { "QUIC"@ } else { "TCP"@ };
    let head = if lan_text(s) {
        "diretta in rete locale ("@
    } else if hole_punched {
        "diretta via Internet, NAT attraversato ("@
    } else {
        "diretta via Internet ("@
    };
    let w = via_words(s, hole_punched);
    assert(w == head + transport + ")"@);
    assert(w.take(head.len() as int) =~= head);
    let tail = transport + ")"@;
    assert(w =~= head + tail);
    assert(w.skip(w.len() - tail.len()) =~= tail);
    if contains_text(s, "quic"@) {
        assert(tail =~= "QUIC)"@);
    } else {
        assert(tail =~= "TCP)"@);
    }
}

/// `s` ends with `p`.
pub open spec fn ends_with_text(s: Seq<char>, p: Seq<char>) -> bool {
    p.len() <= s.len() && s.skip(s.len() - p.len()) == p
}

/// How a direct connection runs, in the user's words: in the local network
/// or through the Internet (after crossing the NAT by hole punching), over
/// QUIC or TCP.
pub fn describe_via(addr: &Multiaddr, hole_punched: bool) -> (r: String)
    ensures
        r@ == via_words(multiaddr_text(addr@), hole_punched),
        // In the local network exactly for these address prefixes.
        starts_with_text(multiaddr_text(addr@), "/ip4/192.168."@) || starts_with_text(multiaddr_text(addr@), "/ip4/10."@)
            || starts_with_text(multiaddr_text(addr@), "/ip4/172."@)
            ==> starts_with_text(r@, "diretta in rete locale ("@),
        !(starts_with_text(multiaddr_text(addr@), "/ip4/192.168."@) || starts_with_text(multiaddr_text(addr@), "/ip4/10."@)
            || starts_with_text(multiaddr_text(addr@), "/ip4/172."@))
            ==> starts_with_text(r@, if hole_punched {
                "diretta via Internet, NAT attraversato ("@
            } else {
                "diretta via Internet ("@
            }),
{
    proof {
        law_connections_are_described_by_where_they_run(multiaddr_text(addr@), hole_punched);
    }
    let text = addr.to_text();
    let s = collect_chars(text.as_str());
    let quic = text_contains(&s, &collect_chars("quic"));
    let lan = text_starts_with(&s, &collect_chars("/ip4/192.168.")) || text_starts_with(&s, &collect_chars("/ip4/10."))
        || text_starts_with(&s, &collect_chars("/ip4/172."));
    let transport = if quic { "QUIC" } else { "TCP" };
    let mut out = String::new();
    if lan {
        append(&mut out, "diretta in rete locale (");
    } else if hole_punched {
        append(&mut out, "diretta via Internet, NAT attraversato (");
    } else {
        append(&mut out, "diretta via Internet (");
    }
    append(&mut out, transport);
    append(&mut out, ")");
    out
}

/// Limits how often progress reaches the screen.
pub struct Throttle {
    /// When an update last went out, in milliseconds on the caller's clock.
    last: Option<u64>,
}

/// Milliseconds between two progress updates.
pub const THROTTLE_MS: u64 = 120;

impl Throttle {
    pub closed spec fn last_shown(&self) -> Option<u64> {
        self.last
    }

    /// A throttle that lets the first update through.
    pub fn new() -> (t: Throttle)
        ensures
            t.last_shown() is None,
    {
        Throttle { last: None }
    }

    /// Whether an update may go out at `now`: the first one does, later ones
    /// once the interval has passed since the last that went out.
    pub fn ready(&mut self, now: u64) -> (r: bool)
        ensures
            r == (match old(self).last_shown() {
                None => true,
                Some(t) => t <= now && now - t >= THROTTLE_MS,
            }),
            r ==> final(self).last_shown() == Some(now),
            !r ==> final(self).last_shown() == old(self).last_shown(),
    {
        let ok = match self.last {
            None => true,
            Some(t) => t <= now && now - t >= THROTTLE_MS,
        };
        if ok {
            self.last = Some(now);
        }
        ok
    }
}

/// The device's reach as the desktop shows it.
#[derive(Debug, Clone, Copy, PartialEq, Eq, Structural)]
pub enum NetState {
    /// Reachable from the Internet: a relay reservation, or a confirmed
    /// address of our own.
    Online,
    /// Our public address is known, but nobody can reach us.
    Limited,
    /// DHT peers known, nothing else yet.
    Connecting,
    Offline,
}

pub open spec fn net_state_of(s: Snapshot) -> NetState {
    let observed = s.observed_addrs@.len() > 0 || s.external_addrs@.len() > 0;
    if s.reservations@.len() > 0 || (observed && exists|i: int| 0 <= i < s.external_addrs@.len()
        && !contains_text(multiaddr_text(#[trigger] s.external_addrs@[i]@), "p2p-circuit"@)) {
        NetState::Online
    } else if observed {
        NetState::Limited
    } else if s.routing_peers > 0 {
        NetState::Connecting
    } else {
        NetState::Offline
    }
}

impl NetState {
    /// The state of a node from what it knows.
    pub fn of(s: &Snapshot) -> (r: NetState)
        ensures
            r == net_state_of(*s),
    {
        let observed = s.observed_addrs.len() > 0 || s.external_addrs.len() > 0;
        let circuit = collect_chars("p2p-circuit");
        let mut own = false;
        let mut i: usize = 0;
        while i < s.external_addrs.len()
            invariant
                i <= s.external_addrs@.len(),
                circuit@ == "p2p-circuit"@,
                own == exists|j: int| 0 <= j < i && !contains_text(multiaddr_text(#[trigger] s.external_addrs@[j]@), "p2p-circuit"@),
            decreases s.external_addrs.len() - i,
        {
            let t = s.external_addrs[i].to_text();
            if !text_contains(&collect_chars(t.as_str()), &circuit) {
                own = true;
            }
            i = i + 1;
        }
        if s.reservations.len() > 0 || (observed && own) {
            NetState::Online
        } else if observed {
            NetState::Limited
        } else if s.routing_peers > 0 {
            NetState::Connecting
        } else {
            NetState::Offline
        }
    }

    /// The name the user interface knows the state by.
    pub fn name(&self) -> (r: &'static str)
        ensures
            r@ == (match *self {
                NetState::Online => "online"@,
                NetState::Limited => "limited"@,
                NetState::Connecting => "connecting"@,
                NetState::Offline => "offline"@,
            }),
    {
        match self {
            NetState::Online => "online",
            NetState::Limited => "limited",
            NetState::Connecting => "connecting",
            NetState::Offline => "offline",
        }
    }
}

/// Device names are kept to this many characters.
pub const MAX_DEVICE_NAME: usize = 64;

/// The device name the user typed: trimmed and cut to 64 characters; `None`
/// for a blank one, which leaves the name unchanged.
pub fn device_name(input: &str) -> (r: Option<String>)
    ensures
        trim(input@).len() == 0 <==> r is None,
        r matches Some(n) ==> n@ == trim(input@).take(if trim(input@).len() < 64 { trim(input@).len() as int } else { 64 }),
{
    let v = collect_chars(input);
    let (a, b) = trim_bounds(&v);
    if a == b {
        return None;
    }
    let end: usize = if b - a < MAX_DEVICE_NAME { b } else { a + MAX_DEVICE_NAME };
    let mut out = String::new();
    let mut i: usize = a;
    while i < end
        invariant
            a <= i <= end <= b <= v@.len(),
            out@ == v@.subrange(a as int, i as int),
        decreases end - i,
    {
        push_char(&mut out, v[i]);
        assert(v@.subrange(a as int, i + 1) =~= v@.subrange(a as int, i as int).push(v@[i as int]));
        i = i + 1;
    }
    assert(out@ =~= trim(input@).take((end - a) as int));
    Some(out)
}

} // verus!

verus! {

/// Someone this device exchanged files with.
#[derive(Debug, Clone)]
pub struct Contact {
    pub peer_id: String,
    pub name: String,
    /// The last ticket seen for this peer: its addresses are hints, the
    /// PeerId is what matters (the DHT is asked for fresh addresses anyway).
    pub ticket: Option<String>,
    pub last_seen: u64,
}

pub open spec fn opt_text(o: Option<String>) -> Option<Seq<char>> {
    match o {
        Some(s) => Some(s@),
        None => None,
    }
}

/// What a contact says, by its texts.
pub open spec fn contact_view(c: Contact) -> (Seq<char>, Seq<char>, Option<Seq<char>>, u64) {
    (c.peer_id@, c.name@, opt_text(c.ticket), c.last_seen)
}

pub open spec fn contact_views(cs: Seq<Contact>) -> Seq<(Seq<char>, Seq<char>, Option<Seq<char>>, u64)> {
    cs.map_values(|c: Contact| contact_view(c))
}

/// The most recently seen first.
pub open spec fn recent_first(cs: Seq<Contact>) -> bool {
    forall|i: int, j: int| 0 <= i < j < cs.len() ==> cs[i].last_seen >= cs[j].last_seen
}

/// The first contact with this peer id.
pub open spec fn contact_at(cs: Seq<Contact>, id: Seq<char>, i: int) -> bool {
    0 <= i < cs.len() && cs[i].peer_id@ == id && forall|j: int| 0 <= j < i ==> (#[trigger] cs[j]).peer_id@ != id
}

pub open spec fn known(cs: Seq<Contact>, id: Seq<char>) -> bool {
    exists|i: int| 0 <= i < cs.len() && (#[trigger] cs[i]).peer_id@ == id
}

/// The name given to a device met for the first time.
pub open spec fn default_contact_name(id: Seq<char>) -> Seq<char> {
    "Dispositivo "@ + seq!['…'] + tail(id, 6)
}

/// Whether two texts are the same.
pub fn text_eq(a: &str, b: &str) -> (r: bool)
    ensures
        r == (a@ == b@),
{
    let x = collect_chars(a);
    let y = collect_chars(b);
    if x.len() != y.len() {
        return false;
    }
    let mut i: usize = 0;
    while i < x.len()
        invariant
            x@.len() == y@.len(),
            x@ == a@ && y@ == b@,
            i <= x@.len(),
            forall|k: int| 0 <= k < i ==> x@[k] == y@[k],
        decreases x.len() - i,
    {
        if x[i] != y[i] {
            assert(a@[i as int] != b@[i as int]);
            return false;
        }
        i = i + 1;
    }
    assert(x@ =~= y@);
    true
}

/// The index of the first contact with this peer id.
fn find_contact(cs: &Vec<Contact>, id: &str) -> (r: Option<usize>)
    ensures
        r matches Some(i) ==> contact_at(cs@, id@, i as int),
        r is None <==> !known(cs@, id@),
{
    let mut i: usize = 0;
    while i < cs.len()
        invariant
            i <= cs@.len(),
            forall|j: int| 0 <= j < i ==> (#[trigger] cs@[j]).peer_id@ != id@,
        decreases cs.len() - i,
    {
        if text_eq(cs[i].peer_id.as_str(), id) {
            return Some(i);
        }
        i = i + 1;
    }
    None
}

/// Whether this peer id belongs to a contact.
pub fn is_contact(cs: &Vec<Contact>, id: &str) -> (r: bool)
    ensures
        r == known(cs@, id@),
{
    find_contact(cs, id).is_some()
}

/// Whether a contact was last seen at `t`.
pub open spec fn seen_at(t: u64) -> spec_fn(ContactView) -> bool {
    |c: ContactView| c.3 == t
}

/// A list with no contact seen at `t` has none to keep.
proof fn lemma_none_seen_at(s: Seq<ContactView>, t: u64)
    requires
        forall|k: int| 0 <= k < s.len() ==> (#[trigger] s[k]).3 != t,
    ensures
        s.filter(seen_at(t)) == Seq::<ContactView>::empty(),
    decreases s.len(),
{
    reveal(Seq::filter);
    if s.len() > 0 {
        lemma_none_seen_at(s.drop_last(), t);
    }
}

proof fn lemma_one_seen_at(x: ContactView, t: u64)
    ensures
        seq![x].filter(seen_at(t)) == (if x.3 == t { seq![x] } else { Seq::<ContactView>::empty() }),
{
    reveal(Seq::filter);
    let e = Seq::<ContactView>::empty();
    assert(seq![x].drop_last() =~= e);
    assert(e.filter(seen_at(t)) == e);
    assert(seq![x].last() == x);
    assert(e.push(x) =~= seq![x]);
    if x.3 == t {
        assert(seen_at(t)(x));
    } else {
        assert(!seen_at(t)(x));
    }
}

/// Inserting `x` after every contact seen at its time or later adds it last
/// among those seen at its time.
proof fn lemma_insert_seen_at(s: Seq<ContactView>, pos: int, x: ContactView, t: u64)
    requires
        0 <= pos <= s.len(),
        forall|k: int| pos <= k < s.len() ==> (#[trigger] s[k]).3 < x.3,
    ensures
        s.insert(pos, x).filter(seen_at(t)) == (if x.3 == t { s.filter(seen_at(t)).push(x) } else { s.filter(seen_at(t)) }),
{
    broadcast use Seq::filter_distributes_over_add;
    let a = s.subrange(0, pos);
    let b = s.subrange(pos, s.len() as int);
    assert(s.insert(pos, x) =~= a + seq![x] + b);
    assert(s =~= a + b);
    lemma_one_seen_at(x, t);
    if x.3 == t {
        assert forall|k: int| 0 <= k < b.len() implies (#[trigger] b[k]).3 != t by {
            assert(b[k] == s[pos + k]);
        }
        lemma_none_seen_at(b, t);
        assert((a + seq![x] + b).filter(seen_at(t)) == a.filter(seen_at(t)) + seq![x] + b.filter(seen_at(t)));
        assert((a + b).filter(seen_at(t)) == a.filter(seen_at(t)) + b.filter(seen_at(t)));
        assert(a.filter(seen_at(t)) + seq![x] + Seq::<ContactView>::empty() =~= (a.filter(seen_at(t))
            + Seq::<ContactView>::empty()).push(x));
    } else {
        assert((a + seq![x] + b).filter(seen_at(t)) == a.filter(seen_at(t)) + seq![x].filter(seen_at(t)) + b.filter(seen_at(t)));
        assert(a.filter(seen_at(t)) + Seq::<ContactView>::empty() =~= a.filter(seen_at(t)));
    }
}

/// The contacts ordered with the most recently seen first; contacts seen at
/// the same time keep their order.
fn sort_recent_first(v: Vec<Contact>) -> (r: Vec<Contact>)
    ensures
        recent_first(r@),
        r@.to_multiset() == v@.to_multiset(),
        contact_views(r@).to_multiset() == contact_views(v@).to_multiset(),
        forall|t: u64| #[trigger] contact_views(r@).filter(seen_at(t)) == contact_views(v@).filter(seen_at(t)),
{
    broadcast use vstd::multiset::group_multiset_axioms;
    broadcast use vstd::seq_lib::group_to_multiset_ensures;
    broadcast use vstd::seq_lib::to_multiset_insert;
    broadcast use vstd::multiset::lemma_multiset_empty_len;
    let ghost orig = v@;
    let mut rest = v;
    let mut out: Vec<Contact> = Vec::new();
    assert(out@.to_multiset() =~= vstd::multiset::Multiset::empty());
    while rest.len() > 0
        invariant
            recent_first(out@),
            out@.to_multiset().add(rest@.to_multiset()) == orig.to_multiset(),
            contact_views(out@).to_multiset().add(contact_views(rest@).to_multiset()) == contact_views(orig).to_multiset(),
            forall|t: u64| #[trigger] contact_views(orig).filter(seen_at(t)) == contact_views(out@).filter(seen_at(t))
                + contact_views(rest@).filter(seen_at(t)),
        decreases rest.len(),
    {
        let ghost rest0 = rest@;
        let c = rest.remove(0);
        assert(rest0.remove(0) == rest@);
        let mut pos: usize = 0;
        while pos < out.len() && out[pos].last_seen >= c.last_seen
            invariant
                pos <= out@.len(),
                recent_first(out@),
                forall|k: int| 0 <= k < pos ==> (#[trigger] out@[k]).last_seen >= c.last_seen,
            decreases out.len() - pos,
        {
            pos = pos + 1;
        }
        let ghost out0 = out@;
        let ghost cv = c;
        proof {
            let ov0 = contact_views(out0);
            let rv0 = contact_views(rest0);
            let rv1 = contact_views(rest0.remove(0));
            assert(rv0 =~= seq![contact_view(cv)] + rv1);
            assert forall|k: int| pos <= k < ov0.len() implies (#[trigger] ov0[k]).3 < contact_view(cv).3 by {
                assert(out0[pos as int].last_seen < cv.last_seen);
                assert(out0[pos as int].last_seen >= out0[k].last_seen);
            }
            assert(contact_views(out0.insert(pos as int, cv)) =~= ov0.insert(pos as int, contact_view(cv)));
            assert forall|t: u64| #[trigger] contact_views(orig).filter(seen_at(t))
                == contact_views(out0.insert(pos as int, cv)).filter(seen_at(t)) + rv1.filter(seen_at(t)) by {
                broadcast use Seq::filter_distributes_over_add;
                lemma_insert_seen_at(ov0, pos as int, contact_view(cv), t);
                lemma_one_seen_at(contact_view(cv), t);
                assert(rv0.filter(seen_at(t)) == seq![contact_view(cv)].filter(seen_at(t)) + rv1.filter(seen_at(t)));
                if contact_view(cv).3 == t {
                    assert(ov0.filter(seen_at(t)).push(contact_view(cv)) + rv1.filter(seen_at(t))
                        =~= ov0.filter(seen_at(t)) + (seq![contact_view(cv)] + rv1.filter(seen_at(t))));
                } else {
                    assert(Seq::<ContactView>::empty() + rv1.filter(seen_at(t)) =~= rv1.filter(seen_at(t)));
                }
            }
        }
        out.insert(pos, c);
        assert(out@ == out0.insert(pos as int, cv));
        assert forall|i: int, j: int| 0 <= i < j < out@.len() implies out@[i].last_seen >= out@[j].last_seen by {
            if j < pos {
            } else if j == pos {
            } else if i < pos {
                assert(out@[j] == out0[j - 1]);
            } else if i == pos {
                assert(out@[j] == out0[j - 1]);
                assert(out0[pos as int].last_seen < cv.last_seen);
                if j - 1 > pos {
                    assert(out0[pos as int].last_seen >= out0[j - 1].last_seen);
                }
            } else {
                assert(out@[i] == out0[i - 1] && out@[j] == out0[j - 1]);
            }
        }
        proof {
            vstd::seq_lib::to_multiset_insert(out0, pos as int, cv);
            vstd::seq_lib::to_multiset_remove(rest0, 0);
            assert(contact_views(out@) =~= contact_views(out0).insert(pos as int, contact_view(cv)));
            assert(contact_views(rest@) =~= contact_views(rest0).remove(0));
            vstd::seq_lib::to_multiset_insert(contact_views(out0), pos as int, contact_view(cv));
            vstd::seq_lib::to_multiset_remove(contact_views(rest0), 0);
            assert(contact_views(rest0)[0] == contact_view(cv));
            contact_views(rest0).to_multiset_ensures();
            assert(contact_views(rest0).contains(contact_view(cv)));
            assert(contact_views(rest0).to_multiset().count(contact_view(cv)) > 0);
            assert(contact_views(out@).to_multiset().add(contact_views(rest@).to_multiset())
                =~= contact_views(out0).to_multiset().add(contact_views(rest0).to_multiset()));
        }
        assert(out@.to_multiset() == out0.to_multiset().insert(cv));
        assert(rest@.to_multiset() == rest0.to_multiset().remove(cv));
        assert(rest0.to_multiset().contains(cv)) by {
            assert(rest0[0] == cv);
            assert(rest0.contains(cv));
            rest0.to_multiset_ensures();
            assert(rest0.to_multiset().count(cv) > 0);
        }
        assert(out@.to_multiset().add(rest@.to_multiset()) =~= out0.to_multiset().add(rest0.to_multiset()));
    }
    assert(rest@.to_multiset() =~= vstd::multiset::Multiset::empty());
    assert(out@.to_multiset().add(rest@.to_multiset()) =~= out@.to_multiset());
    assert(contact_views(rest@).to_multiset() =~= vstd::multiset::Multiset::empty());
    assert(contact_views(out@).to_multiset().add(contact_views(rest@).to_multiset()) =~= contact_views(out@).to_multiset());
    assert forall|t: u64| #[trigger] contact_views(out@).filter(seen_at(t)) == contact_views(orig).filter(seen_at(t)) by {
        assert(contact_views(rest@) =~= Seq::<ContactView>::empty());
        reveal(Seq::filter);
        assert(contact_views(out@).filter(seen_at(t)) + Seq::<ContactView>::empty() =~= contact_views(out@).filter(seen_at(t)));
    }
    out
}

} // verus!

verus! {

pub type ContactView = (Seq<char>, Seq<char>, Option<Seq<char>>, u64);

/// The index of the first contact view with this peer id.
pub open spec fn first_with(vs: Seq<ContactView>, id: Seq<char>) -> int {
    choose|i: int| 0 <= i < vs.len() && vs[i].0 == id && forall|j: int| 0 <= j < i ==> (#[trigger] vs[j]).0 != id
}

pub open spec fn has_id(vs: Seq<ContactView>, id: Seq<char>) -> bool {
    exists|i: int| 0 <= i < vs.len() && (#[trigger] vs[i]).0 == id
}

/// The contacts after meeting `id` at `now`: a known contact takes the new
/// name and ticket where there are ones; a new one is added, named after its
/// peer id unless a name is given.
pub open spec fn remembered(vs: Seq<ContactView>, id: Seq<char>, name: Option<Seq<char>>, ticket: Option<Seq<char>>, now: u64) -> Seq<ContactView> {
    if has_id(vs, id) {
        let i = first_with(vs, id);
        let c = vs[i];
        vs.update(i, (id, match name { Some(n) => n, None => c.1 }, if ticket is Some { ticket } else { c.2 }, now))
    } else {
        vs.push((id, match name { Some(n) => n, None => default_contact_name(id) }, ticket, now))
    }
}

proof fn lemma_first_with(cs: Seq<Contact>, id: Seq<char>, i: int)
    requires
        contact_at(cs, id, i),
    ensures
        has_id(contact_views(cs), id),
        first_with(contact_views(cs), id) == i,
{
    let vs = contact_views(cs);
    assert(vs[i].0 == id);
    let k = first_with(vs, id);
    if k < i {
        assert(cs[k].peer_id@ == vs[k].0);
    } else if k > i {
        assert(vs[i].0 == id);
    }
}

/// Meeting a known device updates its contact (the first with its id) and
/// nothing else: the name changes only when one is given, the ticket only
/// when one is given, and the contact is marked seen at `now`.
pub proof fn law_remember_updates_the_known_contact(vs: Seq<ContactView>, id: Seq<char>,
    name: Option<Seq<char>>, ticket: Option<Seq<char>>, now: u64, k: int)
    requires
        0 <= k < vs.len(),
        vs[k].0 == id,
        forall|j: int| 0 <= j < k ==> (#[trigger] vs[j]).0 != id,
    ensures
        remembered(vs, id, name, ticket, now).len() == vs.len(),
        remembered(vs, id, name, ticket, now)[k] == (id, match name {
            Some(n) => n,
            None => vs[k].1,
        }, match ticket {
            Some(t) => Some(t),
            None => vs[k].2,
        }, now),
        forall|j: int| 0 <= j < vs.len() && j != k ==> #[trigger] remembered(vs, id, name, ticket, now)[j] == vs[j],
{
    assert(has_id(vs, id));
    let f = first_with(vs, id);
    if f < k {
        assert(vs[f].0 == id);
    } else if f > k {
        assert(vs[k].0 == id);
    }
    assert(f == k);
}

/// Meeting a device for the first time adds one contact at the end, seen at
/// `now`, named as given or after its peer id, with the ticket given.
pub proof fn law_remember_adds_a_new_contact(vs: Seq<ContactView>, id: Seq<char>,
    name: Option<Seq<char>>, ticket: Option<Seq<char>>, now: u64)
    requires
        forall|j: int| 0 <= j < vs.len() ==> (#[trigger] vs[j]).0 != id,
    ensures
        remembered(vs, id, name, ticket, now) == vs.push((id, match name {
            Some(n) => n,
            None => default_contact_name(id),
        }, ticket, now)),
{
    if has_id(vs, id) {
        let j = choose|j: int| 0 <= j < vs.len() && (#[trigger] vs[j]).0 == id;
        assert(vs[j].0 != id);
    }
}

/// No two contacts share a peer id.
pub open spec fn ids_distinct(vs: Seq<ContactView>) -> bool {
    forall|i: int, j: int| 0 <= i < j < vs.len() ==> (#[trigger] vs[i]).0 != (#[trigger] vs[j]).0
}

/// Remembering keeps one contact per peer: with distinct peer ids before,
/// they stay distinct, and the device met is among them.
pub proof fn law_remember_keeps_one_contact_per_peer(vs: Seq<ContactView>, id: Seq<char>,
    name: Option<Seq<char>>, ticket: Option<Seq<char>>, now: u64)
    requires
        ids_distinct(vs),
    ensures
        ids_distinct(remembered(vs, id, name, ticket, now)),
        has_id(remembered(vs, id, name, ticket, now), id),
{
    let r = remembered(vs, id, name, ticket, now);
    if has_id(vs, id) {
        let k = first_with(vs, id);
        assert(r[k].0 == id);
        assert forall|i: int, j: int| 0 <= i < j < r.len() implies (#[trigger] r[i]).0 != (#[trigger] r[j]).0 by {
            if i == k {
                assert(vs[k].0 == id);
                assert(r[j] == vs[j]);
            } else if j == k {
                assert(vs[k].0 == id);
                assert(r[i] == vs[i]);
            } else {
                assert(r[i] == vs[i] && r[j] == vs[j]);
            }
        }
    } else {
        assert(r[vs.len() as int].0 == id);
        assert forall|i: int, j: int| 0 <= i < j < r.len() implies (#[trigger] r[i]).0 != (#[trigger] r[j]).0 by {
            if j == vs.len() {
                assert(r[i] == vs[i]);
            } else {
                assert(r[i] == vs[i] && r[j] == vs[j]);
            }
        }
    }
}

/// An element found at two places of a sequence occurs twice in its multiset.
proof fn lemma_count_two(s: Seq<ContactView>, i: int, j: int)
    requires
        0 <= i < j < s.len(),
        s[i] == s[j],
    ensures
        s.to_multiset().count(s[i]) >= 2,
{
    broadcast use vstd::multiset::group_multiset_axioms;
    vstd::seq_lib::to_multiset_remove(s, j);
    assert(s.remove(j)[i] == s[i]);
    assert(s.remove(j).contains(s[i]));
    s.remove(j).to_multiset_ensures();
    assert(s.remove(j).to_multiset().count(s[i]) > 0);
    assert(s.to_multiset().remove(s[j]).count(s[i]) > 0);
    s.to_multiset_ensures();
    assert(s.contains(s[j]));
    assert(s.to_multiset().count(s[j]) > 0);
}

/// Two sequences with the same multiset: distinct ids in one, distinct ids in
/// the other.
proof fn lemma_distinct_by_multiset(s: Seq<ContactView>, t: Seq<ContactView>)
    requires
        ids_distinct(s),
        s.to_multiset() == t.to_multiset(),
    ensures
        ids_distinct(t),
{
    broadcast use vstd::multiset::group_multiset_axioms;
    assert forall|i: int, j: int| 0 <= i < j < t.len() implies (#[trigger] t[i]).0 != (#[trigger] t[j]).0 by {
        if t[i].0 == t[j].0 {
            t.to_multiset_ensures();
            s.to_multiset_ensures();
            assert(t.contains(t[i]));
            assert(t.contains(t[j]));
            assert(t.to_multiset().count(t[i]) > 0);
            assert(t.to_multiset().count(t[j]) > 0);
            assert(s.to_multiset().count(t[i]) > 0);
            assert(s.to_multiset().count(t[j]) > 0);
            assert(s.contains(t[i]));
            assert(s.contains(t[j]));
            let a = choose|a: int| 0 <= a < s.len() && s[a] == t[i];
            let b = choose|b: int| 0 <= b < s.len() && s[b] == t[j];
            if t[i] == t[j] {
                lemma_count_two(t, i, j);
                vstd::seq_lib::to_multiset_remove(s, a);
                assert(s.remove(a).to_multiset().count(t[i]) >= 1);
                s.remove(a).to_multiset_ensures();
                assert(s.remove(a).contains(t[i]));
                let c = choose|c: int| 0 <= c < s.remove(a).len() && s.remove(a)[c] == t[i];
                if c < a {
                    assert(s[c] == t[i]);
                    assert(s[c].0 != s[a].0);
                } else {
                    assert(s[c + 1] == t[i]);
                    assert(s[a].0 != s[c + 1].0);
                }
            } else {
                assert(a != b);
                if a < b {
                    assert(s[a].0 != s[b].0);
                } else {
                    assert(s[b].0 != s[a].0);
                }
            }
        }
    }
}

/// Records that this device met `id` at `now`, with the name and ticket
/// learnt if any, and keeps the most recently seen contacts first.
pub fn remember(contacts: &mut Vec<Contact>, id: &str, name: Option<&str>, ticket: Option<String>, now: u64)
    ensures
        recent_first(final(contacts)@),
        contact_views(final(contacts)@).to_multiset() == remembered(contact_views(old(contacts)@), id@,
            match name { Some(n) => Some(n@), None => None }, opt_text(ticket), now).to_multiset(),
        // Contacts seen at the same time keep their order.
        forall|t: u64| #[trigger] contact_views(final(contacts)@).filter(seen_at(t)) == remembered(
            contact_views(old(contacts)@), id@, match name { Some(n) => Some(n@), None => None }, opt_text(ticket),
            now).filter(seen_at(t)),
        // One contact per peer.
        ids_distinct(contact_views(old(contacts)@)) ==> ids_distinct(contact_views(final(contacts)@)),
        has_id(contact_views(final(contacts)@), id@),
        // A device met for the first time is added, seen now.
        !known(old(contacts)@, id@) ==> exists|m: int| 0 <= m < final(contacts)@.len()
            && #[trigger] contact_view(final(contacts)@[m]) == (id@, match name {
                Some(n) => n@,
                None => default_contact_name(id@),
            }, opt_text(ticket), now),
        // A known contact keeps its name and ticket unless new ones are given,
        // and is seen now.
        forall|k: int| contact_at(old(contacts)@, id@, k) ==> exists|m: int| 0 <= m < final(contacts)@.len()
            && #[trigger] contact_view(final(contacts)@[m]) == (id@, match name {
                Some(n) => n@,
                None => old(contacts)@[k].name@,
            }, match opt_text(ticket) {
                Some(t) => Some(t),
                None => opt_text(old(contacts)@[k].ticket),
            }, now),
{
    let ghost vs = contact_views(contacts@);
    let ghost nv: Option<Seq<char>> = match name { Some(n) => Some(n@), None => None };
    let ghost tv = opt_text(ticket);
    let mut list: Vec<Contact> = Vec::new();
    std::mem::swap(&mut list, contacts);
    match find_contact(&list, id) {
        Some(i) => {
            proof { lemma_first_with(list@, id@, i as int); }
            let mut c = list.remove(i);
            match name {
                Some(n) => {
                    c.name = n.to_owned();
                },
                None => {},
            }
            match ticket {
                Some(t) => {
                    c.ticket = Some(t);
                },
                None => {},
            }
            c.last_seen = now;
            let ghost cv = contact_view(c);
            list.insert(i, c);
            assert(contact_views(list@) =~= vs.update(i as int, cv));
            assert(cv.0 == id@);
            assert(cv.1 == match nv { Some(n) => n, None => vs[i as int].1 });
            assert(cv.2 == (if tv is Some { tv } else { vs[i as int].2 }));
            assert(contact_views(list@) == remembered(vs, id@, nv, tv, now));
        },
        None => {
            let n = match name {
                Some(n) => n.to_owned(),
                None => {
                    let mut d = String::new();
                    append(&mut d, "Dispositivo ");
                    let tail = short_id(id);
                    append(&mut d, tail.as_str());
                    d
                },
            };
            let ghost nn = n@;
            list.push(Contact { peer_id: id.to_owned(), name: n, ticket, last_seen: now });
            assert(!has_id(vs, id@)) by {
                if has_id(vs, id@) {
                    let k = choose|k: int| 0 <= k < vs.len() && (#[trigger] vs[k]).0 == id@;
                    assert(list@[k].peer_id@ == id@);
                }
            }
            assert(contact_views(list@) =~= vs.push(contact_view(list@.last())));
            assert(nn == match nv { Some(n) => n, None => default_contact_name(id@) });
            assert(contact_views(list@) == remembered(vs, id@, nv, tv, now));
        },
    }
    let ghost rv = contact_views(list@);
    let sorted = sort_recent_first(list);
    proof {
        let sv = contact_views(sorted@);
        if ids_distinct(vs) {
            law_remember_keeps_one_contact_per_peer(vs, id@, nv, tv, now);
            lemma_distinct_by_multiset(rv, sv);
        }
        let r = remembered(vs, id@, nv, tv, now);
        assert(rv == r);
        assert(has_id(r, id@)) by {
            if has_id(vs, id@) {
                let k = first_with(vs, id@);
                assert(r[k].0 == id@);
            } else {
                assert(r[vs.len() as int].0 == id@);
            }
        }
        let k = choose|k: int| 0 <= k < r.len() && (#[trigger] r[k]).0 == id@;
        r.to_multiset_ensures();
        sv.to_multiset_ensures();
        assert(r.contains(r[k]));
        assert(r.to_multiset().count(r[k]) > 0);
        assert(sv.to_multiset().count(r[k]) > 0);
        assert(sv.contains(r[k]));
        let m = choose|m: int| 0 <= m < sv.len() && sv[m] == r[k];
        assert(sv[m].0 == id@);
        assert forall|k: int| contact_at(old(contacts)@, id@, k) implies exists|m: int| 0 <= m < sorted@.len()
            && #[trigger] contact_view(sorted@[m]) == (id@, match name {
                Some(n) => n@,
                None => old(contacts)@[k].name@,
            }, match tv {
                Some(t) => Some(t),
                None => opt_text(old(contacts)@[k].ticket),
            }, now) by {
            assert forall|j: int| 0 <= j < k implies (#[trigger] vs[j]).0 != id@ by {
                assert(vs[j] == contact_view(old(contacts)@[j]));
            }
            assert(vs[k] == contact_view(old(contacts)@[k]));
            law_remember_updates_the_known_contact(vs, id@, nv, tv, now, k);
            assert(r.contains(r[k]));
            assert(r.to_multiset().count(r[k]) > 0);
            assert(sv.to_multiset().count(r[k]) > 0);
            assert(sv.contains(r[k]));
            let m = choose|m: int| 0 <= m < sv.len() && sv[m] == r[k];
            assert(sv[m] == contact_view(sorted@[m]));
        }
        if !known(old(contacts)@, id@) {
            assert forall|j: int| 0 <= j < vs.len() implies (#[trigger] vs[j]).0 != id@ by {
                assert(vs[j] == contact_view(old(contacts)@[j]));
            }
            law_remember_adds_a_new_contact(vs, id@, nv, tv, now);
            let x = r[vs.len() as int];
            assert(r.contains(x));
            assert(r.to_multiset().count(x) > 0);
            assert(sv.to_multiset().count(x) > 0);
            assert(sv.contains(x));
            let m = choose|m: int| 0 <= m < sv.len() && sv[m] == x;
            assert(sv[m] == contact_view(sorted@[m]));
        }
    }
    *contacts = sorted;
}

/// Renames a contact (the name trimmed); others stay as they are.
pub fn rename_contact(contacts: &mut Vec<Contact>, id: &str, name: &str)
    ensures
        final(contacts)@.len() == old(contacts)@.len(),
        forall|i: int| 0 <= i < final(contacts)@.len() ==> {
            let (n, o) = (#[trigger] contact_view(final(contacts)@[i]), contact_view(old(contacts)@[i]));
            n == (if contact_at(old(contacts)@, id@, i) { (o.0, trim(name@), o.2, o.3) } else { o })
        },
{
    let ghost vs = old(contacts)@;
    match find_contact(contacts, id) {
        Some(i) => {
            let mut c = contacts.remove(i);
            let v = collect_chars(name);
            let (a, b) = trim_bounds(&v);
            let mut t = String::new();
            let mut k: usize = a;
            while k < b
                invariant
                    a <= k <= b <= v@.len(),
                    t@ == v@.subrange(a as int, k as int),
                decreases b - k,
            {
                push_char(&mut t, v[k]);
                assert(v@.subrange(a as int, k + 1) =~= v@.subrange(a as int, k as int).push(v@[k as int]));
                k = k + 1;
            }
            c.name = t;
            contacts.insert(i, c);
            assert forall|j: int| 0 <= j < contacts@.len() implies contact_at(vs, id@, j) == (j == i) by {
                if j < i {
                    assert(!(vs[j].peer_id@ == id@));
                } else if j > i {
                    assert(vs[i as int].peer_id@ == id@);
                }
            }
        },
        None => {},
    }
}

/// Forgets every contact with this peer id.
pub fn forget_contact(contacts: &mut Vec<Contact>, id: &str)
    ensures
        final(contacts)@ == old(contacts)@.filter(|c: Contact| c.peer_id@ != id@),
{
    let mut old_list: Vec<Contact> = Vec::new();
    std::mem::swap(&mut old_list, contacts);
    let ghost orig = old_list@;
    let _n0 = old_list.len();
    let mut k: usize = 0;
    while old_list.len() > 0
        invariant
            k + old_list@.len() == orig.len(),
            orig.len() <= usize::MAX,
            old_list@ == orig.skip(k as int),
            contacts@ == orig.take(k as int).filter(|c: Contact| c.peer_id@ != id@),
        decreases old_list.len(),
    {
        let c = old_list.remove(0);
        assert(c == orig[k as int]);
        proof {
            assert(orig.skip(k as int).drop_first() =~= orig.skip(k + 1));
            assert(orig.take(k + 1).drop_last() =~= orig.take(k as int));
            reveal(Seq::filter);
        }
        if !text_eq(c.peer_id.as_str(), id) {
            contacts.push(c);
        }
        k = k + 1;
    }
    assert(orig.take(orig.len() as int) =~= orig);
}

pub open spec fn bad_target_words() -> Seq<char> {
    "Codice non valido: incolla il codice completo (inizia con lso1) oppure scegli un contatto"@
}

/// The ticket text remembered for the first contact with this peer id.
pub open spec fn remembered_ticket(cs: Seq<Contact>, id: Seq<char>) -> Option<Seq<char>> {
    if known(cs, id) {
        opt_text(cs[choose|i: int| contact_at(cs, id, i)].ticket)
    } else {
        None
    }
}

/// The destination the desktop user picked or typed: a contact's peer id
/// reuses the last ticket of that contact as address hints; otherwise a
/// ticket or a bare peer id.
pub fn resolve_target(contacts: &Vec<Contact>, target: &str) -> (r: Result<Ticket, String>)
    ensures
        ({
            let via_contact = !crate::ticket::starts_with_prefix(target@)
                && (remembered_ticket(contacts@, target@) matches Some(t) && crate::ticket::decoded(t) is Ok);
            &&& via_contact ==> crate::ticket::decoded(remembered_ticket(contacts@, target@).unwrap()) == match r {
                Ok(t) => Ok((t.peer@, crate::ticket::addrs_view(t.addrs@))),
                Err(_) => Err(TicketError::NotATicket),
            } && r is Ok
            &&& !via_contact ==> match crate::ticket::parsed_target(target@) {
                Ok(v) => r matches Ok(t) && v == (t.peer@, crate::ticket::addrs_view(t.addrs@)),
                Err(_) => r matches Err(m) && m@ == bad_target_words(),
            }
        }),
{
    if !crate::ticket::is_ticket_text(target) {
        match find_contact(contacts, target) {
            Some(i) => {
                proof {
                    let w = choose|w: int| contact_at(contacts@, target@, w);
                    assert(contact_at(contacts@, target@, i as int));
                    if w < i {
                        assert(contacts@[w].peer_id@ == target@);
                    } else if w > i {
                        assert(contacts@[i as int].peer_id@ == target@);
                    }
                    assert(w == i);
                }
                match &contacts[i].ticket {
                    Some(t) => {
                        match Ticket::decode(t.as_str()) {
                            Ok(tk) => {
                                return Ok(tk);
                            },
                            Err(_) => {},
                        }
                    },
                    None => {},
                }
            },
            None => {},
        }
    }
    match crate::ticket::parse_target(target) {
        Ok(t) => Ok(t),
        Err(_) => {
            let mut m = String::new();
            append(&mut m, "Codice non valido: incolla il codice completo (inizia con lso1) oppure scegli un contatto");
            Err(m)
        },
    }
}

} // verus!

verus! {

/// The title of a transfer in the activity list: the file's name when there
/// is one file, else how many files.
pub open spec fn title_of(names: Seq<Seq<char>>) -> Seq<char> {
    if names.len() == 1 {
        names[0]
    } else {
        crate::text::decimal(names.len()) + " file"@
    }
}

pub fn transfer_title(names: &Vec<String>) -> (r: String)
    ensures
        r@ == title_of(names@.map_values(|s: String| s@)),
{
    let ghost texts = names@.map_values(|s: String| s@);
    if names.len() == 1 {
        let mut r = String::new();
        append(&mut r, names[0].as_str());
        return r;
    }
    let mut r = crate::text::decimal_string(names.len() as u64);
    append(&mut r, " file");
    r
}

/// Sum of the first `k` sizes.
pub open spec fn sum_first(sizes: Seq<u64>, k: int) -> int
    decreases k,
{
    if k <= 0 {
        0
    } else {
        sum_first(sizes, k - 1) + sizes[k - 1]
    }
}

/// The bytes of the files before file `index`: where the overall progress
/// of file `index` starts.
pub fn bytes_before(sizes: &Vec<u64>, index: usize) -> (r: u64)
    requires
        index <= sizes@.len(),
        sum_first(sizes@, index as int) <= u64::MAX,
    ensures
        r == sum_first(sizes@, index as int),
{
    let mut total: u64 = 0;
    let mut i: usize = 0;
    while i < index
        invariant
            i <= index <= sizes@.len(),
            sum_first(sizes@, index as int) <= u64::MAX,
            total == sum_first(sizes@, i as int),
        decreases index - i,
    {
        proof {
            lemma_sum_first_monotonic(sizes@, i + 1, index as int);
        }
        total = total + sizes[i];
        i = i + 1;
    }
    total
}

proof fn lemma_sum_first_monotonic(sizes: Seq<u64>, a: int, b: int)
    requires
        0 <= a <= b <= sizes.len(),
    ensures
        sum_first(sizes, a) <= sum_first(sizes, b),
    decreases b - a,
{
    if a < b {
        lemma_sum_first_monotonic(sizes, a, b - 1);
    }
}

/// Where a transfer stands, as the activity list shows it.
#[derive(Debug, Clone, Copy, PartialEq, Eq, Structural)]
pub enum TransferStage {
    Searching,
    Connecting,
    Direct,
    Waiting,
    Transferring,
    Done,
    Failed,
    Rejected,
}

impl TransferStage {
    /// The name the user interface knows the stage by.
    pub fn name(&self) -> (r: &'static str)
        ensures
            r@ == (match *self {
                TransferStage::Searching => "searching"@,
                TransferStage::Connecting => "connecting"@,
                TransferStage::Direct => "direct"@,
                TransferStage::Waiting => "waiting"@,
                TransferStage::Transferring => "transferring"@,
                TransferStage::Done => "done"@,
                TransferStage::Failed => "failed"@,
                TransferStage::Rejected => "rejected"@,
            }),
    {
        match self {
            TransferStage::Searching => "searching",
            TransferStage::Connecting => "connecting",
            TransferStage::Direct => "direct",
            TransferStage::Waiting => "waiting",
            TransferStage::Transferring => "transferring",
            TransferStage::Done => "done",
            TransferStage::Failed => "failed",
            TransferStage::Rejected => "rejected",
        }
    }

    /// How a failed send ended: declined by the receiver (its error says
    /// "rifiutato"), or failed.
    pub fn of_send_error(msg: &str) -> (r: TransferStage)
        ensures
            r == (if contains_text(msg@, "rifiutato"@) { TransferStage::Rejected } else { TransferStage::Failed }),
    {
        if text_contains(&collect_chars(msg), &collect_chars("rifiutato")) {
            TransferStage::Rejected
        } else {
            TransferStage::Failed
        }
    }
}

/// One of the hints is a symmetric NAT.
pub fn symmetric_nat(hints: &Vec<crate::node::NatHint>) -> (r: bool)
    ensures
        r == exists|i: int| 0 <= i < hints@.len() && (#[trigger] hints@[i] is SymmetricNat),
{
    let mut i: usize = 0;
    while i < hints.len()
        invariant
            i <= hints@.len(),
            forall|j: int| 0 <= j < i ==> !(#[trigger] hints@[j] is SymmetricNat),
        decreases hints.len() - i,
    {
        if let crate::node::NatHint::SymmetricNat { .. } = &hints[i] {
            return true;
        }
        i = i + 1;
    }
    false
}

/// Splits `text` at commas.
pub open spec fn comma_fields(text: Seq<char>) -> Seq<Seq<char>>
    decreases text.len(),
{
    if text.len() == 0 {
        seq![Seq::empty()]
    } else {
        let rest = comma_fields(text.drop_last());
        if text.last() == ',' {
            rest.push(Seq::empty())
        } else {
            rest.update(rest.len() - 1, rest.last().push(text.last()))
        }
    }
}

pub open spec fn trimmed_all(fields: Seq<Seq<char>>) -> Seq<Seq<char>> {
    fields.map_values(|f: Seq<char>| trim(f))
}

/// A comma-separated list of addresses (white space around each ignored);
/// those that do not parse are left out.
pub fn parse_address_list(text: &str) -> (r: Vec<Multiaddr>)
    ensures
        addr_views(r@) == crate::config::parsed_list(trimmed_all(comma_fields(text@))),
{
    let chars = collect_chars(text);
    let mut fields: Vec<Vec<char>> = Vec::new();
    fields.push(Vec::new());
    let mut i: usize = 0;
    while i < chars.len()
        invariant
            i <= chars@.len(),
            chars@ == text@,
            fields@.len() > 0,
            fields@.map_values(|f: Vec<char>| f@) == comma_fields(chars@.take(i as int)),
        decreases chars.len() - i,
    {
        proof {
            assert(chars@.take(i + 1).drop_last() =~= chars@.take(i as int));
            assert(chars@.take(i + 1).last() == chars@[i as int]);
        }
        let ghost before = fields@.map_values(|f: Vec<char>| f@);
        if chars[i] == ',' {
            fields.push(Vec::new());
            assert(fields@.map_values(|f: Vec<char>| f@) =~= before.push(Seq::empty()));
        } else {
            let last = fields.len() - 1;
            let mut f = fields.remove(last);
            f.push(chars[i]);
            fields.push(f);
            assert(fields@.map_values(|f: Vec<char>| f@) =~= before.update(before.len() - 1, before.last().push(chars@[i as int])));
        }
        i = i + 1;
    }
    assert(chars@.take(chars@.len() as int) =~= chars@);
    let ghost fv = fields@.map_values(|f: Vec<char>| f@);
    let ghost texts = trimmed_all(fv);
    let mut r: Vec<Multiaddr> = Vec::new();
    let mut k: usize = 0;
    while k < fields.len()
        invariant
            k <= fields@.len(),
            fv == fields@.map_values(|f: Vec<char>| f@),
            texts == trimmed_all(fv),
            addr_views(r@) == crate::config::parsed_list(texts.take(k as int)),
        decreases fields.len() - k,
    {
        let (a, b) = trim_bounds(&fields[k]);
        let mut t = String::new();
        let mut j: usize = a;
        while j < b
            invariant
                k < fields@.len(),
                a <= j <= b <= fields@[k as int]@.len(),
                t@ == fields@[k as int]@.subrange(a as int, j as int),
            decreases b - j,
        {
            push_char(&mut t, fields[k][j]);
            assert(fields@[k as int]@.subrange(a as int, j + 1) =~= fields@[k as int]@.subrange(a as int, j as int).push(fields@[k as int]@[j as int]));
            j = j + 1;
        }
        proof {
            assert(texts.take(k + 1).drop_last() =~= texts.take(k as int));
            assert(texts.take(k + 1).last() == t@);
        }
        match Multiaddr::parse(t.as_str()) {
            Some(m) => {
                let ghost prev = r@;
                r.push(m);
                assert(addr_views(r@) =~= addr_views(prev).push(r@.last()@));
            },
            None => {},
        }
        k = k + 1;
    }
    assert(texts.take(fields@.len() as int) =~= texts);
    r
}

} // verus!
