//! Peer identities and network addresses, as plain values.
//!
//! A `PeerId` is held as the bytes of its multihash and a `Multiaddr` as its
//! canonical binary form, the same representation libp2p keeps. Reading,
//! printing and decomposing them is left to libp2p, behind the trusted items
//! of this module; everything the project decides about them is verified.
use vstd::prelude::*;
use libp2p::multiaddr::Protocol;

verus! {

/// Base58 text of the PeerId whose multihash bytes are given, `None` if the
/// bytes are not a PeerId.
pub uninterp spec fn peer_id_base58(bytes: Seq<u8>) -> Option<Seq<char>>;

/// Multihash bytes of the PeerId written as `text`, `None` if it is none.
pub uninterp spec fn peer_id_parse(text: Seq<char>) -> Option<Seq<u8>>;

pub open spec fn opt_bytes_view(o: Option<Vec<u8>>) -> Option<Seq<u8>> {
    match o {
        Some(b) => Some(b@),
        None => None,
    }
}

pub open spec fn opt_text_view(o: Option<String>) -> Option<Seq<char>> {
    match o {
        Some(s) => Some(s@),
        None => None,
    }
}

/// A character of the Bitcoin base58 alphabet: ASCII letters and digits
/// except `0`, `O`, `I` and `l`.
pub open spec fn is_base58_char(c: char) -> bool {
    crate::text::is_ascii_alnum(c) && c != '0' && c != 'O' && c != 'I' && c != 'l'
}

/// Calls `libp2p::PeerId::from_bytes` and `PeerId::to_base58`. Trusted: the
/// result is the base58 text named by `peer_id_base58`; as the source of
/// both shows (`to_base58` encodes `to_bytes`, parsing decodes base58 and
/// rebuilds the multihash), parsing that text gives the same bytes back; and
/// `to_base58` writes with `bs58`'s default alphabet, Bitcoin's.
#[verifier::external_body]
fn peer_bytes_to_base58(bytes: &[u8]) -> (r: Option<String>)
    ensures
        opt_text_view(r) == peer_id_base58(bytes@),
        r matches Some(t) ==> peer_id_parse(t@) == Some(bytes@),
        r matches Some(t) ==> forall|i: int| 0 <= i < t@.len() ==> is_base58_char(#[trigger] t@[i]),
{
    libp2p::PeerId::from_bytes(bytes).ok().map(|p| p.to_base58())
}

/// Calls `<libp2p::PeerId as FromStr>::from_str` and `PeerId::to_bytes`.
/// Trusted: the result is named by `peer_id_parse`, and what it gives is a
/// PeerId (`from_bytes` accepts the bytes `to_bytes` wrote).
#[verifier::external_body]
fn parse_peer_text(s: &str) -> (r: Option<Vec<u8>>)
    ensures
        opt_bytes_view(r) == peer_id_parse(s@),
        r matches Some(b) ==> peer_id_base58(b@) is Some,
{
    s.parse::<libp2p::PeerId>().ok().map(|p| p.to_bytes())
}

/// The identity of a device: the multihash of its public key.
#[derive(Debug, PartialEq, Eq, Hash)]
pub struct PeerId {
    bytes: Vec<u8>,
}

impl View for PeerId {
    type V = Seq<u8>;

    closed spec fn view(&self) -> Seq<u8> {
        self.bytes@
    }
}

/// Base58 text of a PeerId given by its bytes.
pub open spec fn base58_of(id: Seq<u8>) -> Seq<char> {
    peer_id_base58(id).unwrap()
}

impl PeerId {
    #[verifier::type_invariant]
    spec fn valid(self) -> bool {
        peer_id_base58(self.bytes@) is Some
    }

    /// Reads a PeerId from its bytes (`PeerId::from_bytes`).
    pub fn from_bytes(bytes: &[u8]) -> (r: Option<PeerId>)
        ensures
            r is Some <==> peer_id_base58(bytes@) is Some,
            r matches Some(p) ==> p@ == bytes@,
    {
        match peer_bytes_to_base58(bytes) {
            Some(_) => Some(PeerId { bytes: vstd::slice::slice_to_vec(bytes) }),
            None => None,
        }
    }

    /// Parses the base58 text of a PeerId.
    pub fn parse(s: &str) -> (r: Option<PeerId>)
        ensures
            opt_peer_view(r) == peer_id_parse(s@),
    {
        match parse_peer_text(s) {
            Some(b) => Some(PeerId { bytes: b }),
            None => None,
        }
    }

    /// The multihash bytes.
    pub fn to_bytes(&self) -> (r: Vec<u8>)
        ensures
            r@ == self@,
            peer_id_base58(r@) is Some,
    {
        proof {
            use_type_invariant(self);
        }
        self.bytes.clone()
    }

    /// The base58 text.
    pub fn to_base58(&self) -> (r: String)
        ensures
            r@ == base58_of(self@),
            peer_id_parse(r@) == Some(self@),
            forall|i: int| 0 <= i < r@.len() ==> is_base58_char(#[trigger] r@[i]),
    {
        proof {
            use_type_invariant(self);
        }
        match peer_bytes_to_base58(&self.bytes) {
            Some(t) => t,
            None => String::new(),
        }
    }

    pub fn eq(&self, other: &PeerId) -> (r: bool)
        ensures
            r == (self@ == other@),
    {
        bytes_eq(&self.bytes, &other.bytes)
    }

    pub fn copy(&self) -> (r: PeerId)
        ensures
            r@ == self@,
    {
        proof {
            use_type_invariant(self);
        }
        PeerId { bytes: self.bytes.clone() }
    }
}

pub open spec fn opt_peer_view(o: Option<PeerId>) -> Option<Seq<u8>> {
    match o {
        Some(p) => Some(p@),
        None => None,
    }
}

/// Byte-wise equality.
pub fn bytes_eq(a: &Vec<u8>, b: &Vec<u8>) -> (r: bool)
    ensures
        r == (a@ == b@),
{
    if a.len() != b.len() {
        return false;
    }
    let mut i: usize = 0;
    while i < a.len()
        invariant
            a@.len() == b@.len(),
            i <= a@.len(),
            forall|j: int| 0 <= j < i ==> a@[j] == b@[j],
        decreases a.len() - i,
    {
        if a[i] != b[i] {
            return false;
        }
        i = i + 1;
    }
    assert(a@ =~= b@);
    true
}

} // verus!

verus! {

/// An IP address: four octets or eight 16-bit segments.
#[derive(Debug, Clone, Copy, PartialEq, Eq, Hash)]
#[verifier::ext_equal]
pub enum IpAddr {
    V4([u8; 4]),
    V6([u16; 8]),
}

/// One component of a multiaddress, reduced to what the project reads of it.
#[derive(Debug)]
pub enum Component {
    Ip4([u8; 4]),
    Ip6([u16; 8]),
    Tcp(u16),
    Udp(u16),
    /// `/dns`, `/dns4`, `/dns6` or `/dnsaddr`.
    Dns,
    /// `/p2p/<peer>`, with the PeerId's bytes.
    P2p(Vec<u8>),
    P2pCircuit,
    /// Any other protocol.
    Other,
}

/// A component as a mathematical value.
pub enum Part {
    Ip4(Seq<u8>),
    Ip6(Seq<u16>),
    Tcp(u16),
    Udp(u16),
    Dns,
    P2p(Seq<u8>),
    P2pCircuit,
    Other,
}

impl View for Component {
    type V = Part;

    open spec fn view(&self) -> Part {
        match self {
            Component::Ip4(o) => Part::Ip4(o@),
            Component::Ip6(s) => Part::Ip6(s@),
            Component::Tcp(p) => Part::Tcp(*p),
            Component::Udp(p) => Part::Udp(*p),
            Component::Dns => Part::Dns,
            Component::P2p(b) => Part::P2p(b@),
            Component::P2pCircuit => Part::P2pCircuit,
            Component::Other => Part::Other,
        }
    }
}

pub open spec fn parts_of(cs: Seq<Component>) -> Seq<Part> {
    cs.map_values(|c: Component| c@)
}

/// The components of the multiaddress whose binary form is `bytes`, `None` if
/// the bytes are not a multiaddress.
pub uninterp spec fn multiaddr_components(bytes: Seq<u8>) -> Option<Seq<Part>>;

/// The textual form (`/ip4/1.2.3.4/tcp/80`) of a multiaddress.
pub uninterp spec fn multiaddr_text(bytes: Seq<u8>) -> Seq<char>;

/// The binary form of the multiaddress written as `text`, `None` if it is none.
pub uninterp spec fn multiaddr_parse(text: Seq<char>) -> Option<Seq<u8>>;

/// The binary form left after removing the last component.
pub uninterp spec fn multiaddr_pop_bytes(bytes: Seq<u8>) -> Seq<u8>;

/// The binary form after appending `/p2p/<relay>/p2p-circuit`.
pub uninterp spec fn multiaddr_circuit_bytes(bytes: Seq<u8>, relay: Seq<u8>) -> Seq<u8>;

/// Every `/p2p` component names a real PeerId.
pub open spec fn peers_valid(cs: Seq<Part>) -> bool {
    forall|i: int| 0 <= i < cs.len() ==> (#[trigger] cs[i] matches Part::P2p(b) ==> peer_id_base58(b) is Some)
}

/// Calls `libp2p::Multiaddr::try_from(Vec<u8>)`. Trusted: it accepts exactly
/// the byte strings that decode into components (`try_from` reads them all).
#[verifier::external_body]
fn multiaddr_bytes_valid(bytes: &Vec<u8>) -> (r: bool)
    ensures
        r == (multiaddr_components(bytes@) is Some),
{
    libp2p::Multiaddr::try_from(bytes.clone()).is_ok()
}

/// Calls `libp2p::Multiaddr::try_from` and `Multiaddr::iter`, and reduces
/// each `Protocol` to a `Component`, one arm per variant. Trusted: the result
/// is the named component list, and a `/p2p` component holds a PeerId.
#[verifier::external_body]
fn multiaddr_decode(bytes: &Vec<u8>) -> (r: Vec<Component>)
    requires
        multiaddr_components(bytes@) is Some,
    ensures
        parts_of(r@) == multiaddr_components(bytes@).unwrap(),
        peers_valid(parts_of(r@)),
{
    let addr = libp2p::Multiaddr::try_from(bytes.clone()).unwrap();
    addr.iter().map(|p| match p {
        Protocol::Ip4(ip) => Component::Ip4(ip.octets()),
        Protocol::Ip6(ip) => Component::Ip6(ip.segments()),
        Protocol::Tcp(port) => Component::Tcp(port),
        Protocol::Udp(port) => Component::Udp(port),
        Protocol::Dns(_) | Protocol::Dns4(_) | Protocol::Dns6(_) | Protocol::Dnsaddr(_) => Component::Dns,
        Protocol::P2p(id) => Component::P2p(id.to_bytes()),
        Protocol::P2pCircuit => Component::P2pCircuit,
        _ => Component::Other,
    }).collect()
}

/// Calls `<libp2p::Multiaddr as Display>::fmt`. Trusted: the result is the
/// named textual form.
#[verifier::external_body]
fn multiaddr_encode_text(bytes: &Vec<u8>) -> (r: String)
    requires
        multiaddr_components(bytes@) is Some,
    ensures
        r@ == multiaddr_text(bytes@),
{
    libp2p::Multiaddr::try_from(bytes.clone()).unwrap().to_string()
}

/// Calls `<libp2p::Multiaddr as FromStr>::from_str` and `Multiaddr::to_vec`.
/// Trusted: the result is named by `multiaddr_parse`, and what it gives is a
/// valid multiaddress (the parser writes whole components).
#[verifier::external_body]
fn multiaddr_parse_text(s: &str) -> (r: Option<Vec<u8>>)
    ensures
        opt_bytes_view(r) == multiaddr_parse(s@),
        r matches Some(b) ==> multiaddr_components(b@) is Some,
{
    s.parse::<libp2p::Multiaddr>().ok().map(|a| a.to_vec())
}

/// Calls `libp2p::Multiaddr::pop`. Trusted: the source truncates the bytes
/// before the last component, so the components left are all but the last.
#[verifier::external_body]
fn multiaddr_pop(bytes: &Vec<u8>) -> (r: Vec<u8>)
    requires
        multiaddr_components(bytes@) is Some,
    ensures
        r@ == multiaddr_pop_bytes(bytes@),
        multiaddr_components(bytes@).unwrap().len() > 0 ==> multiaddr_components(r@) == Some(
            multiaddr_components(bytes@).unwrap().drop_last(),
        ),
{
    let mut a = libp2p::Multiaddr::try_from(bytes.clone()).unwrap();
    a.pop();
    a.to_vec()
}

/// Calls `libp2p::Multiaddr::with` twice, with `Protocol::P2p` and
/// `Protocol::P2pCircuit`. Trusted: `with` writes the component after the
/// existing bytes, so the components grow by exactly these two.
#[verifier::external_body]
fn multiaddr_with_circuit(bytes: &Vec<u8>, relay: &Vec<u8>) -> (r: Vec<u8>)
    requires
        multiaddr_components(bytes@) is Some,
        peer_id_base58(relay@) is Some,
    ensures
        r@ == multiaddr_circuit_bytes(bytes@, relay@),
        multiaddr_components(r@) == Some(
            multiaddr_components(bytes@).unwrap().push(Part::P2p(relay@)).push(Part::P2pCircuit),
        ),
{
    let a = libp2p::Multiaddr::try_from(bytes.clone()).unwrap();
    let peer = libp2p::PeerId::from_bytes(relay).unwrap();
    a.with(Protocol::P2p(peer)).with(Protocol::P2pCircuit).to_vec()
}

/// A network address.
#[derive(Debug, PartialEq, Eq, Hash)]
pub struct Multiaddr {
    bytes: Vec<u8>,
}

impl View for Multiaddr {
    type V = Seq<u8>;

    closed spec fn view(&self) -> Seq<u8> {
        self.bytes@
    }
}

/// The components of a valid multiaddress.
pub open spec fn parts(a: Seq<u8>) -> Seq<Part> {
    multiaddr_components(a).unwrap()
}

impl Multiaddr {
    #[verifier::type_invariant]
    spec fn valid(self) -> bool {
        multiaddr_components(self.bytes@) is Some
    }

    /// Reads a multiaddress from its binary form.
    pub fn from_bytes(bytes: Vec<u8>) -> (r: Option<Multiaddr>)
        ensures
            r is Some <==> multiaddr_components(bytes@) is Some,
            r matches Some(a) ==> a@ == bytes@,
    {
        if multiaddr_bytes_valid(&bytes) {
            Some(Multiaddr { bytes })
        } else {
            None
        }
    }

    /// Parses the textual form.
    pub fn parse(s: &str) -> (r: Option<Multiaddr>)
        ensures
            opt_addr_view(r) == multiaddr_parse(s@),
    {
        match multiaddr_parse_text(s) {
            Some(b) => Some(Multiaddr { bytes: b }),
            None => None,
        }
    }

    /// The binary form.
    pub fn to_vec(&self) -> (r: Vec<u8>)
        ensures
            r@ == self@,
    {
        self.bytes.clone()
    }

    /// The textual form.
    pub fn to_text(&self) -> (r: String)
        ensures
            r@ == multiaddr_text(self@),
    {
        proof {
            use_type_invariant(self);
        }
        multiaddr_encode_text(&self.bytes)
    }

    /// The components, in order.
    pub fn components(&self) -> (r: Vec<Component>)
        ensures
            multiaddr_components(self@) == Some(parts_of(r@)),
            peers_valid(parts_of(r@)),
    {
        proof {
            use_type_invariant(self);
        }
        multiaddr_decode(&self.bytes)
    }

    /// Removes the last component (`Multiaddr::pop`); an empty address stays empty.
    pub fn pop(&mut self)
        ensures
            parts(old(self)@).len() > 0 ==> parts(final(self)@) == parts(old(self)@).drop_last(),
            parts(old(self)@).len() > 0 ==> final(self)@ == multiaddr_pop_bytes(old(self)@),
            parts(old(self)@).len() == 0 ==> final(self)@ == old(self)@,
    {
        proof {
            use_type_invariant(&*self);
        }
        let cs = multiaddr_decode(&self.bytes);
        if cs.len() > 0 {
            let b = multiaddr_pop(&self.bytes);
            self.bytes = b;
        }
    }

    /// This address followed by `/p2p/<relay>/p2p-circuit`.
    pub fn with_circuit(&self, relay: &PeerId) -> (r: Multiaddr)
        ensures
            parts(r@) == parts(self@).push(Part::P2p(relay@)).push(Part::P2pCircuit),
            r@ == multiaddr_circuit_bytes(self@, relay@),
    {
        proof {
            use_type_invariant(self);
        }
        let rb = relay.to_bytes();
        Multiaddr { bytes: multiaddr_with_circuit(&self.bytes, &rb) }
    }

    pub fn eq(&self, other: &Multiaddr) -> (r: bool)
        ensures
            r == (self@ == other@),
    {
        bytes_eq(&self.bytes, &other.bytes)
    }

    pub fn copy(&self) -> (r: Multiaddr)
        ensures
            r@ == self@,
    {
        proof {
            use_type_invariant(self);
        }
        Multiaddr { bytes: self.bytes.clone() }
    }
}

pub open spec fn opt_addr_view(o: Option<Multiaddr>) -> Option<Seq<u8>> {
    match o {
        Some(a) => Some(a@),
        None => None,
    }
}

impl Clone for PeerId {
    fn clone(&self) -> (r: PeerId)
        ensures
            r@ == self@,
    {
        self.copy()
    }
}

impl Clone for Multiaddr {
    fn clone(&self) -> (r: Multiaddr)
        ensures
            r@ == self@,
    {
        self.copy()
    }
}

} // verus!
