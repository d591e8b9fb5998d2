//! The control plane's decisions.
//!
//! One task of the runtime owns the libp2p swarm; everything it learns it
//! hands to a `ControlState` here, which decides what to remember, what to
//! tell the user, whom to dial, when to ask for a relay reservation and when
//! to announce the device in the DHT. The runtime carries out the commands.
use vstd::prelude::*;
use crate::addr::{IpAddr, Multiaddr, Part, PeerId, parts, parts_of, Component};
use crate::direct_only::{is_relayed, spec_is_relayed};
use crate::ticket::strip_peer;

verus! {

/// What a node does in the network.
#[derive(Debug, Clone, Copy, PartialEq, Eq, Structural)]
pub enum Role {
    /// A normal device: DHT client, uses relays, never relays for others.
    Device,
    /// Optional publicly reachable helper (DHT server and signalling relay).
    /// Anybody with a public IP can run one; nothing depends on a specific one.
    Infrastructure,
}

/// The IP version 4 or 6 value of a component.
pub enum IpView {
    V4(Seq<u8>),
    V6(Seq<u16>),
}

pub open spec fn ip_view(ip: IpAddr) -> IpView {
    match ip {
        IpAddr::V4(o) => IpView::V4(o@),
        IpAddr::V6(s) => IpView::V6(s@),
    }
}

/// The IP of the first component, if it is one.
pub open spec fn first_ip_of(ps: Seq<Part>) -> Option<IpView> {
    if ps.len() > 0 {
        match ps[0] {
            Part::Ip4(o) => Some(IpView::V4(o)),
            Part::Ip6(s) => Some(IpView::V6(s)),
            _ => None,
        }
    } else {
        None
    }
}

/// `/ip4|ip6/<ip>/tcp|udp/<port>…`: the IP, the port, and whether it is UDP
/// (QUIC).
pub open spec fn ip_port_of(ps: Seq<Part>) -> Option<(IpView, u16, bool)> {
    if ps.len() >= 2 && first_ip_of(ps) is Some {
        match ps[1] {
            Part::Tcp(p) => Some((first_ip_of(ps).unwrap(), p, false)),
            Part::Udp(p) => Some((first_ip_of(ps).unwrap(), p, true)),
            _ => None,
        }
    } else {
        None
    }
}

/// `Ipv4Addr::is_private`: 10.0.0.0/8, 172.16.0.0/12, 192.168.0.0/16.
pub open spec fn v4_private(o: Seq<u8>) -> bool {
    o[0] == 10 || (o[0] == 172 && 16 <= o[1] && o[1] <= 31) || (o[0] == 192 && o[1] == 168)
}

/// `Ipv4Addr::is_loopback`: 127.0.0.0/8.
pub open spec fn v4_loopback(o: Seq<u8>) -> bool {
    o[0] == 127
}

/// `Ipv4Addr::is_link_local`: 169.254.0.0/16.
pub open spec fn v4_link_local(o: Seq<u8>) -> bool {
    o[0] == 169 && o[1] == 254
}

/// `Ipv4Addr::is_unspecified`: 0.0.0.0.
pub open spec fn v4_unspecified(o: Seq<u8>) -> bool {
    o[0] == 0 && o[1] == 0 && o[2] == 0 && o[3] == 0
}

/// `Ipv4Addr::is_documentation`: 192.0.2.0/24, 198.51.100.0/24, 203.0.113.0/24.
pub open spec fn v4_documentation(o: Seq<u8>) -> bool {
    (o[0] == 192 && o[1] == 0 && o[2] == 2) || (o[0] == 198 && o[1] == 51 && o[2] == 100) || (o[0]
        == 203 && o[1] == 0 && o[2] == 113)
}

/// Shared address space of carrier-grade NAT: 100.64.0.0/10.
pub open spec fn v4_shared(o: Seq<u8>) -> bool {
    o[0] == 100 && 64 <= o[1] && o[1] <= 127
}

/// `Ipv6Addr::is_loopback`: `::1`.
pub open spec fn v6_loopback(s: Seq<u16>) -> bool {
    s[0] == 0 && s[1] == 0 && s[2] == 0 && s[3] == 0 && s[4] == 0 && s[5] == 0 && s[6] == 0 && s[7]
        == 1
}

/// `Ipv6Addr::is_unspecified`: `::`.
pub open spec fn v6_unspecified(s: Seq<u16>) -> bool {
    s[0] == 0 && s[1] == 0 && s[2] == 0 && s[3] == 0 && s[4] == 0 && s[5] == 0 && s[6] == 0 && s[7]
        == 0
}

/// IPv6 documentation range: 2001:db8::/32.
pub open spec fn v6_documentation(s: Seq<u16>) -> bool {
    s[0] == 0x2001 && s[1] == 0x0db8
}

/// Globally routable: a DNS name, a public IPv4 address, or a global unicast
/// IPv6 address (2000::/3) outside the documentation range.
pub open spec fn spec_is_public(ps: Seq<Part>) -> bool {
    if ps.len() > 0 && ps[0] is Dns {
        true
    } else {
        match first_ip_of(ps) {
            Some(IpView::V4(o)) => !(v4_private(o) || v4_loopback(o) || v4_link_local(o)
                || v4_unspecified(o) || v4_documentation(o) || v4_shared(o)),
            Some(IpView::V6(s)) => 0x2000 <= s[0] && s[0] < 0x4000 && !v6_documentation(s),
            None => false,
        }
    }
}

/// An address on a LAN or the Internet: an IP that is neither loopback nor
/// unspecified.
pub open spec fn spec_is_lan_or_public(ps: Seq<Part>) -> bool {
    match first_ip_of(ps) {
        Some(IpView::V4(o)) => !v4_loopback(o) && !v4_unspecified(o),
        Some(IpView::V6(s)) => !v6_loopback(s) && !v6_unspecified(s),
        None => false,
    }
}

fn first_ip(cs: &Vec<Component>) -> (r: Option<IpAddr>)
    ensures
        match r {
            Some(ip) => first_ip_of(parts_of(cs@)) == Some(ip_view(ip)),
            None => first_ip_of(parts_of(cs@)) is None,
        },
{
    if cs.len() == 0 {
        return None;
    }
    match &cs[0] {
        Component::Ip4(o) => Some(IpAddr::V4(*o)),
        Component::Ip6(s) => Some(IpAddr::V6(*s)),
        _ => None,
    }
}

/// IP, port and transport of an `/ip…/tcp|udp/…` address.
pub fn ip_port(a: &Multiaddr) -> (r: Option<(IpAddr, u16, bool)>)
    ensures
        match r {
            Some((ip, port, quic)) => ip_port_of(parts(a@)) == Some((ip_view(ip), port, quic)),
            None => ip_port_of(parts(a@)) is None,
        },
{
    let cs = a.components();
    let ip = match first_ip(&cs) {
        Some(ip) => ip,
        None => {
            return None;
        },
    };
    if cs.len() < 2 {
        return None;
    }
    match &cs[1] {
        Component::Tcp(p) => Some((ip, *p, false)),
        Component::Udp(p) => Some((ip, *p, true)),
        _ => None,
    }
}

/// Globally routable IP (or a DNS name).
pub fn is_public(a: &Multiaddr) -> (r: bool)
    ensures
        r == spec_is_public(parts(a@)),
{
    let cs = a.components();
    if cs.len() > 0 {
        if let Component::Dns = &cs[0] {
            return true;
        }
    }
    match first_ip(&cs) {
        Some(IpAddr::V4(o)) => {
            let private = o[0] == 10 || (o[0] == 172 && 16 <= o[1] && o[1] <= 31) || (o[0] == 192
                && o[1] == 168);
            let loopback = o[0] == 127;
            let link_local = o[0] == 169 && o[1] == 254;
            let unspecified = o[0] == 0 && o[1] == 0 && o[2] == 0 && o[3] == 0;
            let documentation = (o[0] == 192 && o[1] == 0 && o[2] == 2) || (o[0] == 198 && o[1] == 51
                && o[2] == 100) || (o[0] == 203 && o[1] == 0 && o[2] == 113);
            let shared = o[0] == 100 && 64 <= o[1] && o[1] <= 127;
            !(private || loopback || link_local || unspecified || documentation || shared)
        },
        Some(IpAddr::V6(s)) => 0x2000 <= s[0] && s[0] < 0x4000 && !(s[0] == 0x2001 && s[1] == 0x0db8),
        None => false,
    }
}

/// Worth putting in a ticket: an IP that is neither loopback nor unspecified.
pub fn is_lan_or_public(a: &Multiaddr) -> (r: bool)
    ensures
        r == spec_is_lan_or_public(parts(a@)),
{
    let cs = a.components();
    match first_ip(&cs) {
        Some(IpAddr::V4(o)) => !(o[0] == 127) && !(o[0] == 0 && o[1] == 0 && o[2] == 0 && o[3] == 0),
        Some(IpAddr::V6(s)) => {
            let zero6 = s[0] == 0 && s[1] == 0 && s[2] == 0 && s[3] == 0 && s[4] == 0 && s[5] == 0
                && s[6] == 0;
            !(zero6 && s[7] == 1) && !(zero6 && s[7] == 0)
        },
        None => false,
    }
}

/// Among the addresses there is a TCP one and a UDP one.
pub fn has_tcp_and_udp(addrs: &Vec<Multiaddr>) -> (r: bool)
    ensures
        r == ((exists|i: int| 0 <= i < addrs@.len() && (ip_port_of(parts(#[trigger] addrs@[i]@)) matches Some((_, _, q)) && !q))
            && (exists|i: int| 0 <= i < addrs@.len() && (ip_port_of(parts(#[trigger] addrs@[i]@)) matches Some((_, _, q)) && q))),
{
    let mut tcp = false;
    let mut udp = false;
    let mut i: usize = 0;
    while i < addrs.len()
        invariant
            i <= addrs@.len(),
            tcp == exists|j: int| 0 <= j < i && (ip_port_of(parts(#[trigger] addrs@[j]@)) matches Some((_, _, q)) && !q),
            udp == exists|j: int| 0 <= j < i && (ip_port_of(parts(#[trigger] addrs@[j]@)) matches Some((_, _, q)) && q),
        decreases addrs.len() - i,
    {
        match ip_port(&addrs[i]) {
            Some((_, _, quic)) => {
                if quic {
                    udp = true;
                } else {
                    tcp = true;
                }
            },
            None => {},
        }
        i = i + 1;
    }
    tcp && udp
}

} // verus!

verus! {

/// What the node found out about its network.
#[derive(Debug, Clone, PartialEq, Eq)]
pub enum NatHint {
    /// Observed address equals one of our interface addresses.
    PublicAddress(IpAddr),
    /// Two peers saw the same local socket on different public ports:
    /// endpoint-dependent mapping ("symmetric NAT"). Hole punching will
    /// almost certainly fail unless the other side is directly reachable.
    SymmetricNat { ports: Vec<u16> },
    /// UPnP found a gateway but it has no public address (double NAT/CGNAT).
    DoubleNat,
    NoUpnpGateway,
}

/// The text of an IPv6 address (`<Ipv6Addr as Display>`).
pub uninterp spec fn ipv6_display(segments: Seq<u16>) -> Seq<char>;

/// Calls `<libp2p::multiaddr::Protocol as Display>::fmt` on an `Ip6`
/// component. Trusted: the source writes `/ip6/` and then the address as
/// `Ipv6Addr` displays it.
#[verifier::external_body]
fn ip6_component_text(segments: &[u16; 8]) -> (r: String)
    ensures
        r@ == seq!['/', 'i', 'p', '6', '/'] + ipv6_display(segments@),
{
    libp2p::multiaddr::Protocol::Ip6((*segments).into()).to_string()
}

fn ipv6_text(segments: &[u16; 8]) -> (r: String)
    ensures
        r@ == ipv6_display(segments@),
{
    let t = ip6_component_text(segments);
    let cs = crate::text::collect_chars(t.as_str());
    let mut r = String::new();
    let mut i: usize = 5;
    while i < cs.len()
        invariant
            cs@ == t@,
            5 <= i <= cs@.len(),
            r@ == cs@.subrange(5, i as int),
        decreases cs.len() - i,
    {
        crate::text::push_char(&mut r, cs[i]);
        proof {
            assert(cs@.subrange(5, i + 1) =~= cs@.subrange(5, i as int).push(cs@[i as int]));
        }
        i = i + 1;
    }
    assert(cs@.subrange(5, cs@.len() as int) =~= ipv6_display(segments@));
    r
}

pub open spec fn ip_text(ip: IpAddr) -> Seq<char> {
    match ip {
        IpAddr::V4(o) => crate::text::decimal(o[0] as nat) + seq!['.'] + crate::text::decimal(
            o[1] as nat,
        ) + seq!['.'] + crate::text::decimal(o[2] as nat) + seq!['.'] + crate::text::decimal(
            o[3] as nat,
        ),
        IpAddr::V6(s) => ipv6_display(s@),
    }
}

/// `{:?}` of a list of ports: `[1, 2, 3]`.
pub open spec fn ports_debug(ports: Seq<u16>) -> Seq<char> {
    seq![0x5bu8 as char] + ports_joined(ports) + seq![0x5du8 as char]
}

pub open spec fn ports_joined(ports: Seq<u16>) -> Seq<char>
    decreases ports.len(),
{
    if ports.len() == 0 {
        Seq::empty()
    } else if ports.len() == 1 {
        crate::text::decimal(ports[0] as nat)
    } else {
        ports_joined(ports.drop_last()) + seq![',', ' '] + crate::text::decimal(ports.last() as nat)
    }
}

/// Formats an IP address as `Display` does.
pub fn format_ip(ip: &IpAddr) -> (r: String)
    ensures
        r@ == ip_text(*ip),
{
    match ip {
        IpAddr::V4(o) => {
            let mut r = crate::text::decimal_string(o[0] as u64);
            crate::text::push_char(&mut r, '.');
            let d1 = crate::text::decimal_string(o[1] as u64);
            crate::text::append(&mut r, d1.as_str());
            crate::text::push_char(&mut r, '.');
            let d2 = crate::text::decimal_string(o[2] as u64);
            crate::text::append(&mut r, d2.as_str());
            crate::text::push_char(&mut r, '.');
            let d3 = crate::text::decimal_string(o[3] as u64);
            crate::text::append(&mut r, d3.as_str());
            r
        },
        IpAddr::V6(s) => ipv6_text(s),
    }
}

fn format_ports(ports: &Vec<u16>) -> (r: String)
    ensures
        r@ == ports_debug(ports@),
{
    let mut r = String::new();
    crate::text::push_char(&mut r, 0x5bu8 as char);
    let ghost start = r@;
    let mut i: usize = 0;
    while i < ports.len()
        invariant
            i <= ports@.len(),
            r@ == start + ports_joined(ports@.take(i as int)),
        decreases ports.len() - i,
    {
        proof {
            assert(ports@.take(i + 1).drop_last() =~= ports@.take(i as int));
        }
        if i > 0 {
            crate::text::push_char(&mut r, ',');
            crate::text::push_char(&mut r, ' ');
        }
        let d = crate::text::decimal_string(ports[i] as u64);
        crate::text::append(&mut r, d.as_str());
        proof {
            if i == 0 {
                assert(ports@.take(0) =~= Seq::<u16>::empty());
            }
            assert(r@ =~= start + ports_joined(ports@.take(i + 1)));
        }
        i = i + 1;
    }
    assert(ports@.take(ports@.len() as int) =~= ports@);
    crate::text::push_char(&mut r, 0x5du8 as char);
    r
}

pub open spec fn hint_text(h: NatHint) -> Seq<char> {
    match h {
        NatHint::PublicAddress(ip) => "IP pubblico diretto ("@ + ip_text(ip) + "), nessun NAT"@,
        NatHint::SymmetricNat { ports } => "NAT simmetrico probabile (stesso socket visto su porte diverse: "@
            + ports_debug(ports@) + "); hole punching quasi impossibile verso peer anch'essi dietro NAT"@,
        NatHint::DoubleNat => "doppio NAT / CGNAT (il router UPnP non ha IP pubblico)"@,
        NatHint::NoUpnpGateway => "nessun router UPnP/IGD disponibile"@,
    }
}

/// What a hint means, in the user's words.
pub fn describe_hint(h: &NatHint) -> (r: String)
    ensures
        r@ == hint_text(*h),
{
    let mut r = String::new();
    match h {
        NatHint::PublicAddress(ip) => {
            crate::text::append(&mut r, "IP pubblico diretto (");
            let t = format_ip(ip);
            crate::text::append(&mut r, t.as_str());
            crate::text::append(&mut r, "), nessun NAT");
        },
        NatHint::SymmetricNat { ports } => {
            crate::text::append(
                &mut r,
                "NAT simmetrico probabile (stesso socket visto su porte diverse: ",
            );
            let t = format_ports(ports);
            crate::text::append(&mut r, t.as_str());
            crate::text::append(
                &mut r,
                "); hole punching quasi impossibile verso peer anch'essi dietro NAT",
            );
        },
        NatHint::DoubleNat => {
            crate::text::append(&mut r, "doppio NAT / CGNAT (il router UPnP non ha IP pubblico)");
        },
        NatHint::NoUpnpGateway => {
            crate::text::append(&mut r, "nessun router UPnP/IGD disponibile");
        },
    }
    r
}

} // verus!

verus! {

/// Why no direct connection could be established. The fields are facts
/// collected while trying; `explain` turns them into a diagnosis.
#[derive(Debug, Clone)]
pub struct ConnectFailure {
    pub found_in_dht: bool,
    pub relayed_connection: bool,
    pub holepunch_error: Option<String>,
    pub dial_errors: Vec<String>,
    pub local_hints: Vec<NatHint>,
    pub have_observed_addr: bool,
}

pub open spec fn relayed_head() -> Seq<char> {
    "Il peer è online e raggiungibile tramite relay (canale di segnalazione OK),\nma il hole punching (DCUtR) non è riuscito"@
}

pub open spec fn relayed_tail() -> Seq<char> {
    ".\nCon questa combinazione di NAT/firewall una connessione diretta NON è possibile.\nCause tipiche: NAT simmetrico (mapping dipendente dalla destinazione, frequente\nsu CGNAT mobile/aziendale) su almeno un lato, oppure UDP e TCP in ingresso\nfiltrati da un firewall. Per scelta i dati non passano dal relay.\nRimedi: rete diversa per uno dei due (es. hotspot), IPv6 nativo, UPnP/port\nforwarding sul router di uno dei due."@
}

pub open spec fn not_found_text() -> Seq<char> {
    "Nessun indirizzo trovato per il peer (né nel ticket né nella DHT).\nIl ricevente è offline, oppure non ha ancora ottenuto una prenotazione relay\ne un annuncio DHT (attendere ~1 minuto dopo l'avvio di `lso receive`)."@
}

pub open spec fn no_answer_text() -> Seq<char> {
    "Il peer non ha risposto su nessun indirizzo noto (offline o ticket scaduto)."@
}

pub open spec fn no_observed_text() -> Seq<char> {
    "\nATTENZIONE: nessun nodo pubblico ci ha comunicato il nostro indirizzo esterno;\nil bootstrap è probabilmente bloccato da un firewall."@
}

pub open spec fn hints_text(hs: Seq<NatHint>) -> Seq<char>
    decreases hs.len(),
{
    if hs.len() == 0 {
        Seq::empty()
    } else {
        hints_text(hs.drop_last()) + "\nDiagnosi locale: "@ + hint_text(hs.last())
    }
}

pub open spec fn errors_text(es: Seq<String>) -> Seq<char>
    decreases es.len(),
{
    if es.len() == 0 {
        Seq::empty()
    } else {
        errors_text(es.drop_last()) + "\n  - "@ + es.last()@
    }
}

/// The diagnosis `explain` writes: why it failed, whether our own address is
/// unknown, the local hints, and the first six connection errors.
pub open spec fn explanation(f: ConnectFailure) -> Seq<char> {
    let cause = if f.relayed_connection {
        relayed_head() + match f.holepunch_error {
            Some(e) => ": "@ + e@,
            None => Seq::empty(),
        } + relayed_tail()
    } else if !f.found_in_dht && f.dial_errors@.len() == 0 {
        not_found_text()
    } else {
        no_answer_text()
    };
    let observed = if !f.have_observed_addr { no_observed_text() } else { Seq::empty() };
    let errors = if f.dial_errors@.len() > 0 {
        "\nErrori di connessione:"@ + errors_text(
            f.dial_errors@.take(if f.dial_errors@.len() < 6 { f.dial_errors@.len() as int } else { 6 }),
        )
    } else {
        Seq::empty()
    };
    cause + observed + hints_text(f.local_hints@) + errors
}

impl ConnectFailure {
    /// A failure about which nothing is known yet.
    pub fn empty() -> (r: ConnectFailure)
        ensures
            !r.found_in_dht && !r.relayed_connection && r.holepunch_error is None
                && r.dial_errors@.len() == 0 && r.local_hints@.len() == 0 && !r.have_observed_addr,
    {
        ConnectFailure {
            found_in_dht: false,
            relayed_connection: false,
            holepunch_error: None,
            dial_errors: Vec::new(),
            local_hints: Vec::new(),
            have_observed_addr: false,
        }
    }

    /// The diagnosis, in the user's words.
    pub fn explain(&self) -> (r: String)
        ensures
            r@ == explanation(*self),
    {
        let mut out = String::new();
        if self.relayed_connection {
            crate::text::append(&mut out, "Il peer è online e raggiungibile tramite relay (canale di segnalazione OK),\nma il hole punching (DCUtR) non è riuscito");
            match &self.holepunch_error {
                Some(e) => {
                    crate::text::append(&mut out, ": ");
                    crate::text::append(&mut out, e.as_str());
                },
                None => {},
            }
            crate::text::append(&mut out, ".\nCon questa combinazione di NAT/firewall una connessione diretta NON è possibile.\nCause tipiche: NAT simmetrico (mapping dipendente dalla destinazione, frequente\nsu CGNAT mobile/aziendale) su almeno un lato, oppure UDP e TCP in ingresso\nfiltrati da un firewall. Per scelta i dati non passano dal relay.\nRimedi: rete diversa per uno dei due (es. hotspot), IPv6 nativo, UPnP/port\nforwarding sul router di uno dei due.");
        } else if !self.found_in_dht && self.dial_errors.len() == 0 {
            crate::text::append(&mut out, "Nessun indirizzo trovato per il peer (né nel ticket né nella DHT).\nIl ricevente è offline, oppure non ha ancora ottenuto una prenotazione relay\ne un annuncio DHT (attendere ~1 minuto dopo l'avvio di `lso receive`).");
        } else {
            crate::text::append(&mut out, "Il peer non ha risposto su nessun indirizzo noto (offline o ticket scaduto).");
        }
        if !self.have_observed_addr {
            crate::text::append(&mut out, "\nATTENZIONE: nessun nodo pubblico ci ha comunicato il nostro indirizzo esterno;\nil bootstrap è probabilmente bloccato da un firewall.");
        }
        let ghost before_hints = out@;
        let mut i: usize = 0;
        while i < self.local_hints.len()
            invariant
                i <= self.local_hints@.len(),
                out@ == before_hints + hints_text(self.local_hints@.take(i as int)),
            decreases self.local_hints.len() - i,
        {
            crate::text::append(&mut out, "\nDiagnosi locale: ");
            let d = describe_hint(&self.local_hints[i]);
            crate::text::append(&mut out, d.as_str());
            proof {
                assert(self.local_hints@.take(i + 1).drop_last() =~= self.local_hints@.take(i as int));
            }
            i = i + 1;
        }
        assert(self.local_hints@.take(self.local_hints@.len() as int) =~= self.local_hints@);
        if self.dial_errors.len() > 0 {
            crate::text::append(&mut out, "\nErrori di connessione:");
            let ghost before_errors = out@;
            let n: usize = if self.dial_errors.len() < 6 { self.dial_errors.len() } else { 6 };
            let mut j: usize = 0;
            while j < n
                invariant
                    n <= self.dial_errors@.len(),
                    j <= n,
                    out@ == before_errors + errors_text(self.dial_errors@.take(j as int)),
                decreases n - j,
            {
                crate::text::append(&mut out, "\n  - ");
                crate::text::append(&mut out, self.dial_errors[j].as_str());
                proof {
                    assert(self.dial_errors@.take(j + 1).drop_last() =~= self.dial_errors@.take(j as int));
                }
                j = j + 1;
            }
        }
        out
    }
}

} // verus!

verus! {

/// What the node knows at one moment.
#[derive(Debug, Clone)]
pub struct Snapshot {
    pub peer_id: Option<PeerId>,
    pub listen_addrs: Vec<Multiaddr>,
    pub external_addrs: Vec<Multiaddr>,
    pub observed_addrs: Vec<Multiaddr>,
    pub reservations: Vec<PeerId>,
    pub routing_peers: usize,
    pub hints: Vec<NatHint>,
}

pub open spec fn addr_views(v: Seq<Multiaddr>) -> Seq<Seq<u8>> {
    v.map_values(|a: Multiaddr| a@)
}

/// The confirmed external addresses, then the listen addresses on a LAN or the
/// Internet that are not among them yet.
pub open spec fn ticket_candidates(external: Seq<Seq<u8>>, listen: Seq<Multiaddr>) -> Seq<Seq<u8>>
    decreases listen.len(),
{
    if listen.len() == 0 {
        external
    } else {
        let m = ticket_candidates(external, listen.drop_last());
        let a = listen.last()@;
        if spec_is_lan_or_public(parts(a)) && !m.contains(a) {
            m.push(a)
        } else {
            m
        }
    }
}

pub fn contains_addr(v: &Vec<Multiaddr>, a: &Multiaddr) -> (r: bool)
    ensures
        r == addr_views(v@).contains(a@),
{
    let mut i: usize = 0;
    while i < v.len()
        invariant
            i <= v@.len(),
            forall|j: int| 0 <= j < i ==> v@[j]@ != a@,
        decreases v.len() - i,
    {
        if v[i].eq(a) {
            assert(addr_views(v@)[i as int] == a@);
            return true;
        }
        i = i + 1;
    }
    assert forall|j: int| 0 <= j < addr_views(v@).len() implies addr_views(v@)[j] != a@ by {
        assert(addr_views(v@)[j] == v@[j]@);
    }
    false
}

pub fn copy_addrs(v: &Vec<Multiaddr>) -> (r: Vec<Multiaddr>)
    ensures
        addr_views(r@) == addr_views(v@),
{
    let mut r: Vec<Multiaddr> = Vec::new();
    let mut i: usize = 0;
    while i < v.len()
        invariant
            i <= v@.len(),
            r@.len() == i,
            forall|j: int| 0 <= j < i ==> (#[trigger] r@[j])@ == v@[j]@,
        decreases v.len() - i,
    {
        r.push(v[i].copy());
        i = i + 1;
    }
    assert(addr_views(r@) =~= addr_views(v@));
    r
}

/// Every confirmed external address goes into the ticket, in order and
/// before any listen address: the candidates start with the external
/// addresses; and a listen address on a LAN or the Internet is among them.
pub proof fn law_ticket_keeps_external_addrs(external: Seq<Seq<u8>>, listen: Seq<Multiaddr>)
    ensures
        ticket_candidates(external, listen).len() >= external.len(),
        forall|i: int| 0 <= i < external.len() ==> #[trigger] ticket_candidates(external, listen)[i] == external[i],
        forall|j: int| 0 <= j < listen.len() && spec_is_lan_or_public(parts(#[trigger] listen[j]@))
            ==> ticket_candidates(external, listen).contains(listen[j]@),
    decreases listen.len(),
{
    if listen.len() > 0 {
        let rest = listen.drop_last();
        law_ticket_keeps_external_addrs(external, rest);
        let m = ticket_candidates(external, rest);
        let a = listen.last()@;
        assert forall|j: int| 0 <= j < listen.len() && spec_is_lan_or_public(parts(#[trigger] listen[j]@))
            implies ticket_candidates(external, listen).contains(listen[j]@) by {
            if j < listen.len() - 1 {
                assert(listen[j] == rest[j]);
                assert(m.contains(listen[j]@));
                if spec_is_lan_or_public(parts(a)) && !m.contains(a) {
                    let k = choose|k: int| 0 <= k < m.len() && m[k] == listen[j]@;
                    assert(m.push(a)[k] == listen[j]@);
                }
            } else {
                if !m.contains(a) {
                    assert(m.push(a)[m.len() as int] == a);
                }
            }
        }
        assert forall|i: int| 0 <= i < external.len() implies #[trigger] ticket_candidates(external, listen)[i] == external[i] by {
            assert(m[i] == external[i]);
            if spec_is_lan_or_public(parts(a)) && !m.contains(a) {
                assert(m.push(a)[i] == m[i]);
            }
        }
    }
}

impl Snapshot {
    /// Addresses worth putting in a ticket: confirmed external ones (relay
    /// circuits, UPnP mappings, public IPs) plus LAN addresses, each without
    /// a trailing `/p2p/<own id>`.
    pub fn ticket(&self) -> (t: crate::ticket::Ticket)
        requires
            self.peer_id is Some,
        ensures
            t.peer@ == self.peer_id.unwrap()@,
            t.addrs@.len() == ticket_candidates(addr_views(self.external_addrs@), self.listen_addrs@).len(),
            forall|i: int| 0 <= i < t.addrs@.len() ==> parts(#[trigger] t.addrs@[i]@) == crate::ticket::stripped(
                parts(ticket_candidates(addr_views(self.external_addrs@), self.listen_addrs@)[i]),
                t.peer@,
            ),
            forall|i: int| 0 <= i < t.addrs@.len() ==> (#[trigger] t.addrs@[i])@ == crate::ticket::stripped_bytes(
                ticket_candidates(addr_views(self.external_addrs@), self.listen_addrs@)[i],
                t.peer@,
            ),
            // Every confirmed external address, in order, first.
            t.addrs@.len() >= self.external_addrs@.len(),
            forall|i: int| 0 <= i < self.external_addrs@.len() ==> (#[trigger] t.addrs@[i])@
                == crate::ticket::stripped_bytes(self.external_addrs@[i]@, t.peer@),
            // And every listen address on a LAN or the Internet.
            forall|j: int| 0 <= j < self.listen_addrs@.len() && spec_is_lan_or_public(parts(#[trigger] self.listen_addrs@[j]@))
                ==> exists|i: int| 0 <= i < t.addrs@.len() && (#[trigger] t.addrs@[i])@
                    == crate::ticket::stripped_bytes(self.listen_addrs@[j]@, t.peer@),
    {
        proof {
            law_ticket_keeps_external_addrs(addr_views(self.external_addrs@), self.listen_addrs@);
        }
        let me = match &self.peer_id {
            Some(p) => p.copy(),
            None => PeerId::from_bytes(&[]).unwrap(),
        };
        let mut addrs = copy_addrs(&self.external_addrs);
        let mut i: usize = 0;
        while i < self.listen_addrs.len()
            invariant
                i <= self.listen_addrs@.len(),
                addr_views(addrs@) == ticket_candidates(addr_views(self.external_addrs@), self.listen_addrs@.take(i as int)),
            decreases self.listen_addrs.len() - i,
        {
            proof {
                assert(self.listen_addrs@.take(i + 1).drop_last() =~= self.listen_addrs@.take(i as int));
                assert(self.listen_addrs@.take(i + 1).last() == self.listen_addrs@[i as int]);
            }
            let a = &self.listen_addrs[i];
            if is_lan_or_public(a) && !contains_addr(&addrs, a) {
                addrs.push(a.copy());
                proof {
                    assert(addr_views(addrs@) =~= addr_views(addrs@.drop_last()).push(a@));
                }
            }
            i = i + 1;
        }
        assert(self.listen_addrs@.take(self.listen_addrs@.len() as int) =~= self.listen_addrs@);
        let ghost cand = addr_views(addrs@);
        let mut out: Vec<Multiaddr> = Vec::new();
        let mut k: usize = 0;
        while k < addrs.len()
            invariant
                cand == addr_views(addrs@),
                k <= addrs@.len(),
                out@.len() == k,
                forall|x: int| 0 <= x < k ==> parts(#[trigger] out@[x]@) == crate::ticket::stripped(parts(cand[x]), me@),
                forall|x: int| 0 <= x < k ==> (#[trigger] out@[x])@ == crate::ticket::stripped_bytes(cand[x], me@),
            decreases addrs.len() - k,
        {
            let a = crate::ticket::strip_peer(addrs[k].copy(), &me);
            out.push(a);
            k = k + 1;
        }
        proof {
            let c = ticket_candidates(addr_views(self.external_addrs@), self.listen_addrs@);
            assert forall|j: int| 0 <= j < self.listen_addrs@.len() && spec_is_lan_or_public(parts(#[trigger] self.listen_addrs@[j]@))
                implies exists|i: int| 0 <= i < out@.len() && (#[trigger] out@[i])@
                    == crate::ticket::stripped_bytes(self.listen_addrs@[j]@, me@) by {
                assert(c.contains(self.listen_addrs@[j]@));
                let i = choose|i: int| 0 <= i < c.len() && c[i] == self.listen_addrs@[j]@;
                assert(out@[i]@ == crate::ticket::stripped_bytes(c[i], me@));
            }
        }
        crate::ticket::Ticket { peer: me, addrs: out }
    }
}

} // verus!

verus! {

/// Human-relevant things happening in the control plane.
#[derive(Debug)]
pub enum NodeEvent {
    Listening(Multiaddr),
    /// A peer told us how it sees us (identify). Our "public" address.
    ObservedAddr { by: PeerId, addr: Multiaddr },
    ReservationAccepted { relay: PeerId },
    ReservationLost { relay: PeerId },
    Announced,
    AnnounceFailed(String),
    NatHint(NatHint),
    ConnectionOpened { peer: PeerId, addr: Multiaddr, relayed: bool },
    ConnectionClosed { peer: PeerId, relayed: bool },
    HolePunch { peer: PeerId, result: Result<(), String> },
    LanPeer { peer: PeerId, addr: Multiaddr },
    PortMapped(Multiaddr),
}

/// A direct connection to a peer.
#[derive(Debug, Clone)]
pub struct DirectConnection {
    pub peer: PeerId,
    pub addr: Multiaddr,
    /// True if we first had to go through a relay and upgraded via hole punching.
    pub hole_punched: bool,
}

/// A request for a direct connection that is still open.
pub struct PendingConnect {
    /// How the runtime answers the requester.
    pub reply: u64,
    pub peer: PeerId,
    /// Milliseconds on the runtime's clock.
    pub deadline: u64,
    pub failure: ConnectFailure,
    /// The DHT lookup of the peer, once started.
    pub lookup: Option<u64>,
}

/// What the runtime must do.
pub enum Command {
    Emit(NodeEvent),
    /// Answer a connection request.
    Reply { reply: u64, result: Result<DirectConnection, ConnectFailure> },
    /// Stop a DHT query.
    FinishQuery(u64),
    /// Remember an address of a peer.
    AddPeerAddress { peer: PeerId, addr: Multiaddr },
    /// Dial a peer on these addresses, even if already connected.
    Dial { peer: PeerId, addrs: Vec<Multiaddr> },
    /// Dial a peer on the addresses the DHT gave, unless connected or dialling.
    DialIfIdle { peer: PeerId },
    /// Add a DHT server's address to the routing table.
    AddKadAddress { peer: PeerId, addr: Multiaddr },
    /// Ask the DHT for the providers of the peer's rendezvous key on behalf of
    /// the request `reply`, and report the query with `lookup_started`.
    LookupProviders { reply: u64, peer: PeerId },
    /// Listen on a relay circuit (ask for a reservation) and report the
    /// listener with `reservation_requested`.
    ListenOnCircuit { relay: PeerId, addr: Multiaddr },
    /// Announce ourselves under our rendezvous key and report the query with
    /// `announce_started`.
    StartProviding,
}

/// How another peer sees one of our sockets.
pub struct Observation {
    pub by: PeerId,
    pub quic: bool,
    pub addr: Multiaddr,
}

/// A live connection.
pub struct Conn {
    pub id: u64,
    pub peer: PeerId,
    pub addr: Multiaddr,
    pub relayed: bool,
}

/// A relay reservation, asked for or confirmed.
pub struct Reservation {
    pub listener: u64,
    pub relay: PeerId,
    pub confirmed: bool,
}

/// Relays we could ask for a reservation, with the address we reached them on.
pub struct RelayCandidate {
    pub relay: PeerId,
    pub addr: Multiaddr,
}

/// A relay not to ask again before `until`.
pub struct Backoff {
    pub relay: PeerId,
    pub until: u64,
}

pub struct ControlState {
    me: PeerId,
    reachable: bool,
    listen_addrs: Vec<Multiaddr>,
    external_addrs: Vec<Multiaddr>,
    observed: Vec<Observation>,
    hints: Vec<NatHint>,
    conns: Vec<Conn>,
    relay_candidates: Vec<RelayCandidate>,
    reservations: Vec<Reservation>,
    relay_backoff: Vec<Backoff>,
    announce_due: bool,
    last_announce: Option<u64>,
    announce_query: Option<u64>,
    pending: Vec<PendingConnect>,
    holepunched: Vec<PeerId>,
}

pub open spec fn peer_views(v: Seq<PeerId>) -> Seq<Seq<u8>> {
    v.map_values(|p: PeerId| p@)
}

/// The relays of the confirmed reservations, in order.
pub open spec fn confirmed_relays(rs: Seq<Reservation>) -> Seq<Seq<u8>>
    decreases rs.len(),
{
    if rs.len() == 0 {
        Seq::empty()
    } else if rs.last().confirmed {
        confirmed_relays(rs.drop_last()).push(rs.last().relay@)
    } else {
        confirmed_relays(rs.drop_last())
    }
}

/// The same hint, the port list compared by its elements.
pub open spec fn same_hint(a: NatHint, b: NatHint) -> bool {
    match (a, b) {
        (NatHint::PublicAddress(x), NatHint::PublicAddress(y)) => x == y,
        (NatHint::SymmetricNat { ports: p }, NatHint::SymmetricNat { ports: q }) => p@ == q@,
        (NatHint::DoubleNat, NatHint::DoubleNat) => true,
        (NatHint::NoUpnpGateway, NatHint::NoUpnpGateway) => true,
        _ => false,
    }
}

/// The kind of a hint: hints of one kind replace each other.
pub open spec fn hint_kind(h: NatHint) -> int {
    match h {
        NatHint::PublicAddress(_) => 0,
        NatHint::SymmetricNat { .. } => 1,
        NatHint::DoubleNat => 2,
        NatHint::NoUpnpGateway => 3,
    }
}

pub open spec fn hint_kinds_distinct(hs: Seq<NatHint>) -> bool {
    forall|i: int, j: int| 0 <= i < j < hs.len() ==> hint_kind(hs[i]) != hint_kind(hs[j])
}

pub open spec fn has_direct(conns: Seq<Conn>, peer: Seq<u8>) -> bool {
    exists|i: int| 0 <= i < conns.len() && conns[i].peer@ == peer && !conns[i].relayed
}

/// Milliseconds a connection request may take (relay dial plus hole punching,
/// which itself retries three times).
pub const DIRECT_CONNECT_TIMEOUT_MS: u64 = 60000;

/// Announce ourselves again this often.
pub const REPROVIDE_INTERVAL_MS: u64 = 600000;

/// How many relay reservations a receiving node tries to keep. More than one
/// so that a single relay going away does not make us unreachable.
pub const TARGET_RESERVATIONS: usize = 2;

/// Milliseconds before asking the same relay again.
pub const RELAY_BACKOFF_MS: u64 = 120000;

impl NatHint {
    pub fn copy(&self) -> (r: NatHint)
        ensures
            same_hint(r, *self),
    {
        match self {
            NatHint::PublicAddress(IpAddr::V4(o)) => {
                let c: [u8; 4] = *o;
                assert(c@ =~= o@);
                assert(c == *o);
                NatHint::PublicAddress(IpAddr::V4(c))
            },
            NatHint::PublicAddress(IpAddr::V6(g)) => {
                let c: [u16; 8] = *g;
                assert(c@ =~= g@);
                assert(c == *g);
                NatHint::PublicAddress(IpAddr::V6(c))
            },
            NatHint::SymmetricNat { ports } => {
                let p = ports.clone();
                assert(p@ =~= ports@);
                NatHint::SymmetricNat { ports: p }
            },
            NatHint::DoubleNat => NatHint::DoubleNat,
            NatHint::NoUpnpGateway => NatHint::NoUpnpGateway,
        }
    }

    fn kind(&self) -> (k: u8)
        ensures
            k == hint_kind(*self),
    {
        match self {
            NatHint::PublicAddress(_) => 0,
            NatHint::SymmetricNat { .. } => 1,
            NatHint::DoubleNat => 2,
            NatHint::NoUpnpGateway => 3,
        }
    }
}

impl ControlState {
    pub closed spec fn me(&self) -> Seq<u8> {
        self.me@
    }

    pub closed spec fn is_reachable(&self) -> bool {
        self.reachable
    }

    pub closed spec fn hints(&self) -> Seq<NatHint> {
        self.hints@
    }

    pub closed spec fn conns(&self) -> Seq<Conn> {
        self.conns@
    }

    pub closed spec fn pending(&self) -> Seq<PendingConnect> {
        self.pending@
    }

    pub closed spec fn reservations(&self) -> Seq<Reservation> {
        self.reservations@
    }

    pub closed spec fn relay_candidates(&self) -> Seq<RelayCandidate> {
        self.relay_candidates@
    }

    pub closed spec fn relay_backoff(&self) -> Seq<Backoff> {
        self.relay_backoff@
    }

    pub closed spec fn observed(&self) -> Seq<Observation> {
        self.observed@
    }

    pub closed spec fn listen_addrs(&self) -> Seq<Seq<u8>> {
        addr_views(self.listen_addrs@)
    }

    pub closed spec fn external_addrs(&self) -> Seq<Seq<u8>> {
        addr_views(self.external_addrs@)
    }

    pub closed spec fn announce_due(&self) -> bool {
        self.announce_due
    }

    pub closed spec fn announce_query(&self) -> Option<u64> {
        self.announce_query
    }

    pub closed spec fn last_announce(&self) -> Option<u64> {
        self.last_announce
    }

    pub closed spec fn holepunched(&self) -> Seq<Seq<u8>> {
        self.holepunched@.map_values(|p: PeerId| p@)
    }

    pub closed spec fn wf(&self) -> bool {
        hint_kinds_distinct(self.hints@)
    }

    /// A fresh state for the device `me`. Only devices that want to be
    /// reachable keep relay reservations and announce themselves.
    pub fn new(me: PeerId, reachable: bool, role: Role) -> (s: ControlState)
        ensures
            s.wf(),
            s.me() == me@,
            s.is_reachable() == (reachable && role == Role::Device),
            s.conns().len() == 0 && s.pending().len() == 0 && s.hints().len() == 0,
            s.reservations().len() == 0 && s.observed().len() == 0,
            s.announce_query() is None && !s.announce_due() && s.last_announce() is None,
    {
        ControlState {
            me,
            reachable: reachable && role == Role::Device,
            listen_addrs: Vec::new(),
            external_addrs: Vec::new(),
            observed: Vec::new(),
            hints: Vec::new(),
            conns: Vec::new(),
            relay_candidates: Vec::new(),
            reservations: Vec::new(),
            relay_backoff: Vec::new(),
            announce_due: false,
            last_announce: None,
            announce_query: None,
            pending: Vec::new(),
            holepunched: Vec::new(),
        }
    }

    /// Records a hint. One hint per kind: a newer one replaces the older one
    /// silently (the symmetric-NAT port list keeps growing as more peers
    /// observe us, which is not news for the user); a new kind is announced.
    pub fn hint(&mut self, h: NatHint) -> (r: Option<NodeEvent>)
        requires
            old(self).wf(),
        ensures
            final(self).wf(),
            final(self).conns() == old(self).conns(),
            final(self).pending() == old(self).pending(),
            final(self).observed() == old(self).observed(),
            final(self).reservations() == old(self).reservations(),
            final(self).relay_candidates() == old(self).relay_candidates(),
            final(self).relay_backoff() == old(self).relay_backoff(),
            final(self).listen_addrs() == old(self).listen_addrs(),
            final(self).external_addrs() == old(self).external_addrs(),
            final(self).me() == old(self).me(),
            final(self).is_reachable() == old(self).is_reachable(),
            final(self).announce_due() == old(self).announce_due(),
            final(self).announce_query() == old(self).announce_query(),
            final(self).holepunched() == old(self).holepunched(),
            (exists|i: int| 0 <= i < old(self).hints().len() && hint_kind(old(self).hints()[i]) == hint_kind(h))
                ==> (r is None && final(self).hints().len() == old(self).hints().len()
                && exists|i: int| 0 <= i < old(self).hints().len() && hint_kind(old(self).hints()[i]) == hint_kind(h)
                && final(self).hints() == old(self).hints().update(i, h)),
            !(exists|i: int| 0 <= i < old(self).hints().len() && hint_kind(old(self).hints()[i]) == hint_kind(h))
                ==> ((r matches Some(NodeEvent::NatHint(e)) && same_hint(e, h)) && final(self).hints() == old(self).hints().push(h)),
    {
        let k = h.kind();
        let mut i: usize = 0;
        while i < self.hints.len()
            invariant
                i <= self.hints@.len(),
                self.hints@ == old(self).hints@,
                self.conns@ == old(self).conns@,
                self.pending@ == old(self).pending@,
                self.observed@ == old(self).observed@,
                self.reservations@ == old(self).reservations@,
                self.relay_candidates@ == old(self).relay_candidates@,
                self.relay_backoff@ == old(self).relay_backoff@,
                self.listen_addrs@ == old(self).listen_addrs@,
                self.external_addrs@ == old(self).external_addrs@,
                self.holepunched@ == old(self).holepunched@,
                self.me == old(self).me,
                self.reachable == old(self).reachable,
                self.announce_due == old(self).announce_due,
                self.announce_query == old(self).announce_query,
                hint_kinds_distinct(self.hints@),
                k == hint_kind(h),
                forall|j: int| 0 <= j < i ==> hint_kind(self.hints@[j]) != k,
            decreases self.hints.len() - i,
        {
            if self.hints[i].kind() == k {
                let ghost old_hints = self.hints@;
                self.hints.set(i, h);
                proof {
                    assert(self.hints@ == old_hints.update(i as int, h));
                    assert forall|a: int, b: int| 0 <= a < b < self.hints@.len() implies hint_kind(self.hints@[a]) != hint_kind(self.hints@[b]) by {
                        if a != i && b != i {
                            assert(hint_kind(old_hints[a]) != hint_kind(old_hints[b]));
                        } else if a == i {
                            assert(hint_kind(old_hints[i as int]) != hint_kind(old_hints[b]));
                        } else {
                            assert(hint_kind(old_hints[a]) != hint_kind(old_hints[i as int]));
                        }
                    }
                }
                assert(0 <= i < old(self).hints().len() && hint_kind(old(self).hints()[i as int]) == hint_kind(h));
                return None;
            }
            i = i + 1;
        }
        let e = h.copy();
        self.hints.push(h);
        Some(NodeEvent::NatHint(e))
    }

    /// The direct address we are connected to `peer` on, if any.
    pub fn direct_addr(&self, peer: &PeerId) -> (r: Option<Multiaddr>)
        ensures
            r is None <==> !has_direct(self.conns(), peer@),
            r matches Some(a) ==> exists|i: int| 0 <= i < self.conns().len() && self.conns()[i].peer@ == peer@
                && !self.conns()[i].relayed && self.conns()[i].addr@ == a@,
    {
        let mut i: usize = 0;
        while i < self.conns.len()
            invariant
                i <= self.conns@.len(),
                forall|j: int| 0 <= j < i ==> !(self.conns@[j].peer@ == peer@ && !self.conns@[j].relayed),
            decreases self.conns.len() - i,
        {
            if self.conns[i].peer.eq(peer) && !self.conns[i].relayed {
                let a = self.conns[i].addr.copy();
                assert(self.conns()[i as int].peer@ == peer@ && !self.conns()[i as int].relayed
                    && self.conns()[i as int].addr@ == a@);
                return Some(a);
            }
            i = i + 1;
        }
        None
    }

    /// The relays whose reservation was confirmed.
    pub fn confirmed_reservations(&self) -> (r: Vec<PeerId>)
        ensures
            peer_views(r@) == confirmed_relays(self.reservations()),
    {
        let mut r: Vec<PeerId> = Vec::new();
        let mut i: usize = 0;
        while i < self.reservations.len()
            invariant
                i <= self.reservations@.len(),
                peer_views(r@) == confirmed_relays(self.reservations@.take(i as int)),
            decreases self.reservations.len() - i,
        {
            proof {
                assert(self.reservations@.take(i + 1).drop_last() =~= self.reservations@.take(i as int));
            }
            if self.reservations[i].confirmed {
                r.push(self.reservations[i].relay.copy());
                proof {
                    assert(peer_views(r@) =~= peer_views(r@.drop_last()).push(r@.last()@));
                }
            }
            i = i + 1;
        }
        assert(self.reservations@.take(self.reservations@.len() as int) =~= self.reservations@);
        r
    }
}

} // verus!

verus! {

/// The command list answers request `reply` with a direct connection to
/// `peer` on `addr`.
pub open spec fn replies_ok(cmds: Seq<Command>, reply: u64, peer: Seq<u8>, addr: Seq<u8>) -> bool {
    exists|k: int| 0 <= k < cmds.len() && (#[trigger] cmds[k] matches Command::Reply { reply: r, result: Ok(c) }
        && r == reply && c.peer@ == peer && c.addr@ == addr)
}

/// Nothing is known yet of why a connection attempt might fail.
pub open spec fn no_failure_yet(f: ConnectFailure) -> bool {
    !f.found_in_dht && !f.relayed_connection && f.holepunch_error is None && f.dial_errors@.len() == 0
        && f.local_hints@.len() == 0 && !f.have_observed_addr
}

pub open spec fn pending_keys(ps: Seq<PendingConnect>) -> Seq<(u64, Seq<u8>)> {
    ps.map_values(|p: PendingConnect| (p.reply, p.peer@))
}

impl ControlState {
    /// Starts establishing a direct connection to `target` for request
    /// `reply`: answered at once if one exists; otherwise the ticket's
    /// addresses are dialled, the DHT is asked (ticket addresses may be
    /// stale), and the request waits until `now` plus the time limit.
    pub fn connect(&mut self, reply: u64, target: crate::ticket::Ticket, now: u64) -> (cmds: Vec<Command>)
        requires
            old(self).wf(),
            now <= u64::MAX - DIRECT_CONNECT_TIMEOUT_MS,
        ensures
            final(self).wf(),
            final(self).relay_candidates() == old(self).relay_candidates(),
            final(self).conns() == old(self).conns(),
            has_direct(old(self).conns(), target.peer@) ==> (final(self).pending() == old(self).pending()
                && cmds@.len() == 1 && (cmds@[0] matches Command::Reply { reply: r, result: Ok(c) }
                && (r == reply && c.peer@ == target.peer@ && !c.hole_punched
                && exists|i: int| 0 <= i < old(self).conns().len() && old(self).conns()[i].peer@ == target.peer@
                    && !old(self).conns()[i].relayed && old(self).conns()[i].addr@ == c.addr@))),
            !has_direct(old(self).conns(), target.peer@) ==> (final(self).pending().len() == old(self).pending().len() + 1
                && final(self).pending().drop_last() == old(self).pending()
                && final(self).pending().last().reply == reply
                && final(self).pending().last().peer@ == target.peer@
                && final(self).pending().last().deadline == now + DIRECT_CONNECT_TIMEOUT_MS
                && final(self).pending().last().lookup is None
                && no_failure_yet(final(self).pending().last().failure)
                && (exists|k: int| 0 <= k < cmds@.len() && (#[trigger] cmds@[k] matches Command::LookupProviders { reply: r, peer }
                    && r == reply && peer@ == target.peer@))
                && (target.addrs@.len() > 0 ==> exists|k: int| 0 <= k < cmds@.len() && (#[trigger] cmds@[k] matches Command::Dial { peer, addrs }
                    && peer@ == target.peer@ && addr_views(addrs@) == addr_views(target.addrs@)))),
    {
        let peer = target.peer;
        let mut cmds: Vec<Command> = Vec::new();
        match self.direct_addr(&peer) {
            Some(addr) => {
                let c = DirectConnection { peer, addr, hole_punched: false };
                cmds.push(Command::Reply { reply, result: Ok(c) });
                return cmds;
            },
            None => {},
        }
        let mut i: usize = 0;
        while i < target.addrs.len()
            invariant
                i <= target.addrs@.len(),
                cmds@.len() == i,
            decreases target.addrs.len() - i,
        {
            cmds.push(Command::AddPeerAddress { peer: peer.copy(), addr: target.addrs[i].copy() });
            i = i + 1;
        }
        let ghost d = cmds@.len();
        if target.addrs.len() > 0 {
            let addrs = copy_addrs(&target.addrs);
            cmds.push(Command::Dial { peer: peer.copy(), addrs });
        }
        let ghost with_dial = cmds@;
        cmds.push(Command::LookupProviders { reply, peer: peer.copy() });
        assert(cmds@[cmds@.len() - 1] matches Command::LookupProviders { reply: r, peer: p } && r == reply && p@ == peer@);
        proof {
            if target.addrs@.len() > 0 {
                assert(cmds@[d as int] == with_dial[d as int]);
                assert(cmds@[d as int] matches Command::Dial { peer: p, addrs: a } && p@ == peer@
                    && addr_views(a@) == addr_views(target.addrs@));
            }
        }
        self.pending.push(PendingConnect {
            reply,
            peer,
            deadline: now + DIRECT_CONNECT_TIMEOUT_MS,
            failure: ConnectFailure::empty(),
            lookup: None,
        });
        cmds
    }

    /// The runtime started the DHT lookup for request `reply` as query `query`.
    pub fn lookup_started(&mut self, reply: u64, query: u64)
        requires
            old(self).wf(),
        ensures
            final(self).wf(),
            final(self).relay_candidates() == old(self).relay_candidates(),
            final(self).conns() == old(self).conns(),
            pending_keys(final(self).pending()) == pending_keys(old(self).pending()),
            forall|i: int| 0 <= i < final(self).pending().len() ==> (#[trigger] final(self).pending()[i]).lookup == (if old(self).pending()[i].reply == reply {
                Some(query)
            } else {
                old(self).pending()[i].lookup
            }),
    {
        let mut old_pending: Vec<PendingConnect> = Vec::new();
        std::mem::swap(&mut old_pending, &mut self.pending);
        let ghost orig = old_pending@;
        let _n0 = old_pending.len();
        let mut k: usize = 0;
        while old_pending.len() > 0
            invariant
                self.relay_candidates@ == old(self).relay_candidates@,
                k + old_pending@.len() == orig.len(),
                orig.len() <= usize::MAX,
                old_pending@ == orig.skip(k as int),
                self.pending@.len() == k,
                self.hints@ == old(self).hints@,
                self.conns@ == old(self).conns@,
                pending_keys(self.pending@) == pending_keys(orig.take(k as int)),
                forall|i: int| 0 <= i < k ==> (#[trigger] self.pending@[i]).lookup == (if orig[i].reply == reply {
                    Some(query)
                } else {
                    orig[i].lookup
                }),
            decreases old_pending.len(),
        {
            let mut p = old_pending.remove(0);
            assert(p == orig[k as int]);
            if p.reply == reply {
                p.lookup = Some(query);
            }
            let ghost prev = self.pending@;
            let ghost pk = (p.reply, p.peer@);
            self.pending.push(p);
            proof {
                assert(orig.skip(k as int).drop_first() =~= orig.skip(k + 1));
                assert(orig.take(k + 1) =~= orig.take(k as int).push(orig[k as int]));
                assert(pending_keys(prev.push(p)) =~= pending_keys(prev).push(pk));
                assert(pending_keys(orig.take(k as int).push(orig[k as int])) =~= pending_keys(orig.take(k as int)).push(pk));
            }
            k = k + 1;
        }
        assert(orig.take(orig.len() as int) =~= orig);
    }
}

} // verus!

verus! {

pub open spec fn is_reply(c: Command) -> bool {
    c is Reply
}

impl ControlState {
    /// Forgets connection `id`.
    fn remove_conn(&mut self, id: u64)
        requires
            old(self).wf(),
        ensures
            final(self).wf(),
            final(self).relay_candidates() == old(self).relay_candidates(),
            final(self).conns() == old(self).conns().filter(|c: Conn| c.id != id),
            final(self).pending() == old(self).pending(),
            final(self).hints() == old(self).hints(),
            final(self).observed() == old(self).observed(),
            final(self).reservations() == old(self).reservations(),
    {
        let mut old_conns: Vec<Conn> = Vec::new();
        std::mem::swap(&mut old_conns, &mut self.conns);
        let ghost orig = old_conns@;
        let _n0 = old_conns.len();
        let mut k: usize = 0;
        while old_conns.len() > 0
            invariant
                self.relay_candidates@ == old(self).relay_candidates@,
                k + old_conns@.len() == orig.len(),
                orig.len() <= usize::MAX,
                old_conns@ == orig.skip(k as int),
                self.hints@ == old(self).hints@,
                self.pending@ == old(self).pending@,
                self.observed@ == old(self).observed@,
                self.reservations@ == old(self).reservations@,
                self.conns@ == orig.take(k as int).filter(|c: Conn| c.id != id),
            decreases old_conns.len(),
        {
            let c = old_conns.remove(0);
            assert(c == orig[k as int]);
            proof {
                assert(orig.skip(k as int).drop_first() =~= orig.skip(k + 1));
                assert(orig.take(k + 1).drop_last() =~= orig.take(k as int));
                reveal(Seq::filter);
            }
            if c.id != id {
                self.conns.push(c);
            }
            k = k + 1;
        }
        assert(orig.take(orig.len() as int) =~= orig);
    }

    /// A connection to `peer` on `addr` was established. A direct one answers
    /// every request for a direct connection to that peer; a relayed one only
    /// notes that the peer is online but not (yet) directly reachable.
    pub fn connection_established(&mut self, id: u64, peer: PeerId, addr: Multiaddr, relayed: bool) -> (cmds: Vec<Command>)
        requires
            old(self).wf(),
        ensures
            final(self).wf(),
            final(self).relay_candidates() == old(self).relay_candidates(),
            final(self).conns().len() > 0,
            final(self).conns().last().id == id && final(self).conns().last().peer@ == peer@
                && final(self).conns().last().addr@ == addr@ && final(self).conns().last().relayed == relayed,
            final(self).conns().drop_last() == old(self).conns().filter(|c: Conn| c.id != id),
            !relayed ==> final(self).pending() == old(self).pending().filter(|p: PendingConnect| p.peer@ != peer@),
            !relayed ==> forall|i: int| 0 <= i < old(self).pending().len() && (#[trigger] old(self).pending()[i]).peer@ == peer@
                ==> replies_ok(cmds@, old(self).pending()[i].reply, peer@, addr@),
            forall|k: int| 0 <= k < cmds@.len() && is_reply(#[trigger] cmds@[k]) ==> (cmds@[k] matches Command::Reply { result: Ok(c), .. }
                && (!relayed && c.peer@ == peer@ && c.addr@ == addr@ && c.hole_punched == final(self).holepunched().contains(peer@))),
            relayed ==> pending_keys(final(self).pending()) == pending_keys(old(self).pending()),
            relayed ==> forall|i: int| 0 <= i < final(self).pending().len() ==> (#[trigger] final(self).pending()[i]).failure.relayed_connection == (
                old(self).pending()[i].failure.relayed_connection || old(self).pending()[i].peer@ == peer@),
            // Each request answered is answered once, in order.
            reply_keys(cmds@) == (if relayed {
                Seq::<u64>::empty()
            } else {
                old(self).pending().filter(|p: PendingConnect| p.peer@ == peer@).map_values(|p: PendingConnect| p.reply)
            }),
    {
        self.remove_conn(id);
        let mut cmds: Vec<Command> = Vec::new();
        let first = Command::Emit(NodeEvent::ConnectionOpened { peer: peer.copy(), addr: addr.copy(), relayed });
        proof {
            lemma_reply_keys_push(Seq::empty(), first);
            assert(Seq::<Command>::empty().push(first) =~= seq![first]);
        }
        cmds.push(first);
        let ghost same_peer = |p: PendingConnect| p.peer@ == peer@;
        let ghost key = |p: PendingConnect| p.reply;
        let hole_punched = self.is_holepunched(&peer);
        let ghost conns_after = self.conns@;
        let mut old_pending: Vec<PendingConnect> = Vec::new();
        std::mem::swap(&mut old_pending, &mut self.pending);
        let ghost orig = old_pending@;
        let _n0 = old_pending.len();
        let mut k: usize = 0;
        while old_pending.len() > 0
            invariant
                self.relay_candidates@ == old(self).relay_candidates@,
                k + old_pending@.len() == orig.len(),
                orig.len() <= usize::MAX,
                old_pending@ == orig.skip(k as int),
                hint_kinds_distinct(self.hints@),
                self.conns@ == conns_after,
                hole_punched == self.holepunched@.map_values(|p: PeerId| p@).contains(peer@),
                !relayed ==> self.pending@ == orig.take(k as int).filter(|p: PendingConnect| p.peer@ != peer@),
                !relayed ==> forall|i: int| 0 <= i < k && (#[trigger] orig[i]).peer@ == peer@ ==> replies_ok(cmds@, orig[i].reply, peer@, addr@),
                forall|j: int| 0 <= j < cmds@.len() && is_reply(#[trigger] cmds@[j]) ==> (cmds@[j] matches Command::Reply { result: Ok(c), .. }
                    && (!relayed && c.peer@ == peer@ && c.addr@ == addr@ && c.hole_punched == hole_punched)),
                relayed ==> self.pending@.len() == k,
                relayed ==> pending_keys(self.pending@) == pending_keys(orig.take(k as int)),
                relayed ==> forall|i: int| 0 <= i < k ==> (#[trigger] self.pending@[i]).failure.relayed_connection == (
                    orig[i].failure.relayed_connection || orig[i].peer@ == peer@),
                same_peer == (|p: PendingConnect| p.peer@ == peer@),
                key == (|p: PendingConnect| p.reply),
                reply_keys(cmds@) == (if relayed { Seq::<u64>::empty() } else { orig.take(k as int).filter(same_peer).map_values(key) }),
            decreases old_pending.len(),
        {
            let mut p = old_pending.remove(0);
            assert(p == orig[k as int]);
            proof {
                assert(orig.skip(k as int).drop_first() =~= orig.skip(k + 1));
                assert(orig.take(k + 1).drop_last() =~= orig.take(k as int));
                assert(orig.take(k + 1) =~= orig.take(k as int).push(orig[k as int]));
                reveal(Seq::filter);
            }
            let same = p.peer.eq(&peer);
            if relayed {
                if same {
                    p.failure.relayed_connection = true;
                }
                let ghost prev = self.pending@;
                let ghost pk = (p.reply, p.peer@);
                self.pending.push(p);
                proof {
                    assert(pending_keys(prev.push(p)) =~= pending_keys(prev).push(pk));
                    assert(pending_keys(orig.take(k as int).push(orig[k as int])) =~= pending_keys(orig.take(k as int)).push(pk));
                }
            } else if same {
                let ghost cmds_before = cmds@;
                match p.lookup {
                    Some(q) => {
                        proof { lemma_reply_keys_push(cmds@, Command::FinishQuery(q)); }
                        cmds.push(Command::FinishQuery(q));
                    },
                    None => {},
                }
                let c = DirectConnection { peer: peer.copy(), addr: addr.copy(), hole_punched };
                let rc = Command::Reply { reply: p.reply, result: Ok(c) };
                proof {
                    lemma_reply_keys_push(cmds@, rc);
                    assert(orig.take(k as int).filter(same_peer).push(orig[k as int]).map_values(key)
                        =~= orig.take(k as int).filter(same_peer).map_values(key).push(orig[k as int].reply));
                }
                cmds.push(rc);
                proof {
                    let last = cmds@.len() - 1;
                    assert(cmds@[last] matches Command::Reply { reply: r, result: Ok(c2) } && r == orig[k as int].reply
                        && c2.peer@ == peer@ && c2.addr@ == addr@);
                    assert forall|i: int| 0 <= i < k + 1 && (#[trigger] orig[i]).peer@ == peer@ implies replies_ok(cmds@, orig[i].reply, peer@, addr@) by {
                        if i < k {
                            let w = choose|w: int| 0 <= w < cmds_before.len() && (#[trigger] cmds_before[w] matches Command::Reply { reply: r, result: Ok(c) }
                                && r == orig[i].reply && c.peer@ == peer@ && c.addr@ == addr@);
                            assert(cmds@[w] == cmds_before[w]);
                            assert(cmds@[w] matches Command::Reply { reply: r, result: Ok(c) }
                                && r == orig[i].reply && c.peer@ == peer@ && c.addr@ == addr@);
                        } else {
                            assert(cmds@[last] matches Command::Reply { reply: r, result: Ok(c) }
                                && r == orig[i].reply && c.peer@ == peer@ && c.addr@ == addr@);
                        }
                    }
                }
            } else {
                self.pending.push(p);
            }
            k = k + 1;
        }
        assert(orig.take(orig.len() as int) =~= orig);
        self.conns.push(Conn { id, peer, addr, relayed });
        cmds
    }

    fn is_holepunched(&self, peer: &PeerId) -> (r: bool)
        ensures
            r == self.holepunched().contains(peer@),
    {
        let mut i: usize = 0;
        while i < self.holepunched.len()
            invariant
                i <= self.holepunched@.len(),
                forall|j: int| 0 <= j < i ==> self.holepunched@[j]@ != peer@,
            decreases self.holepunched.len() - i,
        {
            if self.holepunched[i].eq(peer) {
                assert(self.holepunched()[i as int] == peer@);
                return true;
            }
            i = i + 1;
        }
        assert forall|j: int| 0 <= j < self.holepunched().len() implies self.holepunched()[j] != peer@ by {
            assert(self.holepunched()[j] == self.holepunched@[j]@);
        }
        false
    }
}

} // verus!

verus! {

/// The addresses of `v` other than `a`, in order.
fn without_addr(v: &Vec<Multiaddr>, a: &Multiaddr) -> (r: Vec<Multiaddr>)
    ensures
        addr_views(r@) == addr_views(v@).filter(|x: Seq<u8>| x != a@),
{
    let mut r: Vec<Multiaddr> = Vec::new();
    let mut i: usize = 0;
    while i < v.len()
        invariant
            i <= v@.len(),
            addr_views(r@) == addr_views(v@.take(i as int)).filter(|x: Seq<u8>| x != a@),
        decreases v.len() - i,
    {
        proof {
            assert(addr_views(v@.take(i + 1)).drop_last() =~= addr_views(v@.take(i as int)));
            assert(addr_views(v@.take(i + 1)).last() == v@[i as int]@);
            reveal(Seq::filter);
        }
        if !v[i].eq(a) {
            let ghost prev = r@;
            r.push(v[i].copy());
            assert(addr_views(r@) =~= addr_views(prev).push(v@[i as int]@));
        }
        i = i + 1;
    }
    assert(v@.take(v@.len() as int) =~= v@);
    r
}

/// The single command `Emit(e)`.
fn emit(e: NodeEvent) -> (cmds: Vec<Command>)
    ensures
        cmds@ == seq![Command::Emit(e)],
{
    let mut cmds: Vec<Command> = Vec::new();
    cmds.push(Command::Emit(e));
    cmds
}

impl ControlState {
    /// Connection `id` to `peer` was closed.
    pub fn connection_closed(&mut self, id: u64, peer: PeerId, relayed: bool) -> (cmds: Vec<Command>)
        requires
            old(self).wf(),
        ensures
            final(self).wf(),
            final(self).relay_candidates() == old(self).relay_candidates(),
            final(self).conns() == old(self).conns().filter(|c: Conn| c.id != id),
            final(self).pending() == old(self).pending(),
            final(self).reservations() == old(self).reservations(),
            cmds@.len() == 1,
            cmds@[0] matches Command::Emit(NodeEvent::ConnectionClosed { peer: p, relayed: r }) && p@ == peer@ && r == relayed,
    {
        self.remove_conn(id);
        emit(NodeEvent::ConnectionClosed { peer, relayed })
    }

    /// The runtime began listening on `addr`. Relay circuits are not listen
    /// addresses of ours.
    pub fn new_listen_addr(&mut self, addr: Multiaddr) -> (cmds: Vec<Command>)
        requires
            old(self).wf(),
        ensures
            final(self).wf(),
            final(self).relay_candidates() == old(self).relay_candidates(),
            final(self).conns() == old(self).conns(),
            final(self).pending() == old(self).pending(),
            final(self).reservations() == old(self).reservations(),
            spec_is_relayed(parts(addr@)) ==> (final(self).listen_addrs() == old(self).listen_addrs() && cmds@.len() == 0),
            !spec_is_relayed(parts(addr@)) ==> (final(self).listen_addrs() == old(self).listen_addrs().push(addr@)
                && cmds@.len() == 1 && (cmds@[0] matches Command::Emit(NodeEvent::Listening(a)) && a@ == addr@)),
    {
        if is_relayed(&addr) {
            return Vec::new();
        }
        let e = addr.copy();
        let ghost before = self.listen_addrs@;
        self.listen_addrs.push(addr);
        assert(addr_views(self.listen_addrs@) =~= addr_views(before).push(e@));
        emit(NodeEvent::Listening(e))
    }

    /// The runtime stopped listening on `addr`.
    pub fn expired_listen_addr(&mut self, addr: &Multiaddr)
        requires
            old(self).wf(),
        ensures
            final(self).wf(),
            final(self).relay_candidates() == old(self).relay_candidates(),
            final(self).conns() == old(self).conns(),
            final(self).pending() == old(self).pending(),
            final(self).reservations() == old(self).reservations(),
            final(self).listen_addrs() == old(self).listen_addrs().filter(|x: Seq<u8>| x != addr@),
    {
        let v = without_addr(&self.listen_addrs, addr);
        self.listen_addrs = v;
    }

    /// An address of ours was confirmed as reachable from outside; a new one
    /// calls for a new announcement.
    pub fn external_addr_confirmed(&mut self, addr: Multiaddr)
        requires
            old(self).wf(),
        ensures
            final(self).wf(),
            final(self).relay_candidates() == old(self).relay_candidates(),
            final(self).conns() == old(self).conns(),
            final(self).pending() == old(self).pending(),
            final(self).reservations() == old(self).reservations(),
            old(self).external_addrs().contains(addr@) ==> (final(self).external_addrs() == old(self).external_addrs()
                && final(self).announce_due() == old(self).announce_due()),
            !old(self).external_addrs().contains(addr@) ==> (final(self).external_addrs() == old(self).external_addrs().push(addr@)
                && final(self).announce_due()),
    {
        if !contains_addr(&self.external_addrs, &addr) {
            let ghost before = self.external_addrs@;
            let ghost av = addr@;
            self.external_addrs.push(addr);
            assert(addr_views(self.external_addrs@) =~= addr_views(before).push(av));
            self.announce_due = true;
        }
    }

    /// An external address of ours expired.
    pub fn external_addr_expired(&mut self, addr: &Multiaddr)
        requires
            old(self).wf(),
        ensures
            final(self).wf(),
            final(self).relay_candidates() == old(self).relay_candidates(),
            final(self).conns() == old(self).conns(),
            final(self).pending() == old(self).pending(),
            final(self).reservations() == old(self).reservations(),
            final(self).external_addrs() == old(self).external_addrs().filter(|x: Seq<u8>| x != addr@),
            final(self).announce_due(),
    {
        let v = without_addr(&self.external_addrs, addr);
        self.external_addrs = v;
        self.announce_due = true;
    }
}

} // verus!

verus! {

/// Two records of the same request: only what was learnt about its failure
/// may differ.
pub open spec fn same_request(a: PendingConnect, b: PendingConnect) -> bool {
    a.reply == b.reply && a.peer@ == b.peer@ && a.deadline == b.deadline && a.lookup == b.lookup
}

impl ControlState {
    /// Dialling `peer` failed with `error`: every request for that peer
    /// records it.
    pub fn outgoing_connection_error(&mut self, peer: &PeerId, error: String)
        requires
            old(self).wf(),
        ensures
            final(self).wf(),
            final(self).relay_candidates() == old(self).relay_candidates(),
            final(self).conns() == old(self).conns(),
            final(self).reservations() == old(self).reservations(),
            final(self).pending().len() == old(self).pending().len(),
            forall|i: int| 0 <= i < final(self).pending().len() ==> {
                let (n, o) = (#[trigger] final(self).pending()[i], old(self).pending()[i]);
                &&& same_request(n, o)
                &&& n.failure.found_in_dht == o.failure.found_in_dht
                &&& n.failure.relayed_connection == o.failure.relayed_connection
                &&& n.failure.holepunch_error == o.failure.holepunch_error
                &&& n.failure.dial_errors@ == (if o.peer@ == peer@ { o.failure.dial_errors@.push(error) } else { o.failure.dial_errors@ })
            },
    {
        let mut old_pending: Vec<PendingConnect> = Vec::new();
        std::mem::swap(&mut old_pending, &mut self.pending);
        let ghost orig = old_pending@;
        let _n0 = old_pending.len();
        let mut k: usize = 0;
        while old_pending.len() > 0
            invariant
                self.relay_candidates@ == old(self).relay_candidates@,
                k + old_pending@.len() == orig.len(),
                orig.len() <= usize::MAX,
                old_pending@ == orig.skip(k as int),
                orig == old(self).pending@,
                self.pending@.len() == k,
                self.hints@ == old(self).hints@,
                self.conns@ == old(self).conns@,
                self.reservations@ == old(self).reservations@,
                forall|i: int| 0 <= i < k ==> {
                    let (n, o) = (#[trigger] self.pending@[i], orig[i]);
                    &&& same_request(n, o)
                    &&& n.failure.found_in_dht == o.failure.found_in_dht
                    &&& n.failure.relayed_connection == o.failure.relayed_connection
                    &&& n.failure.holepunch_error == o.failure.holepunch_error
                    &&& n.failure.dial_errors@ == (if o.peer@ == peer@ { o.failure.dial_errors@.push(error) } else { o.failure.dial_errors@ })
                },
            decreases old_pending.len(),
        {
            let mut p = old_pending.remove(0);
            assert(p == orig[k as int]);
            proof {
                assert(orig.skip(k as int).drop_first() =~= orig.skip(k + 1));
            }
            if p.peer.eq(peer) {
                p.failure.dial_errors.push(error.clone());
            }
            self.pending.push(p);
            k = k + 1;
        }
    }

    /// A hole punch with `peer` ended: a success marks the peer, so that the
    /// direct connection that follows is reported as hole punched; a failure
    /// is recorded in the peer's requests.
    pub fn hole_punch(&mut self, peer: &PeerId, result: Result<(), String>) -> (cmds: Vec<Command>)
        requires
            old(self).wf(),
        ensures
            final(self).wf(),
            final(self).relay_candidates() == old(self).relay_candidates(),
            final(self).conns() == old(self).conns(),
            final(self).reservations() == old(self).reservations(),
            cmds@.len() == 1,
            cmds@[0] matches Command::Emit(NodeEvent::HolePunch { peer: p, result: r }) && p@ == peer@ && r == result,
            result is Ok ==> final(self).pending() == old(self).pending(),
            result is Ok ==> final(self).holepunched().contains(peer@),
            result is Ok ==> final(self).holepunched() == (if old(self).holepunched().contains(peer@) {
                old(self).holepunched()
            } else {
                old(self).holepunched().push(peer@)
            }),
            result matches Err(e) ==> final(self).holepunched() == old(self).holepunched(),
            result matches Err(e) ==> final(self).pending().len() == old(self).pending().len(),
            result matches Err(e) ==> forall|i: int| 0 <= i < final(self).pending().len() ==> {
                let (n, o) = (#[trigger] final(self).pending()[i], old(self).pending()[i]);
                &&& same_request(n, o)
                &&& n.failure.found_in_dht == o.failure.found_in_dht
                &&& n.failure.relayed_connection == o.failure.relayed_connection
                &&& n.failure.dial_errors@ == o.failure.dial_errors@
                &&& n.failure.holepunch_error == (if o.peer@ == peer@ { Some(e) } else { o.failure.holepunch_error })
            },
    {
        match &result {
            Ok(_) => {
                if !self.is_holepunched(peer) {
                    let ghost before = self.holepunched@;
                    self.holepunched.push(peer.copy());
                    assert(self.holepunched@.map_values(|p: PeerId| p@) =~= before.map_values(|p: PeerId| p@).push(peer@));
                    assert(self.holepunched()[self.holepunched().len() - 1] == peer@);
                }
                assert(self.holepunched().contains(peer@));
            },
            Err(e) => {
                let mut old_pending: Vec<PendingConnect> = Vec::new();
                std::mem::swap(&mut old_pending, &mut self.pending);
                let ghost orig = old_pending@;
                let _n0 = old_pending.len();
                let mut k: usize = 0;
                while old_pending.len() > 0
                    invariant
                        self.relay_candidates@ == old(self).relay_candidates@,
                        k + old_pending@.len() == orig.len(),
                        orig.len() <= usize::MAX,
                        old_pending@ == orig.skip(k as int),
                        orig == old(self).pending@,
                        self.pending@.len() == k,
                        self.hints@ == old(self).hints@,
                        self.conns@ == old(self).conns@,
                        self.reservations@ == old(self).reservations@,
                        self.holepunched@ == old(self).holepunched@,
                        forall|i: int| 0 <= i < k ==> {
                            let (n, o) = (#[trigger] self.pending@[i], orig[i]);
                            &&& same_request(n, o)
                            &&& n.failure.found_in_dht == o.failure.found_in_dht
                            &&& n.failure.relayed_connection == o.failure.relayed_connection
                            &&& n.failure.dial_errors@ == o.failure.dial_errors@
                            &&& n.failure.holepunch_error == (if o.peer@ == peer@ { Some(*e) } else { o.failure.holepunch_error })
                        },
                    decreases old_pending.len(),
                {
                    let mut p = old_pending.remove(0);
                    assert(p == orig[k as int]);
                    proof {
                        assert(orig.skip(k as int).drop_first() =~= orig.skip(k + 1));
                    }
                    if p.peer.eq(peer) {
                        p.failure.holepunch_error = Some(e.clone());
                    }
                    self.pending.push(p);
                    k = k + 1;
                }
            },
        }
        emit(NodeEvent::HolePunch { peer: peer.copy(), result })
    }

    /// The DHT lookup `query` found `providers`: requests waiting on that
    /// lookup whose peer is among them learn that it was found, and the peer
    /// is dialled on the addresses the DHT handed over.
    pub fn providers_found(&mut self, query: u64, providers: &Vec<PeerId>) -> (cmds: Vec<Command>)
        requires
            old(self).wf(),
        ensures
            final(self).wf(),
            final(self).relay_candidates() == old(self).relay_candidates(),
            final(self).conns() == old(self).conns(),
            final(self).reservations() == old(self).reservations(),
            final(self).pending().len() == old(self).pending().len(),
            forall|i: int| 0 <= i < final(self).pending().len() ==> {
                let (n, o) = (#[trigger] final(self).pending()[i], old(self).pending()[i]);
                &&& same_request(n, o)
                &&& n.failure.relayed_connection == o.failure.relayed_connection
                &&& n.failure.dial_errors@ == o.failure.dial_errors@
                &&& n.failure.holepunch_error == o.failure.holepunch_error
                &&& n.failure.found_in_dht == (o.failure.found_in_dht || (o.lookup == Some(query) && peer_views(providers@).contains(o.peer@)))
            },
            cmds@.len() == old(self).pending().filter(|p: PendingConnect| p.lookup == Some(query) && peer_views(providers@).contains(p.peer@)).len(),
            forall|j: int| 0 <= j < cmds@.len() ==> (#[trigger] cmds@[j] matches Command::DialIfIdle { peer }
                && peer@ == old(self).pending().filter(|p: PendingConnect| p.lookup == Some(query) && peer_views(providers@).contains(p.peer@))[j].peer@),
    {
        let ghost found = |p: PendingConnect| p.lookup == Some(query) && peer_views(providers@).contains(p.peer@);
        let mut cmds: Vec<Command> = Vec::new();
        let mut old_pending: Vec<PendingConnect> = Vec::new();
        std::mem::swap(&mut old_pending, &mut self.pending);
        let ghost orig = old_pending@;
        let _n0 = old_pending.len();
        let mut k: usize = 0;
        while old_pending.len() > 0
            invariant
                self.relay_candidates@ == old(self).relay_candidates@,
                k + old_pending@.len() == orig.len(),
                orig.len() <= usize::MAX,
                old_pending@ == orig.skip(k as int),
                orig == old(self).pending@,
                self.pending@.len() == k,
                self.hints@ == old(self).hints@,
                self.conns@ == old(self).conns@,
                self.reservations@ == old(self).reservations@,
                found == (|p: PendingConnect| p.lookup == Some(query) && peer_views(providers@).contains(p.peer@)),
                forall|i: int| 0 <= i < k ==> {
                    let (n, o) = (#[trigger] self.pending@[i], orig[i]);
                    &&& same_request(n, o)
                    &&& n.failure.relayed_connection == o.failure.relayed_connection
                    &&& n.failure.dial_errors@ == o.failure.dial_errors@
                    &&& n.failure.holepunch_error == o.failure.holepunch_error
                    &&& n.failure.found_in_dht == (o.failure.found_in_dht || found(o))
                },
                cmds@.len() == orig.take(k as int).filter(found).len(),
                forall|j: int| 0 <= j < cmds@.len() ==> (#[trigger] cmds@[j] matches Command::DialIfIdle { peer }
                    && peer@ == orig.take(k as int).filter(found)[j].peer@),
            decreases old_pending.len(),
        {
            let mut p = old_pending.remove(0);
            assert(p == orig[k as int]);
            proof {
                assert(orig.skip(k as int).drop_first() =~= orig.skip(k + 1));
                assert(orig.take(k + 1).drop_last() =~= orig.take(k as int));
                reveal(Seq::filter);
            }
            let waiting = match p.lookup {
                Some(q) => q == query,
                None => false,
            };
            if waiting && contains_peer(providers, &p.peer) {
                p.failure.found_in_dht = true;
                cmds.push(Command::DialIfIdle { peer: p.peer.copy() });
            }
            self.pending.push(p);
            k = k + 1;
        }
        assert(orig.take(orig.len() as int) =~= orig);
        cmds
    }
}

/// Whether `peer` is among `v`.
pub fn contains_peer(v: &Vec<PeerId>, peer: &PeerId) -> (r: bool)
    ensures
        r == peer_views(v@).contains(peer@),
{
    let mut i: usize = 0;
    while i < v.len()
        invariant
            i <= v@.len(),
            forall|j: int| 0 <= j < i ==> v@[j]@ != peer@,
        decreases v.len() - i,
    {
        if v[i].eq(peer) {
            assert(peer_views(v@)[i as int] == peer@);
            return true;
        }
        i = i + 1;
    }
    assert forall|j: int| 0 <= j < peer_views(v@).len() implies peer_views(v@)[j] != peer@ by {
        assert(peer_views(v@)[j] == v@[j]@);
    }
    false
}

} // verus!

verus! {

pub open spec fn listeners(rs: Seq<Reservation>) -> Seq<(u64, Seq<u8>)> {
    rs.map_values(|r: Reservation| (r.listener, r.relay@))
}

impl ControlState {
    /// The runtime asked `relay` for a reservation on listener `listener`.
    pub fn reservation_requested(&mut self, listener: u64, relay: PeerId)
        requires
            old(self).wf(),
        ensures
            final(self).wf(),
            final(self).relay_candidates() == old(self).relay_candidates(),
            final(self).conns() == old(self).conns(),
            final(self).pending() == old(self).pending(),
            final(self).reservations().drop_last() == old(self).reservations().filter(|r: Reservation| r.listener != listener),
            final(self).reservations().len() > 0,
            final(self).reservations().last().listener == listener,
            final(self).reservations().last().relay@ == relay@,
            !final(self).reservations().last().confirmed,
    {
        let mut old_res: Vec<Reservation> = Vec::new();
        std::mem::swap(&mut old_res, &mut self.reservations);
        let ghost orig = old_res@;
        let _n0 = old_res.len();
        let mut kept: Vec<Reservation> = Vec::new();
        let mut k: usize = 0;
        while old_res.len() > 0
            invariant
                k + old_res@.len() == orig.len(),
                orig.len() <= usize::MAX,
                old_res@ == orig.skip(k as int),
                orig == old(self).reservations@,
                self.hints@ == old(self).hints@,
                self.conns@ == old(self).conns@,
                self.pending@ == old(self).pending@,
                kept@ == orig.take(k as int).filter(|r: Reservation| r.listener != listener),
            decreases old_res.len(),
        {
            let r = old_res.remove(0);
            assert(r == orig[k as int]);
            proof {
                assert(orig.skip(k as int).drop_first() =~= orig.skip(k + 1));
                assert(orig.take(k + 1).drop_last() =~= orig.take(k as int));
                reveal(Seq::filter);
            }
            if r.listener != listener {
                kept.push(r);
            }
            k = k + 1;
        }
        assert(orig.take(orig.len() as int) =~= orig);
        kept.push(Reservation { listener, relay, confirmed: false });
        self.reservations = kept;
    }

    /// `relay` accepted (or renewed) our reservation. A first acceptance
    /// makes us reachable through it, which calls for a new announcement.
    pub fn reservation_accepted(&mut self, relay: &PeerId, renewal: bool) -> (cmds: Vec<Command>)
        requires
            old(self).wf(),
        ensures
            final(self).wf(),
            final(self).relay_candidates() == old(self).relay_candidates(),
            final(self).conns() == old(self).conns(),
            final(self).pending() == old(self).pending(),
            final(self).reservations().len() == old(self).reservations().len(),
            forall|i: int| 0 <= i < final(self).reservations().len() ==> {
                let (n, o) = (#[trigger] final(self).reservations()[i], old(self).reservations()[i]);
                &&& n.listener == o.listener
                &&& n.relay == o.relay
                &&& n.confirmed == (o.confirmed || o.relay@ == relay@)
            },
            renewal ==> cmds@.len() == 0 && final(self).announce_due() == old(self).announce_due(),
            !renewal ==> final(self).announce_due() && cmds@.len() == 1
                && (cmds@[0] matches Command::Emit(NodeEvent::ReservationAccepted { relay: r }) && r@ == relay@),
    {
        let mut old_res: Vec<Reservation> = Vec::new();
        std::mem::swap(&mut old_res, &mut self.reservations);
        let ghost orig = old_res@;
        let _n0 = old_res.len();
        let mut k: usize = 0;
        while old_res.len() > 0
            invariant
                self.relay_candidates@ == old(self).relay_candidates@,
                k + old_res@.len() == orig.len(),
                orig.len() <= usize::MAX,
                old_res@ == orig.skip(k as int),
                orig == old(self).reservations@,
                self.hints@ == old(self).hints@,
                self.conns@ == old(self).conns@,
                self.pending@ == old(self).pending@,
                self.announce_due == old(self).announce_due,
                self.reservations@.len() == k,
                forall|i: int| 0 <= i < k ==> {
                    let (n, o) = (#[trigger] self.reservations@[i], orig[i]);
                    &&& n.listener == o.listener
                    &&& n.relay == o.relay
                    &&& n.confirmed == (o.confirmed || o.relay@ == relay@)
                },
            decreases old_res.len(),
        {
            let mut r = old_res.remove(0);
            assert(r == orig[k as int]);
            proof {
                assert(orig.skip(k as int).drop_first() =~= orig.skip(k + 1));
            }
            if r.relay.eq(relay) {
                r.confirmed = true;
            }
            self.reservations.push(r);
            k = k + 1;
        }
        if renewal {
            Vec::new()
        } else {
            self.announce_due = true;
            emit(NodeEvent::ReservationAccepted { relay: relay.copy() })
        }
    }

    /// Listener `listener` closed. If it held a reservation, the reservation
    /// is lost and our addresses changed, which calls for a new announcement.
    pub fn listener_closed(&mut self, listener: u64) -> (cmds: Vec<Command>)
        requires
            old(self).wf(),
        ensures
            final(self).wf(),
            final(self).relay_candidates() == old(self).relay_candidates(),
            final(self).conns() == old(self).conns(),
            final(self).pending() == old(self).pending(),
            final(self).reservations() == old(self).reservations().filter(|r: Reservation| r.listener != listener),
            (forall|i: int| 0 <= i < old(self).reservations().len() ==> (#[trigger] old(self).reservations()[i]).listener != listener)
                ==> cmds@.len() == 0 && final(self).announce_due() == old(self).announce_due(),
            (exists|i: int| 0 <= i < old(self).reservations().len() && (#[trigger] old(self).reservations()[i]).listener == listener)
                ==> final(self).announce_due() && cmds@.len() == 1
                && (cmds@[0] matches Command::Emit(NodeEvent::ReservationLost { relay: r })
                && exists|i: int| 0 <= i < old(self).reservations().len() && (#[trigger] old(self).reservations()[i]).listener == listener
                    && old(self).reservations()[i].relay@ == r@),
    {
        let mut old_res: Vec<Reservation> = Vec::new();
        std::mem::swap(&mut old_res, &mut self.reservations);
        let ghost orig = old_res@;
        let _n0 = old_res.len();
        let mut lost: Option<PeerId> = None;
        let mut k: usize = 0;
        while old_res.len() > 0
            invariant
                self.relay_candidates@ == old(self).relay_candidates@,
                k + old_res@.len() == orig.len(),
                orig.len() <= usize::MAX,
                old_res@ == orig.skip(k as int),
                orig == old(self).reservations@,
                self.hints@ == old(self).hints@,
                self.conns@ == old(self).conns@,
                self.pending@ == old(self).pending@,
                self.announce_due == old(self).announce_due,
                self.reservations@ == orig.take(k as int).filter(|r: Reservation| r.listener != listener),
                lost is None <==> (forall|i: int| 0 <= i < k ==> (#[trigger] orig[i]).listener != listener),
                lost matches Some(p) ==> exists|i: int| 0 <= i < k && (#[trigger] orig[i]).listener == listener && orig[i].relay@ == p@,
            decreases old_res.len(),
        {
            let r = old_res.remove(0);
            assert(r == orig[k as int]);
            proof {
                assert(orig.skip(k as int).drop_first() =~= orig.skip(k + 1));
                assert(orig.take(k + 1).drop_last() =~= orig.take(k as int));
                reveal(Seq::filter);
            }
            if r.listener != listener {
                self.reservations.push(r);
            } else if lost.is_none() {
                lost = Some(r.relay);
            }
            k = k + 1;
        }
        assert(orig.take(orig.len() as int) =~= orig);
        match lost {
            Some(relay) => {
                proof {
                    let i = choose|i: int| 0 <= i < k && (#[trigger] orig[i]).listener == listener && orig[i].relay@ == relay@;
                    assert(old(self).reservations()[i].listener == listener);
                }
                self.announce_due = true;
                emit(NodeEvent::ReservationLost { relay })
            },
            None => Vec::new(),
        }
    }

    /// The runtime started announcing us as query `query` at `now`.
    pub fn announce_started(&mut self, query: u64, now: u64)
        requires
            old(self).wf(),
        ensures
            final(self).wf(),
            final(self).relay_candidates() == old(self).relay_candidates(),
            final(self).conns() == old(self).conns(),
            final(self).pending() == old(self).pending(),
            final(self).reservations() == old(self).reservations(),
            final(self).announce_query() == Some(query),
            !final(self).announce_due(),
            final(self).last_announce() == Some(now),
    {
        self.announce_query = Some(query);
        self.announce_due = false;
        self.last_announce = Some(now);
    }

    /// The announcement `query` ended. A failed one is tried again.
    pub fn providing_done(&mut self, query: u64, result: Result<(), String>) -> (cmds: Vec<Command>)
        requires
            old(self).wf(),
        ensures
            final(self).wf(),
            final(self).relay_candidates() == old(self).relay_candidates(),
            final(self).conns() == old(self).conns(),
            final(self).pending() == old(self).pending(),
            final(self).reservations() == old(self).reservations(),
            old(self).announce_query() != Some(query) ==> cmds@.len() == 0
                && final(self).announce_query() == old(self).announce_query()
                && final(self).announce_due() == old(self).announce_due(),
            old(self).announce_query() == Some(query) ==> final(self).announce_query() is None && cmds@.len() == 1,
            old(self).announce_query() == Some(query) && result is Ok ==> (cmds@[0] matches Command::Emit(NodeEvent::Announced))
                && final(self).announce_due() == old(self).announce_due(),
            old(self).announce_query() == Some(query) && result is Err ==> final(self).announce_due()
                && (cmds@[0] matches Command::Emit(NodeEvent::AnnounceFailed(e)) && result == Err::<(), String>(e)),
    {
        let ours = match self.announce_query {
            Some(q) => q == query,
            None => false,
        };
        if !ours {
            return Vec::new();
        }
        self.announce_query = None;
        match result {
            Ok(()) => emit(NodeEvent::Announced),
            Err(e) => {
                self.announce_due = true;
                emit(NodeEvent::AnnounceFailed(e))
            },
        }
    }

    /// Peers found on the local network: remember their addresses and tell
    /// the user.
    pub fn mdns_discovered(&self, found: Vec<(PeerId, Multiaddr)>) -> (cmds: Vec<Command>)
        ensures
            cmds@.len() == 2 * found@.len(),
            forall|i: int| 0 <= i < found@.len() ==> (#[trigger] cmds@[2 * i] matches Command::AddPeerAddress { peer, addr }
                && peer@ == found@[i].0@ && addr@ == found@[i].1@),
            forall|i: int| 0 <= i < found@.len() ==> (#[trigger] cmds@[2 * i + 1] matches Command::Emit(NodeEvent::LanPeer { peer, addr })
                && peer@ == found@[i].0@ && addr@ == found@[i].1@),
    {
        let mut cmds: Vec<Command> = Vec::new();
        let mut i: usize = 0;
        while i < found.len()
            invariant
                i <= found@.len(),
                cmds@.len() == 2 * i,
                forall|j: int| 0 <= j < i ==> (#[trigger] cmds@[2 * j] matches Command::AddPeerAddress { peer, addr }
                    && peer@ == found@[j].0@ && addr@ == found@[j].1@),
                forall|j: int| 0 <= j < i ==> (#[trigger] cmds@[2 * j + 1] matches Command::Emit(NodeEvent::LanPeer { peer, addr })
                    && peer@ == found@[j].0@ && addr@ == found@[j].1@),
            decreases found.len() - i,
        {
            let (p, a) = &found[i];
            cmds.push(Command::AddPeerAddress { peer: p.copy(), addr: a.copy() });
            cmds.push(Command::Emit(NodeEvent::LanPeer { peer: p.copy(), addr: a.copy() }));
            i = i + 1;
        }
        cmds
    }
}

} // verus!

verus! {

/// The requests answered by a command list, in order.
pub open spec fn reply_keys(cmds: Seq<Command>) -> Seq<u64>
    decreases cmds.len(),
{
    if cmds.len() == 0 {
        Seq::empty()
    } else {
        let rest = reply_keys(cmds.drop_last());
        match cmds.last() {
            Command::Reply { reply, .. } => rest.push(reply),
            _ => rest,
        }
    }
}

proof fn lemma_reply_keys_push(cmds: Seq<Command>, c: Command)
    ensures
        reply_keys(cmds.push(c)) == (match c {
            Command::Reply { reply, .. } => reply_keys(cmds).push(reply),
            _ => reply_keys(cmds),
        }),
{
    assert(cmds.push(c).drop_last() =~= cmds);
}

/// `c` answers request `p` with what was learnt while trying to reach its
/// peer, completed with whether an address of ours is known (`observed`) and
/// with our NAT hints.
pub open spec fn answers_with_failure(c: Command, p: PendingConnect, observed: bool, hints: Seq<NatHint>) -> bool {
    c matches Command::Reply { reply, result: Err(f) } && reply == p.reply
        && f.found_in_dht == p.failure.found_in_dht
        && f.relayed_connection == p.failure.relayed_connection
        && f.holepunch_error == p.failure.holepunch_error
        && f.dial_errors@ == p.failure.dial_errors@
        && f.have_observed_addr == observed
        && same_hints(f.local_hints@, hints)
}

/// Two hint lists that say the same.
pub open spec fn same_hints(a: Seq<NatHint>, b: Seq<NatHint>) -> bool {
    a.len() == b.len() && forall|i: int| 0 <= i < a.len() ==> same_hint(#[trigger] a[i], b[i])
}

/// `p` holds a reservation, asked for or confirmed.
pub open spec fn busy(rs: Seq<Reservation>, p: Seq<u8>) -> bool {
    exists|i: int| 0 <= i < rs.len() && (#[trigger] rs[i]).relay@ == p
}

/// `p` was asked recently and is not to be asked again before a later time.
pub open spec fn backed_off(bs: Seq<Backoff>, p: Seq<u8>, now: u64) -> bool {
    exists|i: int| 0 <= i < bs.len() && (#[trigger] bs[i]).relay@ == p && bs[i].until > now
}

/// A relay we may ask for a reservation now.
pub open spec fn eligible(rs: Seq<Reservation>, bs: Seq<Backoff>, c: RelayCandidate, now: u64) -> bool {
    !busy(rs, c.relay@) && !backed_off(bs, c.relay@, now)
}

/// An announcement is called for: our addresses changed, or the last one is
/// old.
pub open spec fn announce_wanted(due: bool, last: Option<u64>, now: u64) -> bool {
    due || (last matches Some(t) && t <= now && now - t >= REPROVIDE_INTERVAL_MS)
}

pub fn copy_hints(v: &Vec<NatHint>) -> (r: Vec<NatHint>)
    ensures
        same_hints(r@, v@),
{
    let mut r: Vec<NatHint> = Vec::new();
    let mut i: usize = 0;
    while i < v.len()
        invariant
            i <= v@.len(),
            r@.len() == i,
            forall|j: int| 0 <= j < i ==> same_hint(#[trigger] r@[j], v@[j]),
        decreases v.len() - i,
    {
        r.push(v[i].copy());
        i = i + 1;
    }
    r
}

impl ControlState {
    /// Answers every request whose time is up with what was learnt while
    /// trying, and forgets it.
    fn expire(&mut self, now: u64) -> (cmds: Vec<Command>)
        requires
            old(self).wf(),
        ensures
            final(self).wf(),
            final(self).conns() == old(self).conns(),
            final(self).reservations() == old(self).reservations(),
            final(self).relay_candidates() == old(self).relay_candidates(),
            final(self).relay_backoff() == old(self).relay_backoff(),
            final(self).announce_due() == old(self).announce_due(),
            final(self).announce_query() == old(self).announce_query(),
            final(self).last_announce() == old(self).last_announce(),
            final(self).is_reachable() == old(self).is_reachable(),
            final(self).me() == old(self).me(),
            final(self).hints() == old(self).hints(),
            final(self).observed() == old(self).observed(),
            final(self).external_addrs() == old(self).external_addrs(),
            final(self).pending() == old(self).pending().filter(|p: PendingConnect| p.deadline > now),
            reply_keys(cmds@) == old(self).pending().filter(|p: PendingConnect| p.deadline <= now).map_values(|p: PendingConnect| p.reply),
            forall|k: int| 0 <= k < cmds@.len() ==> (#[trigger] cmds@[k] is Reply || cmds@[k] is FinishQuery),
            forall|k: int| 0 <= k < cmds@.len() && (#[trigger] cmds@[k] is Reply) ==> (cmds@[k] matches Command::Reply { result: Err(f), .. }
                && (f.have_observed_addr == (old(self).observed().len() > 0 || old(self).external_addrs().len() > 0)
                && same_hints(f.local_hints@, old(self).hints()))),
            forall|j: int| 0 <= j < old(self).pending().len() && (#[trigger] old(self).pending()[j]).deadline <= now
                ==> exists|k: int| 0 <= k < cmds@.len() && answers_with_failure(#[trigger] cmds@[k], old(self).pending()[j],
                    old(self).observed().len() > 0 || old(self).external_addrs().len() > 0, old(self).hints()),
    {
        let ghost expired = |p: PendingConnect| p.deadline <= now;
        let ghost alive = |p: PendingConnect| p.deadline > now;
        let ghost key = |p: PendingConnect| p.reply;
        let observed = self.observed.len() > 0 || self.external_addrs.len() > 0;
        let mut cmds: Vec<Command> = Vec::new();
        let mut old_pending: Vec<PendingConnect> = Vec::new();
        std::mem::swap(&mut old_pending, &mut self.pending);
        let ghost orig = old_pending@;
        let _n0 = old_pending.len();
        let mut k: usize = 0;
        while old_pending.len() > 0
            invariant
                k + old_pending@.len() == orig.len(),
                orig.len() <= usize::MAX,
                old_pending@ == orig.skip(k as int),
                orig == old(self).pending@,
                self.hints@ == old(self).hints@,
                self.conns@ == old(self).conns@,
                self.reservations@ == old(self).reservations@,
                self.relay_candidates@ == old(self).relay_candidates@,
                self.relay_backoff@ == old(self).relay_backoff@,
                self.observed@ == old(self).observed@,
                self.external_addrs@ == old(self).external_addrs@,
                self.announce_due == old(self).announce_due,
                self.announce_query == old(self).announce_query,
                self.last_announce == old(self).last_announce,
                self.reachable == old(self).reachable,
                self.me == old(self).me,
                observed == (old(self).observed@.len() > 0 || old(self).external_addrs@.len() > 0),
                expired == (|p: PendingConnect| p.deadline <= now),
                alive == (|p: PendingConnect| p.deadline > now),
                key == (|p: PendingConnect| p.reply),
                self.pending@ == orig.take(k as int).filter(alive),
                reply_keys(cmds@) == orig.take(k as int).filter(expired).map_values(key),
                forall|j: int| 0 <= j < cmds@.len() ==> (#[trigger] cmds@[j] is Reply || cmds@[j] is FinishQuery),
                forall|j: int| 0 <= j < cmds@.len() && (#[trigger] cmds@[j] is Reply) ==> (cmds@[j] matches Command::Reply { result: Err(f), .. }
                    && (f.have_observed_addr == observed && same_hints(f.local_hints@, old(self).hints@))),
                forall|j: int| 0 <= j < k && (#[trigger] orig[j]).deadline <= now ==> exists|m: int| 0 <= m < cmds@.len()
                    && answers_with_failure(#[trigger] cmds@[m], orig[j], observed, old(self).hints@),
            decreases old_pending.len(),
        {
            let mut p = old_pending.remove(0);
            assert(p == orig[k as int]);
            proof {
                assert(orig.skip(k as int).drop_first() =~= orig.skip(k + 1));
                assert(orig.take(k + 1).drop_last() =~= orig.take(k as int));
                reveal(Seq::filter);
            }
            if p.deadline <= now {
                let ghost before = cmds@;
                let ghost p0 = p;
                p.failure.local_hints = copy_hints(&self.hints);
                p.failure.have_observed_addr = observed;
                match p.lookup {
                    Some(q) => {
                        cmds.push(Command::FinishQuery(q));
                        proof { lemma_reply_keys_push(before, Command::FinishQuery(q)); }
                    },
                    None => {},
                }
                let ghost mid = cmds@;
                let ghost rk = p.reply;
                let c = Command::Reply { reply: p.reply, result: Err(p.failure) };
                proof { lemma_reply_keys_push(mid, c); }
                cmds.push(c);
                proof {
                    assert(orig.take(k as int).filter(expired).push(orig[k as int]).map_values(key)
                        =~= orig.take(k as int).filter(expired).map_values(key).push(rk));
                    assert(answers_with_failure(cmds@[cmds@.len() - 1], p0, observed, old(self).hints@));
                    assert forall|j: int| 0 <= j <= k && (#[trigger] orig[j]).deadline <= now implies exists|m: int|
                        0 <= m < cmds@.len() && answers_with_failure(#[trigger] cmds@[m], orig[j], observed, old(self).hints@) by {
                        if j < k {
                            let m = choose|m: int| 0 <= m < before.len() && answers_with_failure(#[trigger] before[m], orig[j],
                                observed, old(self).hints@);
                            assert(cmds@[m] == before[m]);
                        } else {
                            assert(answers_with_failure(cmds@[cmds@.len() - 1], orig[j], observed, old(self).hints@));
                        }
                    }
                }
            } else {
                self.pending.push(p);
            }
            k = k + 1;
        }
        assert(orig.take(orig.len() as int) =~= orig);
        cmds
    }
}

} // verus!

verus! {

/// The circuit address through `relay`, reached on `addr`.
pub open spec fn circuit_parts(addr: Seq<u8>, relay: Seq<u8>) -> Seq<Part> {
    crate::ticket::stripped(parts(addr), relay).push(Part::P2p(relay)).push(Part::P2pCircuit)
}

impl ControlState {
    /// Whether `p` holds a reservation.
    fn is_busy(&self, p: &PeerId) -> (r: bool)
        ensures
            r == busy(self.reservations(), p@),
    {
        let mut i: usize = 0;
        while i < self.reservations.len()
            invariant
                i <= self.reservations@.len(),
                forall|j: int| 0 <= j < i ==> self.reservations@[j].relay@ != p@,
            decreases self.reservations.len() - i,
        {
            if self.reservations[i].relay.eq(p) {
                assert(self.reservations()[i as int].relay@ == p@);
                return true;
            }
            i = i + 1;
        }
        false
    }

    /// Whether `p` is not to be asked before a time later than `now`.
    fn is_backed_off(&self, p: &PeerId, now: u64) -> (r: bool)
        ensures
            r == backed_off(self.relay_backoff(), p@, now),
    {
        let mut i: usize = 0;
        while i < self.relay_backoff.len()
            invariant
                i <= self.relay_backoff@.len(),
                forall|j: int| 0 <= j < i ==> !(self.relay_backoff@[j].relay@ == p@ && self.relay_backoff@[j].until > now),
            decreases self.relay_backoff.len() - i,
        {
            if self.relay_backoff[i].relay.eq(p) && self.relay_backoff[i].until > now {
                assert(self.relay_backoff()[i as int].relay@ == p@ && self.relay_backoff()[i as int].until > now);
                return true;
            }
            i = i + 1;
        }
        false
    }

    /// The first relay candidate we may ask now.
    fn pick_candidate(&self, now: u64) -> (r: Option<usize>)
        ensures
            r matches Some(i) ==> i < self.relay_candidates().len()
                && eligible(self.reservations(), self.relay_backoff(), self.relay_candidates()[i as int], now),
            r is None ==> forall|i: int| 0 <= i < self.relay_candidates().len()
                ==> !eligible(self.reservations(), self.relay_backoff(), #[trigger] self.relay_candidates()[i], now),
    {
        let mut i: usize = 0;
        while i < self.relay_candidates.len()
            invariant
                i <= self.relay_candidates@.len(),
                forall|j: int| 0 <= j < i ==> !eligible(self.reservations@, self.relay_backoff@, #[trigger] self.relay_candidates@[j], now),
            decreases self.relay_candidates.len() - i,
        {
            let p = &self.relay_candidates[i].relay;
            if !self.is_busy(p) && !self.is_backed_off(p, now) {
                return Some(i);
            }
            i = i + 1;
        }
        None
    }

    /// Do not ask `relay` again before `until`.
    fn set_backoff(&mut self, relay: PeerId, until: u64)
        requires
            old(self).wf(),
        ensures
            final(self).wf(),
            final(self).relay_backoff().drop_last() == old(self).relay_backoff().filter(|b: Backoff| b.relay@ != relay@),
            final(self).relay_backoff().len() > 0,
            final(self).relay_backoff().last().relay@ == relay@,
            final(self).relay_backoff().last().until == until,
            final(self).conns() == old(self).conns(),
            final(self).pending() == old(self).pending(),
            final(self).reservations() == old(self).reservations(),
            final(self).relay_candidates() == old(self).relay_candidates(),
            final(self).announce_due() == old(self).announce_due(),
            final(self).announce_query() == old(self).announce_query(),
            final(self).last_announce() == old(self).last_announce(),
    {
        let mut old_b: Vec<Backoff> = Vec::new();
        std::mem::swap(&mut old_b, &mut self.relay_backoff);
        let ghost orig = old_b@;
        let _n0 = old_b.len();
        let mut k: usize = 0;
        while old_b.len() > 0
            invariant
                k + old_b@.len() == orig.len(),
                orig.len() <= usize::MAX,
                old_b@ == orig.skip(k as int),
                orig == old(self).relay_backoff@,
                self.hints@ == old(self).hints@,
                self.conns@ == old(self).conns@,
                self.pending@ == old(self).pending@,
                self.reservations@ == old(self).reservations@,
                self.relay_candidates@ == old(self).relay_candidates@,
                self.announce_due == old(self).announce_due,
                self.announce_query == old(self).announce_query,
                self.last_announce == old(self).last_announce,
                self.relay_backoff@ == orig.take(k as int).filter(|b: Backoff| b.relay@ != relay@),
            decreases old_b.len(),
        {
            let b = old_b.remove(0);
            assert(b == orig[k as int]);
            proof {
                assert(orig.skip(k as int).drop_first() =~= orig.skip(k + 1));
                assert(orig.take(k + 1).drop_last() =~= orig.take(k as int));
                reveal(Seq::filter);
            }
            if !b.relay.eq(&relay) {
                self.relay_backoff.push(b);
            }
            k = k + 1;
        }
        assert(orig.take(orig.len() as int) =~= orig);
        self.relay_backoff.push(Backoff { relay, until });
    }

    /// The periodic housekeeping at time `now`: requests whose time is up
    /// are answered; a reachable device keeps enough relay reservations,
    /// asking a relay that holds none and was not asked recently, and
    /// announces itself when it holds a confirmed reservation and its
    /// addresses changed or the last announcement is old.
    pub fn maintain(&mut self, now: u64) -> (cmds: Vec<Command>)
        requires
            old(self).wf(),
            now <= u64::MAX - RELAY_BACKOFF_MS,
        ensures
            final(self).wf(),
            final(self).conns() == old(self).conns(),
            final(self).reservations() == old(self).reservations(),
            final(self).relay_candidates() == old(self).relay_candidates(),
            final(self).pending() == old(self).pending().filter(|p: PendingConnect| p.deadline > now),
            reply_keys(cmds@) == old(self).pending().filter(|p: PendingConnect| p.deadline <= now).map_values(|p: PendingConnect| p.reply),
            forall|k: int| 0 <= k < cmds@.len() && (#[trigger] cmds@[k] is Reply) ==> (cmds@[k] matches Command::Reply { result: Err(f), .. }
                && (f.have_observed_addr == (old(self).observed().len() > 0 || old(self).external_addrs().len() > 0)
                && same_hints(f.local_hints@, old(self).hints()))),
            // Each request whose time is up is answered with the diagnosis
            // collected for it.
            forall|j: int| 0 <= j < old(self).pending().len() && (#[trigger] old(self).pending()[j]).deadline <= now
                ==> exists|k: int| 0 <= k < cmds@.len() && answers_with_failure(#[trigger] cmds@[k], old(self).pending()[j],
                    old(self).observed().len() > 0 || old(self).external_addrs().len() > 0, old(self).hints()),
            forall|k: int| 0 <= k < cmds@.len() ==> (#[trigger] cmds@[k] is Reply || cmds@[k] is FinishQuery
                || cmds@[k] is ListenOnCircuit || cmds@[k] is StartProviding),
            // A reservation is asked for only by a reachable device short of
            // reservations, from a candidate that holds none and was not asked
            // recently; that relay is then not asked again for a while.
            forall|k: int| 0 <= k < cmds@.len() ==> (#[trigger] cmds@[k] matches Command::ListenOnCircuit { relay, addr }
                ==> old(self).is_reachable() && old(self).reservations().len() < TARGET_RESERVATIONS
                && backed_off(final(self).relay_backoff(), relay@, now)
                && exists|i: int| 0 <= i < old(self).relay_candidates().len()
                    && (#[trigger] old(self).relay_candidates()[i]).relay@ == relay@
                    && eligible(old(self).reservations(), old(self).relay_backoff(), old(self).relay_candidates()[i], now)
                    && parts(addr@) == circuit_parts(old(self).relay_candidates()[i].addr@, relay@)
                    && addr@ == crate::addr::multiaddr_circuit_bytes(
                        crate::ticket::stripped_bytes(old(self).relay_candidates()[i].addr@, relay@), relay@)),
            forall|k1: int, k2: int| 0 <= k1 < cmds@.len() && 0 <= k2 < cmds@.len() && (#[trigger] cmds@[k1] is ListenOnCircuit)
                && (#[trigger] cmds@[k2] is ListenOnCircuit) ==> k1 == k2,
            (old(self).is_reachable() && old(self).reservations().len() < TARGET_RESERVATIONS
                && exists|i: int| 0 <= i < old(self).relay_candidates().len()
                    && eligible(old(self).reservations(), old(self).relay_backoff(), #[trigger] old(self).relay_candidates()[i], now))
                ==> exists|k: int| 0 <= k < cmds@.len() && (#[trigger] cmds@[k] is ListenOnCircuit),
            // The device announces itself exactly when it is reachable, holds a
            // confirmed reservation, an announcement is called for and none is
            // under way.
            (exists|k: int| 0 <= k < cmds@.len() && (#[trigger] cmds@[k] is StartProviding)) <==> (old(self).is_reachable()
                && confirmed_relays(old(self).reservations()).len() > 0
                && announce_wanted(old(self).announce_due(), old(self).last_announce(), now)
                && old(self).announce_query() is None),
            forall|k1: int, k2: int| 0 <= k1 < cmds@.len() && 0 <= k2 < cmds@.len() && (#[trigger] cmds@[k1] is StartProviding)
                && (#[trigger] cmds@[k2] is StartProviding) ==> k1 == k2,
            final(self).announce_due() == old(self).announce_due(),
            final(self).announce_query() == old(self).announce_query(),
            !old(self).is_reachable() ==> final(self).relay_backoff() == old(self).relay_backoff(),
    {
        let mut cmds = self.expire(now);
        let ghost base = cmds@;
        if !self.reachable {
            return cmds;
        }
        if self.reservations.len() < TARGET_RESERVATIONS {
            match self.pick_candidate(now) {
                Some(i) => {
                    let relay = self.relay_candidates[i].relay.copy();
                    let ghost cand = self.relay_candidates@[i as int];
                    let reached = strip_peer(self.relay_candidates[i].addr.copy(), &relay);
                    let circuit = reached.with_circuit(&relay);
                    let ghost before = cmds@;
                    let c = Command::ListenOnCircuit { relay: relay.copy(), addr: circuit };
                    proof { lemma_reply_keys_push(before, c); }
                    cmds.push(c);
                    assert(cmds@[before.len() as int] is ListenOnCircuit);
                    self.set_backoff(relay, now + RELAY_BACKOFF_MS);
                    proof {
                        let last = self.relay_backoff().len() - 1;
                        assert(self.relay_backoff()[last].relay@ == cand.relay@ && self.relay_backoff()[last].until > now);
                    }
                },
                None => {},
            }
        }
        let ghost with_circuit = cmds@;
        let confirmed = self.confirmed_reservations();
        proof {
            assert(peer_views(confirmed@).len() == confirmed@.len());
        }
        let periodic = match self.last_announce {
            Some(t) => t <= now && now - t >= REPROVIDE_INTERVAL_MS,
            None => false,
        };
        if confirmed.len() > 0 && (self.announce_due || periodic) && self.announce_query.is_none() {
            let ghost before = cmds@;
            proof { lemma_reply_keys_push(before, Command::StartProviding); }
            cmds.push(Command::StartProviding);
            assert(cmds@[cmds@.len() - 1] is StartProviding);
            assert(forall|k: int| 0 <= k < with_circuit.len() ==> cmds@[k] == with_circuit[k]);
        } else {
            assert forall|k: int| 0 <= k < cmds@.len() implies !(#[trigger] cmds@[k] is StartProviding) by {
                assert(cmds@[k] == with_circuit[k]);
            }
        }
        proof {
            let obs = old(self).observed().len() > 0 || old(self).external_addrs().len() > 0;
            assert forall|j: int| 0 <= j < old(self).pending().len() && (#[trigger] old(self).pending()[j]).deadline <= now
                implies exists|k: int| 0 <= k < cmds@.len() && answers_with_failure(#[trigger] cmds@[k],
                    old(self).pending()[j], obs, old(self).hints()) by {
                let k = choose|k: int| 0 <= k < base.len() && answers_with_failure(#[trigger] base[k],
                    old(self).pending()[j], obs, old(self).hints());
                assert(cmds@[k] == base[k]);
            }
        }
        cmds
    }
}

} // verus!

verus! {

/// The observations show our socket behind `ip` on UDP port `p`.
pub open spec fn port_seen(obs: Seq<Observation>, ip: IpView, p: u16) -> bool {
    exists|j: int| 0 <= j < obs.len() && ip_port_of(parts((#[trigger] obs[j]).addr@)) == Some((ip, p, true))
}

/// Two peers saw our socket behind `ip` on different UDP ports: the NAT maps
/// one socket to a port per destination. QUIC always dials from the listen
/// socket, so different observed ports are unambiguous (TCP may use
/// ephemeral ports).
pub open spec fn symmetric_at(obs: Seq<Observation>, ip: IpView) -> bool {
    exists|p: u16, q: u16| p != q && port_seen(obs, ip, p) && port_seen(obs, ip, q)
}

pub open spec fn strictly_increasing(v: Seq<u16>) -> bool {
    forall|i: int, j: int| 0 <= i < j < v.len() ==> v[i] < v[j]
}

/// The hint for a symmetric NAT behind `ip`: every port seen, in order.
pub open spec fn symmetric_hint_for(obs: Seq<Observation>, h: NatHint) -> bool {
    h matches NatHint::SymmetricNat { ports } && strictly_increasing(ports@) && exists|ip: IpView|
        symmetric_at(obs, ip) && forall|p: u16| ports@.contains(p) <==> port_seen(obs, ip, p)
}

pub fn ip_eq(a: &IpAddr, b: &IpAddr) -> (r: bool)
    ensures
        r == (ip_view(*a) == ip_view(*b)),
{
    match (a, b) {
        (IpAddr::V4(x), IpAddr::V4(y)) => {
            let r = x[0] == y[0] && x[1] == y[1] && x[2] == y[2] && x[3] == y[3];
            assert(r ==> x@ =~= y@);
            r
        },
        (IpAddr::V6(x), IpAddr::V6(y)) => {
            let r = x[0] == y[0] && x[1] == y[1] && x[2] == y[2] && x[3] == y[3] && x[4] == y[4] && x[5]
                == y[5] && x[6] == y[6] && x[7] == y[7];
            assert(r ==> x@ =~= y@);
            r
        },
        _ => false,
    }
}

/// Inserts `x` into a strictly increasing list, keeping it so.
#[verifier::spinoff_prover]
fn insert_sorted(v: &mut Vec<u16>, x: u16)
    requires
        strictly_increasing(old(v)@),
    ensures
        strictly_increasing(final(v)@),
        forall|p: u16| final(v)@.contains(p) <==> (old(v)@.contains(p) || p == x),
{
    let mut pos: usize = 0;
    while pos < v.len() && v[pos] < x
        invariant
            pos <= v@.len(),
            v@ == old(v)@,
            strictly_increasing(v@),
            forall|j: int| 0 <= j < pos ==> v@[j] < x,
        decreases v.len() - pos,
    {
        pos = pos + 1;
    }
    if pos < v.len() && v[pos] == x {
        assert(v@.contains(x));
        return;
    }
    let ghost before = v@;
    v.insert(pos, x);
    assert(v@ == before.insert(pos as int, x));
    assert forall|i: int, j: int| 0 <= i < j < v@.len() implies v@[i] < v@[j] by {
        if j < pos {
        } else if j == pos {
        } else if i < pos {
            assert(v@[j] == before[j - 1]);
        } else if i == pos {
            assert(v@[j] == before[j - 1]);
            assert(before[pos as int] > x);
            if j - 1 > pos {
                assert(before[pos as int] < before[j - 1]);
            }
        } else {
            assert(v@[i] == before[i - 1] && v@[j] == before[j - 1]);
        }
    }
    assert forall|p: u16| v@.contains(p) <==> (before.contains(p) || p == x) by {
        if v@.contains(p) {
            let k = choose|k: int| 0 <= k < v@.len() && v@[k] == p;
            if k < pos {
                assert(before[k] == p);
            } else if k > pos {
                assert(before[k - 1] == p);
            }
        }
        if before.contains(p) {
            let k = choose|k: int| 0 <= k < before.len() && before[k] == p;
            if k < pos {
                assert(v@[k] == p);
            } else {
                assert(v@[k + 1] == p);
            }
        }
        if p == x {
            assert(v@[pos as int] == x);
        }
    }
    assert(before == old(v)@);
    assert(forall|p: u16| v@.contains(p) <==> (old(v)@.contains(p) || p == x));
}

impl ControlState {
    /// The UDP ports on which the observations show our socket behind `ip`,
    /// in increasing order.
    fn quic_ports(&self, ip: &IpAddr) -> (r: Vec<u16>)
        ensures
            strictly_increasing(r@),
            forall|p: u16| r@.contains(p) <==> port_seen(self.observed(), ip_view(*ip), p),
    {
        let mut r: Vec<u16> = Vec::new();
        let mut i: usize = 0;
        while i < self.observed.len()
            invariant
                i <= self.observed@.len(),
                strictly_increasing(r@),
                forall|p: u16| r@.contains(p) <==> port_seen(self.observed@.take(i as int), ip_view(*ip), p),
            decreases self.observed.len() - i,
        {
            let ghost obs_i = self.observed@.take(i + 1);
            proof {
                assert forall|p: u16| port_seen(obs_i, ip_view(*ip), p) <==> (port_seen(self.observed@.take(i as int), ip_view(*ip), p)
                    || ip_port_of(parts(self.observed@[i as int].addr@)) == Some((ip_view(*ip), p, true))) by {
                    if port_seen(obs_i, ip_view(*ip), p) {
                        let j = choose|j: int| 0 <= j < obs_i.len() && ip_port_of(parts((#[trigger] obs_i[j]).addr@)) == Some((ip_view(*ip), p, true));
                        if j < i {
                            assert(self.observed@.take(i as int)[j] == obs_i[j]);
                        }
                    }
                    if port_seen(self.observed@.take(i as int), ip_view(*ip), p) {
                        let j = choose|j: int| 0 <= j < i && ip_port_of(parts((#[trigger] self.observed@.take(i as int)[j]).addr@)) == Some((ip_view(*ip), p, true));
                        assert(obs_i[j] == self.observed@.take(i as int)[j]);
                    }
                    if ip_port_of(parts(self.observed@[i as int].addr@)) == Some((ip_view(*ip), p, true)) {
                        assert(obs_i[i as int] == self.observed@[i as int]);
                    }
                }
            }
            match ip_port(&self.observed[i].addr) {
                Some((oip, port, true)) => {
                    if ip_eq(&oip, ip) {
                        insert_sorted(&mut r, port);
                    }
                },
                _ => {},
            }
            i = i + 1;
        }
        assert(self.observed@.take(self.observed@.len() as int) =~= self.observed@);
        r
    }
}

} // verus!

verus! {

/// All the commands only tell the user something.
pub open spec fn only_events(cmds: Seq<Command>) -> bool {
    forall|k: int| 0 <= k < cmds.len() ==> (#[trigger] cmds[k] is Emit)
}

proof fn lemma_two_ports(v: Seq<u16>, obs: Seq<Observation>, ip: IpView)
    requires
        strictly_increasing(v),
        forall|p: u16| v.contains(p) <==> port_seen(obs, ip, p),
    ensures
        v.len() > 1 <==> symmetric_at(obs, ip),
{
    if v.len() > 1 {
        assert(v.contains(v[0]) && v.contains(v[1]));
        assert(port_seen(obs, ip, v[0]) && port_seen(obs, ip, v[1]) && v[0] != v[1]);
    }
    if symmetric_at(obs, ip) {
        let (p, q) = choose|p: u16, q: u16| p != q && port_seen(obs, ip, p) && port_seen(obs, ip, q);
        assert(v.contains(p) && v.contains(q));
        if v.len() <= 1 {
            let a = choose|a: int| 0 <= a < v.len() && v[a] == p;
            let b = choose|b: int| 0 <= b < v.len() && v[b] == q;
            assert(a == 0 && b == 0);
        }
    }
}

impl ControlState {
    /// Looks for a symmetric NAT: the same socket behind one IP seen on
    /// different UDP ports by different peers. Each IP with such ports gives
    /// a hint listing all of them; hints of one kind replace each other.
    fn check_symmetric_nat(&mut self) -> (cmds: Vec<Command>)
        requires
            old(self).wf(),
        ensures
            final(self).wf(),
            final(self).conns() == old(self).conns(),
            final(self).pending() == old(self).pending(),
            final(self).reservations() == old(self).reservations(),
            final(self).observed() == old(self).observed(),
            final(self).relay_candidates() == old(self).relay_candidates(),
            final(self).listen_addrs() == old(self).listen_addrs(),
            final(self).me() == old(self).me(),
            only_events(cmds@),
            final(self).hints().len() >= old(self).hints().len(),
            forall|k: int| 0 <= k < old(self).hints().len() && hint_kind(#[trigger] old(self).hints()[k]) != 1
                ==> final(self).hints()[k] == old(self).hints()[k],
            (forall|ip: IpView| !symmetric_at(old(self).observed(), ip)) ==> final(self).hints() == old(self).hints() && cmds@.len() == 0,
            (exists|ip: IpView| symmetric_at(old(self).observed(), ip)) ==> exists|k: int| 0 <= k < final(self).hints().len()
                && symmetric_hint_for(old(self).observed(), #[trigger] final(self).hints()[k]),
    {
        let ghost obs = self.observed@;
        let mut cmds: Vec<Command> = Vec::new();
        let mut found = false;
        let mut i: usize = 0;
        while i < self.observed.len()
            invariant
                i <= self.observed@.len(),
                self.observed@ == obs,
                obs == old(self).observed@,
                hint_kinds_distinct(self.hints@),
                self.conns@ == old(self).conns@,
                self.pending@ == old(self).pending@,
                self.reservations@ == old(self).reservations@,
                self.relay_candidates@ == old(self).relay_candidates@,
                self.listen_addrs() == old(self).listen_addrs(),
                self.me() == old(self).me(),
                only_events(cmds@),
                self.hints@.len() >= old(self).hints@.len(),
                forall|k: int| 0 <= k < old(self).hints@.len() && hint_kind(#[trigger] old(self).hints@[k]) != 1
                    ==> self.hints@[k] == old(self).hints@[k],
                !found ==> self.hints@ == old(self).hints@ && cmds@.len() == 0,
                found ==> exists|k: int| 0 <= k < self.hints@.len() && symmetric_hint_for(obs, #[trigger] self.hints@[k]),
                forall|j: int| 0 <= j < i && (ip_port_of(parts((#[trigger] obs[j]).addr@)) matches Some((ip, p2, true)))
                    && symmetric_at(obs, ip_port_of(parts(obs[j].addr@)).unwrap().0) ==> found,
            decreases self.observed.len() - i,
        {
            match ip_port(&self.observed[i].addr) {
                Some((ip, _, true)) => {
                    let ports = self.quic_ports(&ip);
                    proof {
                        lemma_two_ports(ports@, obs, ip_view(ip));
                    }
                    if ports.len() > 1 {
                        let h = NatHint::SymmetricNat { ports };
                        assert(symmetric_hint_for(obs, h));
                        let ghost gh = h;
                        let ghost before = self.hints@;
                        let e = self.hint(h);
                        proof {
                            if exists|m: int| 0 <= m < before.len() && hint_kind(before[m]) == hint_kind(gh) {
                                let m = choose|m: int| 0 <= m < before.len() && hint_kind(before[m]) == hint_kind(gh)
                                    && self.hints@ == before.update(m, gh);
                                assert(self.hints@[m] == gh);
                            } else {
                                assert(self.hints@[self.hints@.len() - 1] == gh);
                            }
                        }
                        match e {
                            Some(ev) => {
                                cmds.push(Command::Emit(ev));
                            },
                            None => {},
                        }
                        found = true;
                    }
                },
                _ => {},
            }
            i = i + 1;
        }
        proof {
            if exists|ip: IpView| symmetric_at(obs, ip) {
                let ip = choose|ip: IpView| symmetric_at(obs, ip);
                let (p, q) = choose|p: u16, q: u16| p != q && port_seen(obs, ip, p) && port_seen(obs, ip, q);
                let j = choose|j: int| 0 <= j < obs.len() && ip_port_of(parts((#[trigger] obs[j]).addr@)) == Some((ip, p, true));
                assert(ip_port_of(parts(obs[j].addr@)).unwrap().0 == ip);
                assert(ip_port_of(parts(obs[j].addr@)) matches Some((ip2, p2, true)));
                assert(found);
                let k = choose|k: int| 0 <= k < self.hints@.len() && symmetric_hint_for(obs, #[trigger] self.hints@[k]);
                assert(symmetric_hint_for(old(self).observed(), self.hints()[k]));
            }
        }
        cmds
    }
}

} // verus!

verus! {

/// What an observation says: who saw us, over which transport, where.
pub open spec fn obs_view(o: Observation) -> (Seq<u8>, bool, Seq<u8>) {
    (o.by@, o.quic, o.addr@)
}

pub open spec fn obs_views(v: Seq<Observation>) -> Seq<(Seq<u8>, bool, Seq<u8>)> {
    v.map_values(|o: Observation| obs_view(o))
}

/// Observations are kept one per observer and transport: a new one replaces
/// the first of the same key, or is added.
pub open spec fn observations_after(old: Seq<(Seq<u8>, bool, Seq<u8>)>, new: Seq<(Seq<u8>, bool, Seq<u8>)>, o: (Seq<u8>, bool, Seq<u8>)) -> bool {
    ||| (exists|i: int| 0 <= i < old.len() && (#[trigger] old[i]).0 == o.0 && old[i].1 == o.1
            && (forall|j: int| 0 <= j < i ==> !((#[trigger] old[j]).0 == o.0 && old[j].1 == o.1))
            && new == old.update(i, o))
    ||| ((forall|j: int| 0 <= j < old.len() ==> !((#[trigger] old[j]).0 == o.0 && old[j].1 == o.1)) && new == old.push(o))
}

/// The observation is news: nobody with that key had reported that address.
pub open spec fn observation_changed(old: Seq<(Seq<u8>, bool, Seq<u8>)>, o: (Seq<u8>, bool, Seq<u8>)) -> bool {
    !exists|i: int| 0 <= i < old.len() && (#[trigger] old[i]).0 == o.0 && old[i].1 == o.1
        && (forall|j: int| 0 <= j < i ==> !((#[trigger] old[j]).0 == o.0 && old[j].1 == o.1)) && old[i].2 == o.2
}

/// One of our listen addresses is on `ip`.
pub open spec fn listens_on(listen: Seq<Seq<u8>>, ip: IpView) -> bool {
    exists|i: int| 0 <= i < listen.len() && (ip_port_of(parts(#[trigger] listen[i])) matches Some((l, _, _)) && l == ip)
}

/// The addresses handed to the DHT, in order.
pub open spec fn kad_addrs(cmds: Seq<Command>) -> Seq<Seq<u8>>
    decreases cmds.len(),
{
    if cmds.len() == 0 {
        Seq::empty()
    } else {
        let rest = kad_addrs(cmds.drop_last());
        match cmds.last() {
            Command::AddKadAddress { addr, .. } => rest.push(addr@),
            _ => rest,
        }
    }
}

proof fn lemma_kad_addrs_push(cmds: Seq<Command>, c: Command)
    ensures
        kad_addrs(cmds.push(c)) == (match c {
            Command::AddKadAddress { addr, .. } => kad_addrs(cmds).push(addr@),
            _ => kad_addrs(cmds),
        }),
{
    assert(cmds.push(c).drop_last() =~= cmds);
}

/// The connection `id`, the first one recorded under it.
pub open spec fn conn_at(conns: Seq<Conn>, id: u64, i: int) -> bool {
    0 <= i < conns.len() && conns[i].id == id && forall|j: int| 0 <= j < i ==> (#[trigger] conns[j]).id != id
}

impl ControlState {
    /// Records that `by` sees our socket at `addr` over `quic`; says whether
    /// that is news.
    fn record_observation(&mut self, by: PeerId, quic: bool, addr: Multiaddr) -> (changed: bool)
        requires
            old(self).wf(),
        ensures
            final(self).wf(),
            final(self).conns() == old(self).conns(),
            final(self).pending() == old(self).pending(),
            final(self).reservations() == old(self).reservations(),
            final(self).relay_candidates() == old(self).relay_candidates(),
            final(self).listen_addrs() == old(self).listen_addrs(),
            final(self).hints() == old(self).hints(),
            final(self).me() == old(self).me(),
            observations_after(obs_views(old(self).observed()), obs_views(final(self).observed()), (by@, quic, addr@)),
            changed == observation_changed(obs_views(old(self).observed()), (by@, quic, addr@)),
    {
        let ghost ov = obs_views(self.observed@);
        let ghost o = (by@, quic, addr@);
        let mut i: usize = 0;
        while i < self.observed.len()
            invariant
                i <= self.observed@.len(),
                self.observed@ == old(self).observed@,
                self.hints@ == old(self).hints@,
                self.conns@ == old(self).conns@,
                self.pending@ == old(self).pending@,
                self.reservations@ == old(self).reservations@,
                self.relay_candidates@ == old(self).relay_candidates@,
                self.listen_addrs@ == old(self).listen_addrs@,
                self.me == old(self).me,
                hint_kinds_distinct(self.hints@),
                ov == obs_views(self.observed@),
                o == (by@, quic, addr@),
                forall|j: int| 0 <= j < i ==> !((#[trigger] ov[j]).0 == o.0 && ov[j].1 == o.1),
            decreases self.observed.len() - i,
        {
            if self.observed[i].by.eq(&by) && self.observed[i].quic == quic {
                let same = self.observed[i].addr.eq(&addr);
                let ghost before = self.observed@;
                let ob = Observation { by, quic, addr };
                self.observed.set(i, ob);
                proof {
                    assert(ov[i as int].0 == o.0 && ov[i as int].1 == o.1);
                    assert(obs_views(self.observed@) =~= ov.update(i as int, o));
                    if same {
                        assert(ov[i as int].2 == o.2);
                    } else {
                        assert forall|m: int| 0 <= m < ov.len() && (#[trigger] ov[m]).0 == o.0 && ov[m].1 == o.1
                            && (forall|j: int| 0 <= j < m ==> !((#[trigger] ov[j]).0 == o.0 && ov[j].1 == o.1)) implies ov[m].2 != o.2 by {
                            if m > i {
                                assert(!(ov[i as int].0 == o.0 && ov[i as int].1 == o.1));
                            }
                        }
                    }
                }
                return !same;
            }
            i = i + 1;
        }
        let ob = Observation { by, quic, addr };
        self.observed.push(ob);
        assert(obs_views(self.observed@) =~= ov.push(o));
        true
    }

    /// Whether one of our listen addresses is on `ip`.
    fn listening_on(&self, ip: &IpAddr) -> (r: bool)
        ensures
            r == listens_on(self.listen_addrs(), ip_view(*ip)),
    {
        let mut i: usize = 0;
        while i < self.listen_addrs.len()
            invariant
                i <= self.listen_addrs@.len(),
                forall|j: int| 0 <= j < i ==> !(ip_port_of(parts(#[trigger] self.listen_addrs()[j])) matches Some((l, _, _)) && l == ip_view(*ip)),
            decreases self.listen_addrs.len() - i,
        {
            assert(self.listen_addrs()[i as int] == self.listen_addrs@[i as int]@);
            match ip_port(&self.listen_addrs[i]) {
                Some((l, _, _)) => {
                    if ip_eq(&l, ip) {
                        return true;
                    }
                },
                None => {},
            }
            i = i + 1;
        }
        false
    }

    /// The connection recorded under `id`.
    fn conn_index(&self, id: u64) -> (r: Option<usize>)
        ensures
            r matches Some(i) ==> conn_at(self.conns(), id, i as int),
            r is None ==> forall|i: int| 0 <= i < self.conns().len() ==> (#[trigger] self.conns()[i]).id != id,
    {
        let mut i: usize = 0;
        while i < self.conns.len()
            invariant
                i <= self.conns@.len(),
                forall|j: int| 0 <= j < i ==> (#[trigger] self.conns@[j]).id != id,
            decreases self.conns.len() - i,
        {
            if self.conns[i].id == id {
                return Some(i);
            }
            i = i + 1;
        }
        None
    }

    /// Whether `peer` is a relay candidate already.
    fn is_candidate(&self, peer: &PeerId) -> (r: bool)
        ensures
            r == exists|i: int| 0 <= i < self.relay_candidates().len() && (#[trigger] self.relay_candidates()[i]).relay@ == peer@,
    {
        let mut i: usize = 0;
        while i < self.relay_candidates.len()
            invariant
                i <= self.relay_candidates@.len(),
                forall|j: int| 0 <= j < i ==> (#[trigger] self.relay_candidates@[j]).relay@ != peer@,
            decreases self.relay_candidates.len() - i,
        {
            if self.relay_candidates[i].relay.eq(peer) {
                assert(self.relay_candidates()[i as int].relay@ == peer@);
                return true;
            }
            i = i + 1;
        }
        false
    }
}

} // verus!

verus! {

/// What a peer's identify message tells about us and about itself.
pub struct IdentifyInfo {
    /// How the peer sees the socket we reached it from.
    pub observed: Multiaddr,
    /// The addresses the peer listens on.
    pub listen_addrs: Vec<Multiaddr>,
    /// The peer offers to relay (it speaks the circuit relay hop protocol).
    pub supports_hop: bool,
    /// The peer is a DHT server (it speaks the Kademlia protocol).
    pub is_dht_server: bool,
}

/// The observed address is usable: `/ip…/tcp|udp/…`, not through a relay.
pub open spec fn usable_observation(a: Seq<u8>) -> bool {
    ip_port_of(parts(a)) is Some && !spec_is_relayed(parts(a))
}

/// The listen addresses worth giving the DHT.
pub open spec fn public_addrs(v: Seq<Multiaddr>) -> Seq<Seq<u8>> {
    addr_views(v).filter(|a: Seq<u8>| spec_is_public(parts(a)))
}

impl ControlState {
    /// `peer` identified itself on connection `connection`. From how it sees
    /// us we learn our public address and NAT behaviour; a relay reached
    /// directly on a public address becomes a relay candidate; the public
    /// addresses of a DHT server go to the routing table.
    pub fn identify_received(&mut self, peer: PeerId, connection: u64, info: IdentifyInfo) -> (cmds: Vec<Command>)
        requires
            old(self).wf(),
        ensures
            final(self).wf(),
            final(self).conns() == old(self).conns(),
            final(self).pending() == old(self).pending(),
            final(self).reservations() == old(self).reservations(),
            forall|k: int| 0 <= k < cmds@.len() ==> (#[trigger] cmds@[k] is Emit || cmds@[k] is AddKadAddress),
            // How the peer sees us.
            !usable_observation(info.observed@) ==> final(self).observed() == old(self).observed() && final(self).hints() == old(self).hints(),
            usable_observation(info.observed@) ==> observations_after(obs_views(old(self).observed()), obs_views(final(self).observed()),
                (peer@, ip_port_of(parts(info.observed@)).unwrap().2, info.observed@)),
            usable_observation(info.observed@) && observation_changed(obs_views(old(self).observed()),
                (peer@, ip_port_of(parts(info.observed@)).unwrap().2, info.observed@)) ==> exists|k: int| 0 <= k < cmds@.len()
                && (#[trigger] cmds@[k] matches Command::Emit(NodeEvent::ObservedAddr { by, addr }) && by@ == peer@ && addr@ == info.observed@),
            usable_observation(info.observed@) && !observation_changed(obs_views(old(self).observed()),
                (peer@, ip_port_of(parts(info.observed@)).unwrap().2, info.observed@)) ==> final(self).hints() == old(self).hints(),
            // Seen on an address that is one of our interface addresses: no NAT.
            usable_observation(info.observed@) && observation_changed(obs_views(old(self).observed()),
                (peer@, ip_port_of(parts(info.observed@)).unwrap().2, info.observed@))
                && listens_on(old(self).listen_addrs(), ip_port_of(parts(info.observed@)).unwrap().0)
                ==> exists|k: int| 0 <= k < final(self).hints().len() && (#[trigger] final(self).hints()[k] matches NatHint::PublicAddress(ip)
                    && ip_view(ip) == ip_port_of(parts(info.observed@)).unwrap().0),
            // One socket seen on different UDP ports: symmetric NAT.
            usable_observation(info.observed@) && observation_changed(obs_views(old(self).observed()),
                (peer@, ip_port_of(parts(info.observed@)).unwrap().2, info.observed@))
                && (exists|ip: IpView| symmetric_at(final(self).observed(), ip))
                ==> exists|k: int| 0 <= k < final(self).hints().len() && symmetric_hint_for(final(self).observed(), #[trigger] final(self).hints()[k]),
            // Relay candidates.
            (info.supports_hop && peer@ != old(self).me() && !(exists|c: int| 0 <= c < old(self).relay_candidates().len()
                && (#[trigger] old(self).relay_candidates()[c]).relay@ == peer@)
                && exists|i: int| conn_at(old(self).conns(), connection, i) && !old(self).conns()[i].relayed
                    && spec_is_public(parts(old(self).conns()[i].addr@)))
                ==> final(self).relay_candidates().len() == old(self).relay_candidates().len() + 1
                    && final(self).relay_candidates().drop_last() == old(self).relay_candidates()
                    && final(self).relay_candidates().last().relay@ == peer@
                    && exists|i: int| conn_at(old(self).conns(), connection, i)
                        && final(self).relay_candidates().last().addr@ == old(self).conns()[i].addr@,
            !(info.supports_hop && peer@ != old(self).me() && !(exists|c: int| 0 <= c < old(self).relay_candidates().len()
                && (#[trigger] old(self).relay_candidates()[c]).relay@ == peer@)
                && exists|i: int| conn_at(old(self).conns(), connection, i) && !old(self).conns()[i].relayed
                    && spec_is_public(parts(old(self).conns()[i].addr@)))
                ==> final(self).relay_candidates() == old(self).relay_candidates(),
            // The routing table.
            kad_addrs(cmds@) == (if info.is_dht_server { public_addrs(info.listen_addrs@) } else { Seq::empty() }),
            forall|k: int| 0 <= k < cmds@.len() ==> (#[trigger] cmds@[k] matches Command::AddKadAddress { peer: p, .. } ==> p@ == peer@),
    {
        let mut cmds: Vec<Command> = Vec::new();
        let ghost old_obs = obs_views(self.observed@);
        match ip_port(&info.observed) {
            Some((ip, _, quic)) => {
                if !is_relayed(&info.observed) {
                    let seen = info.observed.copy();
                    let changed = self.record_observation(peer.copy(), quic, seen);
                    if changed {
                        cmds.push(Command::Emit(NodeEvent::ObservedAddr { by: peer.copy(), addr: info.observed.copy() }));
                        assert(cmds@[0] matches Command::Emit(NodeEvent::ObservedAddr { by, addr }) && by@ == peer@ && addr@ == info.observed@);
                        let ghost mut pa_idx: int = -1;
                        if self.listening_on(&ip) {
                            let ghost before = self.hints@;
                            match self.hint(NatHint::PublicAddress(ip)) {
                                Some(e) => cmds.push(Command::Emit(e)),
                                None => {},
                            }
                            proof {
                                let h = NatHint::PublicAddress(ip);
                                if exists|m: int| 0 <= m < before.len() && hint_kind(before[m]) == hint_kind(h) {
                                    let m = choose|m: int| 0 <= m < before.len() && hint_kind(before[m]) == hint_kind(h)
                                        && self.hints@ == before.update(m, h);
                                    assert(self.hints@[m] == h);
                                    pa_idx = m;
                                } else {
                                    assert(self.hints@[self.hints@.len() - 1] == h);
                                    pa_idx = self.hints@.len() - 1;
                                }
                            }
                        }
                        let ghost before_check = self.hints@;
                        let ghost cmds_before = cmds@;
                        let more = self.check_symmetric_nat();
                        let mut more = more;
                        let ghost more_v = more@;
                        cmds.append(&mut more);
                        proof {
                            assert(cmds@ == cmds_before + more_v);
                            assert(cmds@[0] == cmds_before[0]);
                            assert forall|k: int| 0 <= k < cmds@.len() implies (#[trigger] cmds@[k] is Emit || cmds@[k] is AddKadAddress) by {
                                if k >= cmds_before.len() {
                                    assert(cmds@[k] == more_v[k - cmds_before.len()]);
                                }
                            }
                            if pa_idx >= 0 {
                                assert(hint_kind(before_check[pa_idx]) != 1);
                                assert(self.hints@[pa_idx] == before_check[pa_idx]);
                                assert(self.hints()[pa_idx] == NatHint::PublicAddress(ip));
                                assert(exists|k: int| 0 <= k < self.hints().len() && (#[trigger] self.hints()[k] matches NatHint::PublicAddress(ip2)
                                    && ip_view(ip2) == ip_view(ip)));
                            }
                        }
                    }
                }
            },
            None => {},
        }
        let ghost after_obs = cmds@;
        let ghost hints_after = self.hints();
        let ghost observed_after = self.observed();
        proof {
            assert(kad_addrs(cmds@) == Seq::<Seq<u8>>::empty()) by {
                lemma_no_kad_addrs(cmds@);
            }
        }
        if info.supports_hop && !peer.eq(&self.me) {
            match self.conn_index(connection) {
                Some(i) => {
                    if !self.conns[i].relayed && is_public(&self.conns[i].addr) && !self.is_candidate(&peer) {
                        let addr = self.conns[i].addr.copy();
                        self.relay_candidates.push(RelayCandidate { relay: peer.copy(), addr });
                    }
                },
                None => {},
            }
        }
        if info.is_dht_server {
            let mut j: usize = 0;
            while j < info.listen_addrs.len()
                invariant
                    j <= info.listen_addrs@.len(),
                    after_obs.len() <= cmds@.len(),
                    forall|k: int| 0 <= k < after_obs.len() ==> cmds@[k] == after_obs[k],
                    forall|k: int| 0 <= k < cmds@.len() ==> (#[trigger] cmds@[k] is Emit || cmds@[k] is AddKadAddress),
                    forall|k: int| 0 <= k < cmds@.len() ==> (#[trigger] cmds@[k] matches Command::AddKadAddress { peer: p, .. } ==> p@ == peer@),
                    kad_addrs(cmds@) == public_addrs(info.listen_addrs@.take(j as int)),
                decreases info.listen_addrs.len() - j,
            {
                proof {
                    assert(addr_views(info.listen_addrs@.take(j + 1)).drop_last() =~= addr_views(info.listen_addrs@.take(j as int)));
                    assert(addr_views(info.listen_addrs@.take(j + 1)).last() == info.listen_addrs@[j as int]@);
                    reveal(Seq::filter);
                }
                if is_public(&info.listen_addrs[j]) {
                    let c = Command::AddKadAddress { peer: peer.copy(), addr: info.listen_addrs[j].copy() };
                    proof { lemma_kad_addrs_push(cmds@, c); }
                    cmds.push(c);
                }
                j = j + 1;
            }
            assert(info.listen_addrs@.take(info.listen_addrs@.len() as int) =~= info.listen_addrs@);
        }
        assert(self.hints() == hints_after && self.observed() == observed_after);
        cmds
    }
}

/// Commands that only tell the user something give the DHT no address.
proof fn lemma_no_kad_addrs(cmds: Seq<Command>)
    requires
        forall|k: int| 0 <= k < cmds.len() ==> (#[trigger] cmds[k] is Emit),
    ensures
        kad_addrs(cmds) == Seq::<Seq<u8>>::empty(),
    decreases cmds.len(),
{
    if cmds.len() > 0 {
        lemma_no_kad_addrs(cmds.drop_last());
        assert(cmds.last() is Emit);
    }
}

} // verus!

verus! {

/// Byte strings in lexicographic order, as `Multiaddr` orders itself.
pub open spec fn lex_lt(a: Seq<u8>, b: Seq<u8>) -> bool
    decreases a.len(),
{
    if a.len() == 0 {
        b.len() > 0
    } else if b.len() == 0 {
        false
    } else if a[0] != b[0] {
        a[0] < b[0]
    } else {
        lex_lt(a.drop_first(), b.drop_first())
    }
}

proof fn lemma_lex_transitive(a: Seq<u8>, b: Seq<u8>, c: Seq<u8>)
    requires
        lex_lt(a, b),
        lex_lt(b, c),
    ensures
        lex_lt(a, c),
    decreases a.len(),
{
    if a.len() > 0 && b.len() > 0 && c.len() > 0 && a[0] == b[0] && b[0] == c[0] {
        lemma_lex_transitive(a.drop_first(), b.drop_first(), c.drop_first());
    }
}

proof fn lemma_lex_irreflexive(a: Seq<u8>)
    ensures
        !lex_lt(a, a),
    decreases a.len(),
{
    if a.len() > 0 {
        lemma_lex_irreflexive(a.drop_first());
    }
}

proof fn lemma_lex_total(a: Seq<u8>, b: Seq<u8>)
    requires
        a != b,
    ensures
        lex_lt(a, b) || lex_lt(b, a),
    decreases a.len(),
{
    if a.len() > 0 && b.len() > 0 && a[0] == b[0] {
        if a.drop_first() == b.drop_first() {
            assert(a =~= seq![a[0]] + a.drop_first());
            assert(b =~= seq![b[0]] + b.drop_first());
        }
        lemma_lex_total(a.drop_first(), b.drop_first());
    } else if a.len() == 0 && b.len() == 0 {
        assert(a =~= b);
    }
}

/// Whether `a` comes before `b`.
fn bytes_lt(a: &Vec<u8>, b: &Vec<u8>) -> (r: bool)
    ensures
        r == lex_lt(a@, b@),
{
    let mut i: usize = 0;
    assert(a@.skip(0) =~= a@ && b@.skip(0) =~= b@);
    while i < a.len() && i < b.len()
        invariant
            i <= a@.len() && i <= b@.len(),
            a@.take(i as int) == b@.take(i as int),
            lex_lt(a@, b@) == lex_lt(a@.skip(i as int), b@.skip(i as int)),
        decreases a.len() - i,
    {
        proof {
            let (sa, sb) = (a@.skip(i as int), b@.skip(i as int));
            assert(sa[0] == a@[i as int] && sb[0] == b@[i as int]);
            assert(sa.drop_first() =~= a@.skip(i + 1));
            assert(sb.drop_first() =~= b@.skip(i + 1));
        }
        if a[i] != b[i] {
            return a[i] < b[i];
        }
        proof {
            assert(a@.take(i + 1) =~= a@.take(i as int).push(a@[i as int]));
            assert(b@.take(i + 1) =~= b@.take(i as int).push(b@[i as int]));
        }
        i = i + 1;
    }
    proof {
        assert(a@.skip(i as int).len() == a@.len() - i);
    }
    i < b.len()
}

pub open spec fn lex_sorted(v: Seq<Seq<u8>>) -> bool {
    forall|i: int, j: int| 0 <= i < j < v.len() ==> lex_lt(v[i], v[j])
}

/// Inserts `a` into a list ordered by `lex_lt` without repeats, keeping it so.
fn insert_addr_sorted(v: &mut Vec<Multiaddr>, a: Multiaddr)
    requires
        lex_sorted(addr_views(old(v)@)),
    ensures
        lex_sorted(addr_views(final(v)@)),
        forall|x: Seq<u8>| addr_views(final(v)@).contains(x) <==> (addr_views(old(v)@).contains(x) || x == a@),
{
    let ghost w = addr_views(v@);
    let mut pos: usize = 0;
    let ab = a.to_vec();
    while pos < v.len() && bytes_lt(&v[pos].to_vec(), &ab)
        invariant
            pos <= v@.len(),
            v@ == old(v)@,
            w == addr_views(v@),
            ab@ == a@,
            lex_sorted(w),
            forall|j: int| 0 <= j < pos ==> lex_lt(#[trigger] w[j], a@),
        decreases v.len() - pos,
    {
        pos = pos + 1;
    }
    if pos < v.len() && v[pos].eq(&a) {
        assert(w[pos as int] == a@);
        assert(w.contains(a@));
        return;
    }
    proof {
        if pos < w.len() {
            assert(!lex_lt(w[pos as int], a@));
            assert(w[pos as int] != a@);
            lemma_lex_total(w[pos as int], a@);
        }
    }
    let ghost av = a@;
    v.insert(pos, a);
    let ghost w2 = addr_views(v@);
    assert(w2 =~= w.insert(pos as int, av));
    assert forall|i: int, j: int| 0 <= i < j < w2.len() implies lex_lt(w2[i], w2[j]) by {
        if j < pos {
        } else if j == pos {
        } else if i < pos {
            assert(w2[j] == w[j - 1]);
            lemma_lex_transitive(w[i], av, w[pos as int]);
            if j - 1 > pos {
                lemma_lex_transitive(w[i], w[pos as int], w[j - 1]);
            }
        } else if i == pos {
            assert(w2[j] == w[j - 1]);
            if j - 1 > pos {
                lemma_lex_transitive(av, w[pos as int], w[j - 1]);
            }
        } else {
            assert(w2[i] == w[i - 1] && w2[j] == w[j - 1]);
        }
    }
    assert forall|x: Seq<u8>| w2.contains(x) <==> (w.contains(x) || x == av) by {
        if w2.contains(x) {
            let k = choose|k: int| 0 <= k < w2.len() && w2[k] == x;
            if k < pos {
                assert(w[k] == x);
            } else if k > pos {
                assert(w[k - 1] == x);
            }
        }
        if w.contains(x) {
            let k = choose|k: int| 0 <= k < w.len() && w[k] == x;
            if k < pos {
                assert(w2[k] == x);
            } else {
                assert(w2[k + 1] == x);
            }
        }
        if x == av {
            assert(w2[pos as int] == x);
        }
    }
}

impl Snapshot {
    /// The node knows its own public address (needed for hole punching) and,
    /// if `need_reservation`, holds a relay reservation.
    pub fn is_ready(&self, need_reservation: bool) -> (r: bool)
        ensures
            r == ((self.observed_addrs@.len() > 0 || self.external_addrs@.len() > 0)
                && (!need_reservation || self.reservations@.len() > 0)),
    {
        let observed = self.observed_addrs.len() > 0 || self.external_addrs.len() > 0;
        let reserved = !need_reservation || self.reservations.len() > 0;
        observed && reserved
    }
}

impl ControlState {
    /// What the node knows now; `routing_peers` is the size of the DHT
    /// routing table. The observed addresses come sorted, each once.
    pub fn snapshot(&self, routing_peers: usize) -> (s: Snapshot)
        ensures
            s.peer_id matches Some(p) && p@ == self.me(),
            addr_views(s.listen_addrs@) == self.listen_addrs(),
            addr_views(s.external_addrs@) == self.external_addrs(),
            lex_sorted(addr_views(s.observed_addrs@)),
            forall|x: Seq<u8>| addr_views(s.observed_addrs@).contains(x) <==> exists|i: int| 0 <= i < self.observed().len()
                && (#[trigger] self.observed()[i]).addr@ == x,
            peer_views(s.reservations@) == confirmed_relays(self.reservations()),
            s.routing_peers == routing_peers,
            same_hints(s.hints@, self.hints()),
    {
        let mut observed: Vec<Multiaddr> = Vec::new();
        let mut i: usize = 0;
        while i < self.observed.len()
            invariant
                i <= self.observed@.len(),
                lex_sorted(addr_views(observed@)),
                forall|x: Seq<u8>| addr_views(observed@).contains(x) <==> exists|j: int| 0 <= j < i
                    && (#[trigger] self.observed@[j]).addr@ == x,
            decreases self.observed.len() - i,
        {
            let ghost prev = addr_views(observed@);
            insert_addr_sorted(&mut observed, self.observed[i].addr.copy());
            proof {
                assert forall|x: Seq<u8>| addr_views(observed@).contains(x) <==> exists|j: int| 0 <= j < i + 1
                    && (#[trigger] self.observed@[j]).addr@ == x by {
                    if prev.contains(x) {
                        let j = choose|j: int| 0 <= j < i && (#[trigger] self.observed@[j]).addr@ == x;
                    }
                    if x == self.observed@[i as int].addr@ {
                    }
                }
            }
            i = i + 1;
        }
        proof {
            assert forall|x: Seq<u8>| addr_views(observed@).contains(x) <==> exists|j: int| 0 <= j < self.observed().len()
                && (#[trigger] self.observed()[j]).addr@ == x by {
                if addr_views(observed@).contains(x) {
                    let j = choose|j: int| 0 <= j < i && (#[trigger] self.observed@[j]).addr@ == x;
                    assert(self.observed()[j] == self.observed@[j]);
                }
                if exists|j: int| 0 <= j < self.observed().len() && (#[trigger] self.observed()[j]).addr@ == x {
                    let j = choose|j: int| 0 <= j < self.observed().len() && (#[trigger] self.observed()[j]).addr@ == x;
                    assert(self.observed@[j].addr@ == x);
                }
            }
        }
        Snapshot {
            peer_id: Some(self.me.copy()),
            listen_addrs: copy_addrs(&self.listen_addrs),
            external_addrs: copy_addrs(&self.external_addrs),
            observed_addrs: observed,
            reservations: self.confirmed_reservations(),
            routing_peers,
            hints: copy_hints(&self.hints),
        }
    }
}

} // verus!
