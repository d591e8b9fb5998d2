use lso_core::addr::{IpAddr, Multiaddr, PeerId};
use lso_core::direct_only::{is_relayed, relay_of, ConnectionGate, Handler};
use lso_core::node::{
    describe_hint, format_ip, has_tcp_and_udp, is_lan_or_public, is_public, Command, ConnectFailure, ControlState,
    IdentifyInfo, NatHint, NodeEvent, Role,
};
use lso_core::ticket::Ticket;

const P1: &str = "12D3KooWKnDdG3iXw9eTFijk3EWSunZcFi54Zka4wmtqtt6rPxc8";
const P2: &str = "QmNnooDu7bfjPFoTZYxMNLWUQJyrVwtbZg5gBMjTezGAJN";
const P3: &str = "QmaCpDMGvV2BGHeYERUEnRQAwe3N8SzbUtfsmvsqQLuvuJ";

fn peer(s: &str) -> PeerId {
    PeerId::parse(s).unwrap()
}

fn addr(s: &str) -> Multiaddr {
    Multiaddr::parse(s).unwrap()
}

fn device(reachable: bool) -> ControlState {
    ControlState::new(peer(P1), reachable, Role::Device)
}

fn replies(cmds: &[Command]) -> Vec<(u64, bool)> {
    cmds.iter()
        .filter_map(|c| match c {
            Command::Reply { reply, result } => Some((*reply, result.is_ok())),
            _ => None,
        })
        .collect()
}

#[test]
fn public_and_lan_addresses() {
    assert!(is_public(&addr("/ip4/8.8.8.8/tcp/1")));
    assert!(is_public(&addr("/dns4/example.com/tcp/1")));
    assert!(!is_public(&addr("/ip4/192.168.1.2/tcp/1")));
    assert!(!is_public(&addr("/ip4/100.64.0.1/udp/1/quic-v1")));
    assert!(!is_public(&addr("/ip4/203.0.113.9/tcp/1")));
    assert!(is_public(&addr("/ip6/2001:4860::8888/tcp/1")));
    assert!(!is_public(&addr("/ip6/2001:db8::1/tcp/1")));
    assert!(!is_public(&addr("/ip6/fe80::1/tcp/1")));
    assert!(is_lan_or_public(&addr("/ip4/192.168.1.2/tcp/1")));
    assert!(!is_lan_or_public(&addr("/ip4/127.0.0.1/tcp/1")));
    assert!(!is_lan_or_public(&addr("/ip6/::/tcp/1")));
    assert!(has_tcp_and_udp(&vec![addr("/ip4/1.2.3.4/tcp/1"), addr("/ip4/1.2.3.4/udp/1/quic-v1")]));
    assert!(!has_tcp_and_udp(&vec![addr("/ip4/1.2.3.4/tcp/1")]));
}

#[test]
fn relayed_addresses_and_the_gate() {
    let circuit = addr(&format!("/ip4/1.2.3.4/tcp/1/p2p/{P2}/p2p-circuit/p2p/{P1}"));
    let direct = addr("/ip4/1.2.3.4/tcp/1");
    assert!(is_relayed(&circuit));
    assert!(!is_relayed(&direct));
    assert_eq!(relay_of(&circuit).unwrap(), peer(P2));
    assert!(relay_of(&direct).is_none());
    let mut gate = ConnectionGate::new(vec![]);
    assert_eq!(gate.established(1, &direct, &circuit), Handler::Dummy);
    assert_eq!(gate.established(2, &direct, &direct), Handler::Inner);
    assert!(!gate.forward_established(1));
    assert!(gate.forward_established(2));
    assert!(!gate.forward_closed(1));
    assert!(gate.forward_closed(2));
}

#[test]
fn hints_are_described_in_italian() {
    assert_eq!(describe_hint(&NatHint::DoubleNat), "doppio NAT / CGNAT (il router UPnP non ha IP pubblico)");
    assert_eq!(describe_hint(&NatHint::NoUpnpGateway), "nessun router UPnP/IGD disponibile");
    assert_eq!(
        describe_hint(&NatHint::PublicAddress(IpAddr::V4([1, 2, 3, 4]))),
        "IP pubblico diretto (1.2.3.4), nessun NAT"
    );
    assert_eq!(
        describe_hint(&NatHint::SymmetricNat { ports: vec![1000, 2000] }),
        "NAT simmetrico probabile (stesso socket visto su porte diverse: [1000, 2000]); hole punching quasi impossibile verso peer anch'essi dietro NAT"
    );
    assert_eq!(format_ip(&IpAddr::V6([0x2001, 0xdb8, 0, 0, 0, 0, 0, 1])), "2001:db8::1");
}

#[test]
fn failures_are_explained() {
    let mut f = ConnectFailure::empty();
    f.have_observed_addr = true;
    assert_eq!(f.explain(), "Nessun indirizzo trovato per il peer (né nel ticket né nella DHT).\nIl ricevente è offline, oppure non ha ancora ottenuto una prenotazione relay\ne un annuncio DHT (attendere ~1 minuto dopo l'avvio di `lso receive`).");
    f.dial_errors = (0..8).map(|i| format!("e{i}")).collect();
    let text = f.explain();
    assert!(text.starts_with("Il peer non ha risposto su nessun indirizzo noto"));
    assert!(text.ends_with("\nErrori di connessione:\n  - e0\n  - e1\n  - e2\n  - e3\n  - e4\n  - e5"));
    f.relayed_connection = true;
    f.holepunch_error = Some("timeout".into());
    f.have_observed_addr = false;
    let text = f.explain();
    assert!(text.contains("non è riuscito: timeout.\n"));
    assert!(text.contains("\nATTENZIONE: nessun nodo pubblico"));
}

#[test]
fn connecting_answers_at_once_over_a_direct_connection() {
    let mut st = device(false);
    st.connection_established(7, peer(P2), addr("/ip4/1.2.3.4/udp/5/quic-v1"), false);
    let cmds = st.connect(1, Ticket { peer: peer(P2), addrs: vec![] }, 0);
    assert_eq!(cmds.len(), 1);
    match &cmds[0] {
        Command::Reply { reply: 1, result: Ok(c) } => {
            assert_eq!(c.addr.to_text(), "/ip4/1.2.3.4/udp/5/quic-v1");
            assert!(!c.hole_punched);
        }
        _ => panic!("expected an answer"),
    }
}

#[test]
fn relayed_connections_do_not_answer_requests() {
    let mut st = device(false);
    let cmds = st.connect(1, Ticket { peer: peer(P2), addrs: vec![addr("/ip4/1.2.3.4/tcp/1")] }, 0);
    assert!(cmds.iter().any(|c| matches!(c, Command::Dial { .. })));
    assert!(cmds.iter().any(|c| matches!(c, Command::LookupProviders { reply: 1, .. })));
    st.lookup_started(1, 99);
    let relayed = addr(&format!("/ip4/1.2.3.4/tcp/1/p2p/{P3}/p2p-circuit/p2p/{P2}"));
    let cmds = st.connection_established(3, peer(P2), relayed, true);
    assert!(replies(&cmds).is_empty());
    // The hole punch succeeds and a direct connection follows.
    st.hole_punch(&peer(P2), Ok(()));
    let cmds = st.connection_established(4, peer(P2), addr("/ip4/5.6.7.8/udp/9/quic-v1"), false);
    assert_eq!(replies(&cmds), vec![(1, true)]);
    assert!(cmds.iter().any(|c| matches!(c, Command::FinishQuery(99))));
    match cmds.iter().find(|c| matches!(c, Command::Reply { .. })) {
        Some(Command::Reply { result: Ok(c), .. }) => assert!(c.hole_punched),
        _ => panic!(),
    }
    // Answered once only.
    let cmds = st.connection_established(5, peer(P2), addr("/ip4/5.6.7.8/tcp/9"), false);
    assert!(replies(&cmds).is_empty());
}

#[test]
fn requests_time_out_with_what_was_learnt() {
    let mut st = device(false);
    st.connect(1, Ticket { peer: peer(P2), addrs: vec![] }, 1_000);
    st.outgoing_connection_error(&peer(P2), "refused".to_string());
    st.hole_punch(&peer(P2), Err("no luck".to_string()));
    st.hint(NatHint::DoubleNat);
    assert!(replies(&st.maintain(60_999)).is_empty());
    let cmds = st.maintain(61_000);
    assert_eq!(replies(&cmds), vec![(1, false)]);
    match cmds.iter().find(|c| matches!(c, Command::Reply { .. })) {
        Some(Command::Reply { result: Err(f), .. }) => {
            assert_eq!(f.dial_errors, vec!["refused".to_string()]);
            assert_eq!(f.holepunch_error.as_deref(), Some("no luck"));
            assert_eq!(f.local_hints, vec![NatHint::DoubleNat]);
            assert!(!f.have_observed_addr);
        }
        _ => panic!(),
    }
    assert!(replies(&st.maintain(70_000)).is_empty());
}

fn identify(observed: &str, hop: bool) -> IdentifyInfo {
    IdentifyInfo { observed: addr(observed), listen_addrs: vec![addr("/ip4/8.8.8.8/tcp/4001"), addr("/ip4/10.0.0.1/tcp/4001")], supports_hop: hop, is_dht_server: true }
}

#[test]
fn identify_teaches_addresses_nat_and_relays() {
    let mut st = device(true);
    st.new_listen_addr(addr("/ip4/192.168.1.2/udp/4001/quic-v1"));
    st.connection_established(1, peer(P2), addr("/ip4/8.8.8.8/udp/4001/quic-v1"), false);
    let cmds = st.identify_received(peer(P2), 1, identify("/ip4/5.5.5.5/udp/4001/quic-v1", true));
    assert!(cmds.iter().any(|c| matches!(c, Command::Emit(NodeEvent::ObservedAddr { .. }))));
    let kad: Vec<String> = cmds.iter().filter_map(|c| match c { Command::AddKadAddress { addr, .. } => Some(addr.to_text()), _ => None }).collect();
    assert_eq!(kad, vec!["/ip4/8.8.8.8/tcp/4001".to_string()]);
    // A second observer sees the same socket on another port: symmetric NAT.
    st.connection_established(2, peer(P3), addr("/ip4/9.9.9.9/udp/4001/quic-v1"), false);
    let cmds = st.identify_received(peer(P3), 2, identify("/ip4/5.5.5.5/udp/4999/quic-v1", false));
    assert!(cmds.iter().any(|c| matches!(c, Command::Emit(NodeEvent::NatHint(NatHint::SymmetricNat { ports })) if ports == &vec![4001, 4999])));
    let snap = st.snapshot(3);
    assert_eq!(snap.hints, vec![NatHint::SymmetricNat { ports: vec![4001, 4999] }]);
    assert_eq!(snap.observed_addrs.iter().map(|a| a.to_text()).collect::<Vec<_>>(), vec!["/ip4/5.5.5.5/udp/4001/quic-v1", "/ip4/5.5.5.5/udp/4999/quic-v1"]);
    // The same report again is no news.
    let cmds = st.identify_received(peer(P3), 2, identify("/ip4/5.5.5.5/udp/4999/quic-v1", false));
    assert!(!cmds.iter().any(|c| matches!(c, Command::Emit(_))));
    // P2 offers to relay and was reached on a public address: a reservation is asked for.
    let cmds = st.maintain(0);
    let circuits: Vec<String> = cmds.iter().filter_map(|c| match c { Command::ListenOnCircuit { addr, .. } => Some(addr.to_text()), _ => None }).collect();
    assert_eq!(circuits, vec![format!("/ip4/8.8.8.8/udp/4001/quic-v1/p2p/{P2}/p2p-circuit")]);
    // Not asked again while backed off, even without a listener.
    assert!(!st.maintain(1_000).iter().any(|c| matches!(c, Command::ListenOnCircuit { .. })));
    assert!(st.maintain(120_000).iter().any(|c| matches!(c, Command::ListenOnCircuit { .. })));
}

#[test]
fn seen_on_our_own_interface_means_no_nat() {
    let mut st = device(false);
    st.new_listen_addr(addr("/ip4/8.8.4.4/tcp/4001"));
    let cmds = st.identify_received(peer(P2), 1, identify("/ip4/8.8.4.4/tcp/4001", false));
    assert!(cmds.iter().any(|c| matches!(c, Command::Emit(NodeEvent::NatHint(NatHint::PublicAddress(IpAddr::V4([8, 8, 4, 4])))))));
}

#[test]
fn announcements_need_a_confirmed_reservation() {
    let mut st = device(true);
    st.reservation_requested(10, peer(P2));
    assert!(!st.maintain(0).iter().any(|c| matches!(c, Command::StartProviding)));
    let cmds = st.reservation_accepted(&peer(P2), false);
    assert!(matches!(&cmds[0], Command::Emit(NodeEvent::ReservationAccepted { .. })));
    assert!(st.maintain(0).iter().any(|c| matches!(c, Command::StartProviding)));
    st.announce_started(5, 0);
    assert!(!st.maintain(1).iter().any(|c| matches!(c, Command::StartProviding)));
    let cmds = st.providing_done(5, Ok(()));
    assert!(matches!(&cmds[0], Command::Emit(NodeEvent::Announced)));
    // Periodically again.
    assert!(!st.maintain(599_999).iter().any(|c| matches!(c, Command::StartProviding)));
    assert!(st.maintain(600_000).iter().any(|c| matches!(c, Command::StartProviding)));
    // Losing the reservation calls for a new announcement once another is held.
    let cmds = st.listener_closed(10);
    assert!(matches!(&cmds[0], Command::Emit(NodeEvent::ReservationLost { .. })));
    assert!(st.snapshot(0).reservations.is_empty());
}

#[test]
fn devices_that_do_not_want_to_be_reached_keep_no_reservations() {
    let mut st = device(false);
    st.reservation_requested(10, peer(P2));
    st.reservation_accepted(&peer(P2), false);
    assert!(!st.maintain(0).iter().any(|c| matches!(c, Command::StartProviding | Command::ListenOnCircuit { .. })));
    let infra = ControlState::new(peer(P1), true, Role::Infrastructure);
    let mut infra = infra;
    infra.reservation_requested(10, peer(P2));
    infra.reservation_accepted(&peer(P2), false);
    assert!(!infra.maintain(0).iter().any(|c| matches!(c, Command::StartProviding)));
}

#[test]
fn snapshots_make_tickets() {
    let mut st = device(false);
    st.new_listen_addr(addr("/ip4/192.168.1.2/tcp/4001"));
    st.new_listen_addr(addr("/ip4/127.0.0.1/tcp/4001"));
    st.external_addr_confirmed(addr(&format!("/ip4/8.8.8.8/tcp/4001/p2p/{P3}/p2p-circuit/p2p/{P1}")));
    let snap = st.snapshot(0);
    assert!(snap.is_ready(false));
    let t = snap.ticket();
    assert_eq!(t.peer, peer(P1));
    let texts: Vec<String> = t.addrs.iter().map(|a| a.to_text()).collect();
    assert_eq!(texts, vec![format!("/ip4/8.8.8.8/tcp/4001/p2p/{P3}/p2p-circuit"), "/ip4/192.168.1.2/tcp/4001".to_string()]);
    assert!(!snap.is_ready(true));
}

#[test]
fn the_dht_finds_the_peer_of_a_request() {
    let mut st = device(false);
    st.connect(1, Ticket { peer: peer(P2), addrs: vec![] }, 0);
    st.connect(2, Ticket { peer: peer(P3), addrs: vec![] }, 0);
    st.lookup_started(1, 50);
    st.lookup_started(2, 51);
    let cmds = st.providers_found(50, &vec![peer(P3), peer(P2)]);
    assert_eq!(cmds.len(), 1);
    assert!(matches!(&cmds[0], Command::DialIfIdle { peer: p } if *p == peer(P2)));
    assert!(st.providers_found(51, &vec![peer(P2)]).is_empty());
    // Found in the DHT, then timed out: the diagnosis says it was found.
    let cmds = st.maintain(60_000);
    let found: Vec<(u64, bool)> = cmds
        .iter()
        .filter_map(|c| match c {
            Command::Reply { reply, result: Err(f) } => Some((*reply, f.found_in_dht)),
            _ => None,
        })
        .collect();
    assert_eq!(found, vec![(1, true), (2, false)]);
    assert!(cmds.iter().any(|c| matches!(c, Command::FinishQuery(50))));
}

#[test]
fn closed_connections_and_expired_addresses_are_forgotten() {
    let mut st = device(false);
    st.connection_established(1, peer(P2), addr("/ip4/1.2.3.4/tcp/1"), false);
    let cmds = st.connection_closed(1, peer(P2), false);
    assert!(matches!(&cmds[0], Command::Emit(NodeEvent::ConnectionClosed { relayed: false, .. })));
    let cmds = st.connect(9, Ticket { peer: peer(P2), addrs: vec![] }, 0);
    assert!(replies(&cmds).is_empty());
    st.new_listen_addr(addr("/ip4/192.168.1.2/tcp/1"));
    st.expired_listen_addr(&addr("/ip4/192.168.1.2/tcp/1"));
    st.external_addr_confirmed(addr("/ip4/8.8.8.8/tcp/1"));
    st.external_addr_expired(&addr("/ip4/8.8.8.8/tcp/1"));
    let snap = st.snapshot(0);
    assert!(snap.listen_addrs.is_empty());
    assert!(snap.external_addrs.is_empty());
    // A relay circuit is no listen address of ours.
    assert!(st.new_listen_addr(addr(&format!("/ip4/1.2.3.4/tcp/1/p2p/{P3}/p2p-circuit"))).is_empty());
}

#[test]
fn lan_peers_are_announced() {
    let st = device(false);
    let cmds = st.mdns_discovered(vec![(peer(P2), addr("/ip4/192.168.1.9/tcp/4001"))]);
    assert_eq!(cmds.len(), 2);
    assert!(matches!(&cmds[0], Command::AddPeerAddress { .. }));
    assert!(matches!(&cmds[1], Command::Emit(NodeEvent::LanPeer { .. })));
}

#[test]
fn one_hint_per_kind() {
    let mut st = device(false);
    assert!(st.hint(NatHint::DoubleNat).is_some());
    assert!(st.hint(NatHint::DoubleNat).is_none());
    assert!(st.hint(NatHint::SymmetricNat { ports: vec![1, 2] }).is_some());
    assert!(st.hint(NatHint::SymmetricNat { ports: vec![1, 2, 3] }).is_none());
    assert_eq!(st.snapshot(0).hints, vec![NatHint::DoubleNat, NatHint::SymmetricNat { ports: vec![1, 2, 3] }]);
}
