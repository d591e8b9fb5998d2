use lso_core::addr::{Multiaddr, PeerId};
use lso_core::frontend::{
    bytes_before, describe_via, device_name, forget_contact, friendly_failure, is_contact, parse_address_list, remember,
    rename_contact, resolve_target, short, short_id, symmetric_nat, transfer_title, Contact, NetState, Throttle,
    TransferStage,
};
use lso_core::node::NatHint;
use lso_core::node::{ConnectFailure, Snapshot};
use lso_core::ticket::Ticket;

const P1: &str = "12D3KooWKnDdG3iXw9eTFijk3EWSunZcFi54Zka4wmtqtt6rPxc8";

fn addr(s: &str) -> Multiaddr {
    Multiaddr::parse(s).unwrap()
}

#[test]
fn peers_are_shortened() {
    assert_eq!(short(&PeerId::parse(P1).unwrap()), "…tt6rPxc8");
    assert_eq!(short_id(P1), "…6rPxc8");
    assert_eq!(short_id("abc"), "…abc");
}

#[test]
fn failures_in_plain_words() {
    let mut f = ConnectFailure::empty();
    assert_eq!(
        friendly_failure(&f),
        "Destinatario non trovato. L'app è aperta sull'altro dispositivo? Se è appena stata aperta, aspetta un minuto e riprova. Nota: la tua rete sembra bloccare le connessioni necessarie."
    );
    f.have_observed_addr = true;
    f.found_in_dht = true;
    assert!(friendly_failure(&f).starts_with("Il destinatario non risponde:"));
    f.relayed_connection = true;
    assert!(friendly_failure(&f).ends_with("il Wi‑Fi di casa su uno dei due dispositivi."));
}

#[test]
fn connections_described() {
    assert_eq!(describe_via(&addr("/ip4/192.168.1.5/udp/1/quic-v1"), false), "diretta in rete locale (QUIC)");
    assert_eq!(describe_via(&addr("/ip4/8.8.8.8/tcp/1"), true), "diretta via Internet, NAT attraversato (TCP)");
    assert_eq!(describe_via(&addr("/ip4/8.8.8.8/udp/1/quic-v1"), false), "diretta via Internet (QUIC)");
    assert_eq!(describe_via(&addr("/ip4/10.1.2.3/tcp/1"), true), "diretta in rete locale (TCP)");
}

#[test]
fn progress_updates_are_throttled() {
    let mut t = Throttle::new();
    assert!(t.ready(5));
    assert!(!t.ready(100));
    assert!(t.ready(125));
    assert!(!t.ready(244));
    assert!(t.ready(245));
}

fn snapshot() -> Snapshot {
    Snapshot {
        peer_id: Some(PeerId::parse(P1).unwrap()),
        listen_addrs: vec![],
        external_addrs: vec![],
        observed_addrs: vec![],
        reservations: vec![],
        routing_peers: 0,
        hints: vec![],
    }
}

#[test]
fn network_state_from_a_snapshot() {
    let mut s = snapshot();
    assert_eq!(NetState::of(&s), NetState::Offline);
    assert_eq!(NetState::of(&s).name(), "offline");
    s.routing_peers = 4;
    assert_eq!(NetState::of(&s).name(), "connecting");
    s.observed_addrs = vec![addr("/ip4/5.5.5.5/tcp/1")];
    assert_eq!(NetState::of(&s).name(), "limited");
    s.external_addrs = vec![addr(&format!("/ip4/8.8.8.8/tcp/1/p2p/{P1}/p2p-circuit"))];
    assert_eq!(NetState::of(&s), NetState::Limited);
    s.external_addrs.push(addr("/ip4/5.5.5.5/tcp/1"));
    assert_eq!(NetState::of(&s).name(), "online");
    let mut r = snapshot();
    r.reservations = vec![PeerId::parse(P1).unwrap()];
    assert_eq!(NetState::of(&r), NetState::Online);
}

#[test]
fn device_names_are_trimmed_and_cut() {
    assert_eq!(device_name("  Portatile  ").as_deref(), Some("Portatile"));
    assert_eq!(device_name("   "), None);
    let long = "x".repeat(100);
    assert_eq!(device_name(&long).unwrap().chars().count(), 64);
}

#[test]
fn contacts_are_remembered_most_recent_first() {
    let mut cs: Vec<Contact> = Vec::new();
    remember(&mut cs, "peerA", None, None, 10);
    assert_eq!(cs[0].name, "Dispositivo …peerA");
    remember(&mut cs, "peerB", Some("Ufficio"), Some("lso1xyz".to_string()), 20);
    assert_eq!(cs.iter().map(|c| c.peer_id.as_str()).collect::<Vec<_>>(), vec!["peerB", "peerA"]);
    remember(&mut cs, "peerA", Some("Casa"), None, 30);
    assert_eq!(cs[0].peer_id, "peerA");
    assert_eq!(cs[0].name, "Casa");
    assert_eq!(cs[0].last_seen, 30);
    assert_eq!(cs[1].ticket.as_deref(), Some("lso1xyz"));
    assert!(is_contact(&cs, "peerB"));
    rename_contact(&mut cs, "peerB", "  Lavoro ");
    assert_eq!(cs[1].name, "Lavoro");
    forget_contact(&mut cs, "peerB");
    assert!(!is_contact(&cs, "peerB"));
    assert_eq!(cs.len(), 1);
}

#[test]
fn targets_resolve_through_contacts() {
    let peer = PeerId::parse(P1).unwrap();
    let t = Ticket { peer: peer.clone(), addrs: vec![addr("/ip4/1.2.3.4/tcp/1")] };
    let mut cs = Vec::new();
    remember(&mut cs, P1, None, Some(t.encode()), 1);
    let r = resolve_target(&cs, P1).unwrap();
    assert_eq!(r.addrs.len(), 1);
    let r = resolve_target(&Vec::new(), P1).unwrap();
    assert!(r.addrs.is_empty());
    assert_eq!(r.peer, peer);
    assert_eq!(
        resolve_target(&cs, "boh").unwrap_err(),
        "Codice non valido: incolla il codice completo (inizia con lso1) oppure scegli un contatto"
    );
}

#[test]
fn transfers_are_titled_and_staged() {
    assert_eq!(transfer_title(&vec!["foto.jpg".to_string()]), "foto.jpg");
    assert_eq!(transfer_title(&vec!["a".to_string(), "b".to_string(), "c".to_string()]), "3 file");
    assert_eq!(transfer_title(&vec![]), "0 file");
    assert_eq!(bytes_before(&vec![10, 20, 30], 0), 0);
    assert_eq!(bytes_before(&vec![10, 20, 30], 2), 30);
    assert_eq!(TransferStage::of_send_error("rifiutato dal ricevente: no"), TransferStage::Rejected);
    assert_eq!(TransferStage::of_send_error("connessione interrotta").name(), "failed");
    assert_eq!(TransferStage::Transferring.name(), "transferring");
}

#[test]
fn symmetric_nat_is_flagged() {
    assert!(!symmetric_nat(&vec![NatHint::DoubleNat]));
    assert!(symmetric_nat(&vec![NatHint::DoubleNat, NatHint::SymmetricNat { ports: vec![1, 2] }]));
}

#[test]
fn address_lists_split_at_commas() {
    let v = parse_address_list(" /ip4/1.2.3.4/tcp/1 ,nope,, /ip4/5.6.7.8/udp/2/quic-v1");
    let texts: Vec<String> = v.iter().map(|a| a.to_text()).collect();
    // An empty field reads as the empty address, as `Multiaddr::from_str` has it.
    assert_eq!(texts, vec!["/ip4/1.2.3.4/tcp/1".to_string(), "".to_string(), "/ip4/5.6.7.8/udp/2/quic-v1".to_string()]);
    assert_eq!(parse_address_list("").len(), 1);
}

#[test]
fn remembering_sorts_any_list() {
    let c = |id: &str, seen: u64| Contact { peer_id: id.to_string(), name: id.to_string(), ticket: None, last_seen: seen };
    let mut cs = vec![c("old", 1), c("new", 50), c("mid", 20)];
    remember(&mut cs, "mid", None, None, 30);
    assert_eq!(cs.iter().map(|c| (c.peer_id.as_str(), c.last_seen)).collect::<Vec<_>>(), vec![("new", 50), ("mid", 30), ("old", 1)]);
}

#[test]
fn remembering_keeps_one_contact_per_peer() {
    let mut cs: Vec<Contact> = Vec::new();
    for (i, id) in ["a", "b", "a", "c", "b", "a"].iter().enumerate() {
        remember(&mut cs, id, None, None, i as u64);
    }
    let mut ids: Vec<&str> = cs.iter().map(|c| c.peer_id.as_str()).collect();
    assert_eq!(ids, vec!["a", "b", "c"]);
    ids.dedup();
    assert_eq!(ids.len(), 3);
}

#[test]
fn contacts_seen_at_the_same_time_keep_their_order() {
    let c = |id: &str, seen: u64| Contact { peer_id: id.to_string(), name: id.to_string(), ticket: None, last_seen: seen };
    let mut cs = vec![c("x", 5), c("y", 5), c("w", 9)];
    remember(&mut cs, "z", None, None, 1);
    assert_eq!(cs.iter().map(|c| c.peer_id.as_str()).collect::<Vec<_>>(), vec!["w", "x", "y", "z"]);
}
