use base64::Engine;
use lso_core::addr::{Multiaddr, PeerId};
use lso_core::ticket::{self, strip_peer, Ticket, TicketError};

fn libp2p_peer() -> PeerId {
    let p = libp2p::identity::Keypair::generate_ed25519().public().to_peer_id();
    PeerId::from_bytes(&p.to_bytes()).unwrap()
}

#[test]
fn ticket_roundtrip() {
    let t = Ticket {
        peer: libp2p_peer(),
        addrs: vec![Multiaddr::parse("/ip4/1.2.3.4/udp/4001/quic-v1").unwrap()],
    };
    let back = Ticket::decode(&t.encode()).unwrap();
    assert_eq!(back.peer, t.peer);
    assert_eq!(back.addrs, t.addrs);
    assert!(ticket::parse_target(&t.peer.to_base58()).is_ok());
    assert!(ticket::parse_target("garbage").is_err());
}

#[test]
fn tickets_start_with_the_prefix_and_survive_white_space() {
    let t = Ticket { peer: libp2p_peer(), addrs: vec![] };
    let text = t.encode();
    assert!(text.starts_with("lso1"));
    assert!(text[4..].chars().all(|c| c.is_ascii_alphanumeric() || c == '-' || c == '_'));
    let back = Ticket::decode(&format!("  {text}\n")).unwrap();
    assert_eq!(back.peer, t.peer);
    assert!(back.addrs.is_empty());
}

#[test]
fn bad_tickets_say_why() {
    assert!(matches!(Ticket::decode("xyz"), Err(TicketError::NotATicket)));
    assert!(matches!(Ticket::decode("lso1***"), Err(TicketError::BadEncoding)));
    // "lso1" + base64 of `[1]`.
    assert!(matches!(Ticket::decode("lso1WzFd"), Err(TicketError::BadJson)));
    // base64 of {"p":"x","a":[]}
    assert!(matches!(Ticket::decode("lso1eyJwIjoieCIsImEiOltdfQ"), Err(TicketError::BadPeerId)));
    assert!(matches!(ticket::parse_target("garbage"), Err(TicketError::NotTicketOrPeer)));
}

#[test]
fn unparsable_ticket_addresses_are_left_out() {
    // {"p":"12D3KooWKnDdG3iXw9eTFijk3EWSunZcFi54Zka4wmtqtt6rPxc8","a":["nope","/ip4/1.2.3.4/tcp/1"]}
    let json = r#"{"p":"12D3KooWKnDdG3iXw9eTFijk3EWSunZcFi54Zka4wmtqtt6rPxc8","a":["nope","/ip4/1.2.3.4/tcp/1"]}"#;
    let text = format!("lso1{}", base64::engine::general_purpose::URL_SAFE_NO_PAD.encode(json));
    let t = Ticket::decode(&text).unwrap();
    assert_eq!(t.peer.to_base58(), "12D3KooWKnDdG3iXw9eTFijk3EWSunZcFi54Zka4wmtqtt6rPxc8");
    assert_eq!(t.addrs.len(), 1);
    assert_eq!(t.addrs[0].to_text(), "/ip4/1.2.3.4/tcp/1");
}

#[test]
fn bare_peer_ids_are_targets() {
    let t = ticket::parse_target("  12D3KooWKnDdG3iXw9eTFijk3EWSunZcFi54Zka4wmtqtt6rPxc8 ").unwrap();
    assert_eq!(t.peer.to_base58(), "12D3KooWKnDdG3iXw9eTFijk3EWSunZcFi54Zka4wmtqtt6rPxc8");
    assert!(t.addrs.is_empty());
}

#[test]
fn strip_peer_removes_only_a_trailing_own_id() {
    let p = "12D3KooWKnDdG3iXw9eTFijk3EWSunZcFi54Zka4wmtqtt6rPxc8";
    let peer = PeerId::parse(p).unwrap();
    let a = Multiaddr::parse(&format!("/ip4/1.2.3.4/tcp/1/p2p/{p}")).unwrap();
    assert_eq!(strip_peer(a, &peer).to_text(), "/ip4/1.2.3.4/tcp/1");
    let other = libp2p_peer();
    let b = Multiaddr::parse(&format!("/ip4/1.2.3.4/tcp/1/p2p/{p}")).unwrap();
    assert_eq!(strip_peer(b.clone(), &other), b);
    let c = Multiaddr::parse("/ip4/1.2.3.4/tcp/1").unwrap();
    assert_eq!(strip_peer(c.clone(), &peer), c);
}

fn ticket_of_json(json: &str) -> Result<Ticket, TicketError> {
    Ticket::decode(&format!("lso1{}", base64::engine::general_purpose::URL_SAFE_NO_PAD.encode(json)))
}

#[test]
fn ticket_json_may_be_a_list_or_carry_other_members() {
    let p = "12D3KooWKnDdG3iXw9eTFijk3EWSunZcFi54Zka4wmtqtt6rPxc8";
    let t = ticket_of_json(&format!(r#"["{p}",["/ip4/1.2.3.4/tcp/1"]]"#)).unwrap();
    assert_eq!(t.peer.to_base58(), p);
    assert_eq!(t.addrs[0].to_text(), "/ip4/1.2.3.4/tcp/1");
    let t = ticket_of_json(&format!(r#"{{"v":2,"a":[],"p":"{p}"}}"#)).unwrap();
    assert_eq!(t.peer.to_base58(), p);
    assert!(t.addrs.is_empty());
    assert!(matches!(ticket_of_json(&format!(r#"["{p}",[],1]"#)), Err(TicketError::BadJson)));
    assert!(matches!(ticket_of_json(&format!(r#"{{"p":"{p}","a":[1]}}"#)), Err(TicketError::BadJson)));
    assert!(matches!(ticket_of_json(&format!(r#"{{"p":"{p}"}}"#)), Err(TicketError::BadJson)));
    assert!(matches!(ticket_of_json("nope"), Err(TicketError::BadJson)));
}

#[test]
fn a_peer_text_is_a_target_for_that_peer() {
    let p = libp2p_peer();
    let t = ticket::parse_target(&p.to_base58()).unwrap();
    assert_eq!(t.peer, p);
    assert!(t.addrs.is_empty());
}
