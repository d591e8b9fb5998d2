use lso_core::config::CODE_TTL_SECS;
use lso_core::rendezvous::{ShareAction, ShareEvent, ShareSession};
use lso_core::rendezvous::{code_from_bytes, code_matches, generate_code, key_for, key_for_code, normalize_code};
use lso_core::addr::PeerId;

#[test]
fn codes_roundtrip() {
    for _ in 0..100 {
        let c = generate_code().unwrap();
        assert_eq!(c.len(), 9);
        assert_eq!(normalize_code(&c).as_deref(), Some(c.as_str()));
        assert_eq!(
            normalize_code(&c.to_lowercase().replace('-', " ")).as_deref(),
            Some(c.as_str())
        );
    }
    assert!(normalize_code("ABC").is_none());
    assert_eq!(key_for_code("7F3K-9H2P"), key_for_code("7F3K-9H2P"));
}

#[test]
fn codes_normalize_loosely_typed_input() {
    assert_eq!(normalize_code(" 7f3k 9h2p ").as_deref(), Some("7F3K-9H2P"));
    assert_eq!(normalize_code("7F3K9H2P").as_deref(), Some("7F3K-9H2P"));
    assert_eq!(normalize_code("7f3k-9h2p").as_deref(), Some("7F3K-9H2P"));
    // Letters that are easy to misread are not in the alphabet.
    assert!(normalize_code("7F3K-9H2O").is_none());
    assert!(normalize_code("7F3K-9H2").is_none());
    assert!(normalize_code("7F3K-9H2PX").is_none());
}

#[test]
fn codes_come_from_their_bytes() {
    let c = code_from_bytes(&[0, 1, 2, 3, 30, 31, 62, 255]);
    assert_eq!(c.len(), 9);
    assert_eq!(&c[4..5], "-");
    assert_eq!(normalize_code(&c).as_deref(), Some(c.as_str()));
    assert_eq!(code_from_bytes(&[0; 8]), code_from_bytes(&[31; 8]));
}

#[test]
fn rendezvous_keys_are_sha256_multihashes() {
    let k = key_for_code("7F3K-9H2P").to_vec();
    assert_eq!(k.len(), 34);
    assert_eq!(&k[..2], &[0x12, 0x20]);
    assert_ne!(key_for_code("7F3K-9H2P"), key_for_code("7F3K-9H2Q"));
    let peer = PeerId::parse("12D3KooWKnDdG3iXw9eTFijk3EWSunZcFi54Zka4wmtqtt6rPxc8").unwrap();
    let d = key_for(&peer).to_vec();
    assert_eq!(d.len(), 34);
    assert_ne!(d, k);
}

#[test]
fn typed_codes_match_loosely() {
    assert!(code_matches("7f3k 9h2p", "7F3K-9H2P"));
    assert!(!code_matches("7F3K-9H2Q", "7F3K-9H2P"));
    assert!(!code_matches("nonsense", "7F3K-9H2P"));
}

#[test]
fn a_shared_code_is_good_once_and_expires() {
    let ttl = CODE_TTL_SECS * 1000;
    let mut s = ShareSession::new("7F3K-9H2P".to_string(), 1_000);
    assert_eq!(s.expires_at_ms(), 1_000 + ttl);
    assert!(matches!(s.step(ShareEvent::Tick { now_ms: 2_000 }), ShareAction::Wait));
    let wrong = s.step(ShareEvent::Pull { typed: "7F3K-9H2Q".to_string(), now_ms: 3_000 });
    assert!(matches!(wrong, ShareAction::Answer { ok: false, send: false }));
    let right = s.step(ShareEvent::Pull { typed: "7f3k 9h2p".to_string(), now_ms: 4_000 });
    assert!(matches!(right, ShareAction::Answer { ok: true, send: true }));
    let again = s.step(ShareEvent::Pull { typed: "7F3K-9H2P".to_string(), now_ms: 5_000 });
    assert!(matches!(again, ShareAction::Answer { ok: false, send: false }));
    assert!(matches!(s.step(ShareEvent::Tick { now_ms: 1_000 + ttl }), ShareAction::Wait));

    let mut late = ShareSession::new("7F3K-9H2P".to_string(), 0);
    assert!(matches!(late.step(ShareEvent::Pull { typed: "7F3K-9H2P".to_string(), now_ms: ttl }), ShareAction::Expire));
    let mut idle = ShareSession::new("7F3K-9H2P".to_string(), 0);
    assert!(matches!(idle.step(ShareEvent::Tick { now_ms: ttl - 1 }), ShareAction::Wait));
    assert!(matches!(idle.step(ShareEvent::Tick { now_ms: ttl }), ShareAction::Expire));
}
