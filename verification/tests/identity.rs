use lso_core::config::{default_bootstrap, ipfs_bootstrap_list, AGENT_VERSION, TRANSFER_PROTOCOL};
use lso_core::identity::{from_test_seed, test_seed_secret};

#[test]
fn test_identities_are_deterministic() {
    let a = from_test_seed("ci-job-1").public().to_peer_id();
    let b = from_test_seed("ci-job-1").public().to_peer_id();
    let c = from_test_seed("ci-job-2").public().to_peer_id();
    assert_eq!(a, b);
    assert_ne!(a, c);
    let direct = libp2p::identity::Keypair::ed25519_from_bytes(test_seed_secret("ci-job-1")).unwrap();
    assert_eq!(direct.public().to_peer_id(), a);
}

#[test]
fn test_seed_secrets_are_sha256_of_the_seed() {
    let s = test_seed_secret("a");
    let hex: String = s.iter().map(|b| format!("{b:02x}")).collect();
    assert_eq!(hex, "ca978112ca1bbdcafac231b39a23dc4da786eff8147c4e72b9807785afee48bb");
}

#[test]
fn the_bootstrap_list_parses() {
    assert_eq!(ipfs_bootstrap_list().len(), 7);
    let list = default_bootstrap();
    assert_eq!(list.len(), 7);
    assert_eq!(list[5].to_text(), "/ip4/104.131.131.82/tcp/4001/p2p/QmaCpDMGvV2BGHeYERUEnRQAwe3N8SzbUtfsmvsqQLuvuJ");
    assert_eq!(TRANSFER_PROTOCOL, "/lso/transfer/1.0.0");
    assert!(AGENT_VERSION.starts_with("lso/"));
}
