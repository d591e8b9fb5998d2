use lso_core::names::{part_file_name, peer_tag, sanitize_name, unique_candidate};
use lso_core::addr::PeerId;

#[test]
fn names_are_sanitized() {
    assert_eq!(sanitize_name("../../etc/passwd").unwrap(), "_.._etc_passwd");
    assert_eq!(sanitize_name("..\\x").unwrap(), "_x");
    assert_eq!(sanitize_name("foto.jpg").unwrap(), "foto.jpg");
    assert!(sanitize_name("..").is_err());
    assert!(sanitize_name("").is_err());
}

#[test]
fn sanitized_names_drop_unsafe_characters() {
    assert_eq!(sanitize_name("a:b*c?d\"e<f>g|h").unwrap(), "a_b_c_d_e_f_g_h");
    assert_eq!(sanitize_name("  .hidden  ").unwrap(), "hidden");
    assert_eq!(sanitize_name("tab\there").unwrap(), "tab_here");
    assert!(sanitize_name("   ").is_err());
    assert!(sanitize_name("...").is_err());
}

#[test]
fn sanitized_names_are_at_most_255_bytes() {
    let ok = "a".repeat(255);
    assert_eq!(sanitize_name(&ok).unwrap(), ok);
    assert!(sanitize_name(&"a".repeat(256)).is_err());
    // 128 two-byte characters are 256 bytes.
    assert!(sanitize_name(&"è".repeat(128)).is_err());
    assert!(sanitize_name(&"è".repeat(127)).is_ok());
}

#[test]
fn candidate_names_count_up_before_the_extension() {
    assert_eq!(unique_candidate("foto.jpg", 0), "foto.jpg");
    assert_eq!(unique_candidate("foto.jpg", 2), "foto (2).jpg");
    assert_eq!(unique_candidate("archivio.tar.gz", 1), "archivio.tar (1).gz");
    assert_eq!(unique_candidate("README", 3), "README (3)");
    assert_eq!(unique_candidate(".profile", 1), ".profile (1)");
}

#[test]
fn part_files_are_named_after_file_size_and_peer() {
    let peer = PeerId::parse("12D3KooWKnDdG3iXw9eTFijk3EWSunZcFi54Zka4wmtqtt6rPxc8").unwrap();
    let tag = peer_tag(&peer);
    assert_eq!(tag, "8cxPr6tt");
    assert_eq!(part_file_name("data.bin", 1024, &peer).unwrap(), format!(".data.bin.1024.{tag}.lso-part"));
    assert!(part_file_name("..", 1, &peer).is_err());
}
