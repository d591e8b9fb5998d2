//! Static configuration of the control plane.
use vstd::prelude::*;
use crate::addr::Multiaddr;

verus! {

/// Application protocol carried on direct connections only (data plane).
pub const TRANSFER_PROTOCOL: &'static str = "/lso/transfer/1.0.0";

/// Protocol by which a device that has a short code asks the sharing device
/// for its files (direct connections only, like the transfer).
pub const PULL_PROTOCOL: &'static str = "/lso/pull/1.0.0";

/// How long a short code stays valid, in seconds.
pub const CODE_TTL_SECS: u64 = 300;

/// Agent string announced through identify.
pub const AGENT_VERSION: &'static str = "lso/0.1.0";

/// Public IPFS/libp2p bootstrap nodes (the list kubo ships with).
///
/// They are not operated by this project and are only used to enter the
/// public Kademlia DHT. They are a soft point of centralisation: if all of
/// them are unreachable, a node that has never been online cannot join the
/// network. Users can override them.
pub open spec fn ipfs_bootstrap() -> Seq<Seq<char>> {
    seq![
        "/dnsaddr/bootstrap.libp2p.io/p2p/QmNnooDu7bfjPFoTZYxMNLWUQJyrVwtbZg5gBMjTezGAJN"@,
        "/dnsaddr/bootstrap.libp2p.io/p2p/QmQCU2EcMqAqQPR2i9bChDtGNJchTbq5TbXJJ16u19uLTa"@,
        "/dnsaddr/bootstrap.libp2p.io/p2p/QmbLHAnMoJPWSCR5Zhtx6BHJX9KiKNN6tpvbUcqanj75Nb"@,
        "/dnsaddr/bootstrap.libp2p.io/p2p/QmcZf59bWwK5XFi76CZX8cbJ4BhTzzA3gU1ZjYZcYW3dwt"@,
        "/dnsaddr/va1.bootstrap.libp2p.io/p2p/12D3KooWKnDdG3iXw9eTFijk3EWSunZcFi54Zka4wmtqtt6rPxc8"@,
        "/ip4/104.131.131.82/tcp/4001/p2p/QmaCpDMGvV2BGHeYERUEnRQAwe3N8SzbUtfsmvsqQLuvuJ"@,
        "/ip4/104.131.131.82/udp/4001/quic-v1/p2p/QmaCpDMGvV2BGHeYERUEnRQAwe3N8SzbUtfsmvsqQLuvuJ"@
    ]
}

/// The bootstrap list, as text.
pub fn ipfs_bootstrap_list() -> (r: Vec<&'static str>)
    ensures
        r@.map_values(|s: &str| s@) == ipfs_bootstrap(),
{
    let r = vec![
        "/dnsaddr/bootstrap.libp2p.io/p2p/QmNnooDu7bfjPFoTZYxMNLWUQJyrVwtbZg5gBMjTezGAJN",
        "/dnsaddr/bootstrap.libp2p.io/p2p/QmQCU2EcMqAqQPR2i9bChDtGNJchTbq5TbXJJ16u19uLTa",
        "/dnsaddr/bootstrap.libp2p.io/p2p/QmbLHAnMoJPWSCR5Zhtx6BHJX9KiKNN6tpvbUcqanj75Nb",
        "/dnsaddr/bootstrap.libp2p.io/p2p/QmcZf59bWwK5XFi76CZX8cbJ4BhTzzA3gU1ZjYZcYW3dwt",
        "/dnsaddr/va1.bootstrap.libp2p.io/p2p/12D3KooWKnDdG3iXw9eTFijk3EWSunZcFi54Zka4wmtqtt6rPxc8",
        "/ip4/104.131.131.82/tcp/4001/p2p/QmaCpDMGvV2BGHeYERUEnRQAwe3N8SzbUtfsmvsqQLuvuJ",
        "/ip4/104.131.131.82/udp/4001/quic-v1/p2p/QmaCpDMGvV2BGHeYERUEnRQAwe3N8SzbUtfsmvsqQLuvuJ",
    ];
    assert(r@.map_values(|s: &str| s@) =~= ipfs_bootstrap());
    r
}

/// The addresses among `texts` that parse, in order.
pub open spec fn parsed_list(texts: Seq<Seq<char>>) -> Seq<Seq<u8>>
    decreases texts.len(),
{
    if texts.len() == 0 {
        Seq::empty()
    } else {
        let rest = parsed_list(texts.drop_last());
        match crate::addr::multiaddr_parse(texts.last()) {
            Some(a) => rest.push(a),
            None => rest,
        }
    }
}

/// The bootstrap nodes to use when the user names none: those of the list
/// that parse.
pub fn default_bootstrap() -> (r: Vec<Multiaddr>)
    ensures
        crate::node::addr_views(r@) == parsed_list(ipfs_bootstrap()),
{
    let list = ipfs_bootstrap_list();
    let ghost texts = list@.map_values(|s: &str| s@);
    let mut r: Vec<Multiaddr> = Vec::new();
    let mut i: usize = 0;
    while i < list.len()
        invariant
            i <= list@.len(),
            texts == list@.map_values(|s: &str| s@),
            crate::node::addr_views(r@) == parsed_list(texts.take(i as int)),
        decreases list.len() - i,
    {
        proof {
            assert(texts.take(i + 1).drop_last() =~= texts.take(i as int));
            assert(texts.take(i + 1).last() == list@[i as int]@);
        }
        match Multiaddr::parse(list[i]) {
            Some(a) => {
                let ghost prev = r@;
                r.push(a);
                assert(crate::node::addr_views(r@) =~= crate::node::addr_views(prev).push(r@.last()@));
            },
            None => {},
        }
        i = i + 1;
    }
    assert(texts.take(list@.len() as int) =~= texts);
    r
}

} // verus!
