//! A ticket is what the receiver hands to the sender out of band (chat, QR,
//! e-mail): its PeerId plus the addresses it believes are reachable right now.
//! The PeerId is the part that matters (it authenticates the remote); the
//! addresses are hints and may be stale, in which case the sender falls back
//! to a DHT lookup of the PeerId.
//!
//! On the wire: `lso1` followed by the URL-safe, unpadded base64 of the JSON
//! object with the fields `p` (the PeerId) and `a` (the list of addresses).
use vstd::prelude::*;
use vstd::string::StringSliceAdditionalSpecFns;
use base64::Engine;
use crate::addr::{Multiaddr, Part, PeerId, base58_of, multiaddr_parse, multiaddr_text, opt_addr_view, parts, peer_id_parse};
use crate::text::{append, collect_chars, push_char, trim, trim_bounds};
use crate::json::{find_field, json_field, json_parse, json_strings, parse_json, string_items, Json};

verus! {

/// The URL-safe base64 text, without padding, of a byte string.
pub uninterp spec fn base64url_encode(data: Seq<u8>) -> Seq<char>;

/// The bytes a URL-safe unpadded base64 text stands for, `None` if it is not
/// such a text.
pub uninterp spec fn base64url_decode(text: Seq<u8>) -> Option<Seq<u8>>;

/// The JSON string literal (quoted and escaped) of a text.
pub uninterp spec fn json_string(s: Seq<char>) -> Seq<char>;

/// Calls `base64::engine::general_purpose::URL_SAFE_NO_PAD.encode`. Trusted:
/// the result is the named encoding, and decoding it with the same engine
/// gives the bytes back (the engine writes no padding and decodes requiring
/// none).
#[verifier::external_body]
fn base64_encode(data: &[u8]) -> (r: String)
    ensures
        r@ == base64url_encode(data@),
        forall|i: int| 0 <= i < r@.len() ==> is_base64url_char(#[trigger] r@[i]),
        base64url_decode(vstd::utf8::encode_utf8(r@)) == Some(data@),
{
    base64::engine::general_purpose::URL_SAFE_NO_PAD.encode(data)
}

/// Calls `base64::engine::general_purpose::URL_SAFE_NO_PAD.decode`. Trusted:
/// the result is the named decoding of the text's bytes.
#[verifier::external_body]
fn base64_decode(text: &str) -> (r: Option<Vec<u8>>)
    ensures
        crate::addr::opt_bytes_view(r) == base64url_decode(text.spec_bytes()),
{
    base64::engine::general_purpose::URL_SAFE_NO_PAD.decode(text).ok()
}

/// Calls `serde_json::to_string` on a `str`. Trusted: the result is the JSON
/// string literal of `s` (serialising a `str` into memory cannot fail).
#[verifier::external_body]
fn json_string_literal(s: &str) -> (r: String)
    ensures
        r@ == json_string(s@),
{
    serde_json::to_string(s).unwrap_or_default()
}

pub open spec fn wire_fields_view(w: Option<Wire>) -> Option<(Seq<char>, Seq<Seq<char>>)> {
    match w {
        Some(w) => Some((w.p@, w.a@.map_values(|s: String| s@))),
        None => None,
    }
}

/// The fields of a ticket's JSON from a `p` and an `a`: the PeerId's text and
/// the list of the addresses' texts.
pub open spec fn wire_of_pair(p: Json, a: Json) -> Option<(Seq<char>, Seq<Seq<char>>)> {
    match (p, a) {
        (Json::Str(p), Json::Array(xs)) => match json_strings(xs@) {
            Some(a) => Some((p@, a)),
            None => None,
        },
        _ => None,
    }
}

/// The fields of a ticket's JSON value: an object with the members `p` (a
/// string) and `a` (a list of strings), other members ignored; or the list
/// of those two, in that order.
pub open spec fn wire_of_json(j: Json) -> Option<(Seq<char>, Seq<Seq<char>>)> {
    match j {
        Json::Object(fs) => match (json_field(fs@, seq!['p']), json_field(fs@, seq!['a'])) {
            (Some(p), Some(a)) => wire_of_pair(p, a),
            _ => None,
        },
        Json::Array(items) => if items@.len() == 2 {
            wire_of_pair(items@[0], items@[1])
        } else {
            None
        },
        _ => None,
    }
}

fn wire_from_pair(p: &Json, a: &Json) -> (r: Option<Wire>)
    ensures
        wire_fields_view(r) == wire_of_pair(*p, *a),
{
    match (p, a) {
        (Json::Str(t), Json::Array(xs)) => match string_items(xs) {
            Some(items) => Some(Wire { p: t.clone(), a: items }),
            None => None,
        },
        _ => None,
    }
}

/// Reads the fields of a ticket out of its JSON value.
pub fn wire_from_json(j: &Json) -> (r: Option<Wire>)
    ensures
        wire_fields_view(r) == wire_of_json(*j),
{
    match j {
        Json::Object(fs) => match (find_field(fs, 'p'), find_field(fs, 'a')) {
            (Some(i), Some(k)) => wire_from_pair(&fs[i].1, &fs[k].1),
            _ => None,
        },
        Json::Array(items) => {
            if items.len() == 2 {
                wire_from_pair(&items[0], &items[1])
            } else {
                None
            }
        },
        _ => None,
    }
}

/// A character of the URL-safe base64 alphabet.
pub open spec fn is_base64url_char(c: char) -> bool {
    crate::text::is_ascii_alnum(c) || c == '-' || c == '_'
}

/// `lso1`
pub open spec fn ticket_prefix() -> Seq<char> {
    seq!['l', 's', 'o', '1']
}

/// Items separated by commas.
pub open spec fn comma_joined(items: Seq<Seq<char>>) -> Seq<char>
    decreases items.len(),
{
    if items.len() == 0 {
        Seq::empty()
    } else if items.len() == 1 {
        items[0]
    } else {
        comma_joined(items.drop_last()) + seq![','] + items.last()
    }
}

/// The JSON text of a ticket with PeerId text `p` and address texts `a`, as
/// `serde_json` writes an object with the fields `p` and `a`, in that order.
pub open spec fn wire_json(p: Seq<char>, a: Seq<Seq<char>>) -> Seq<char> {
    seq![0x7bu8 as char, 0x22u8 as char, 'p', 0x22u8 as char, ':'] + json_string(p) + seq![
        ',',
        0x22u8 as char,
        'a',
        0x22u8 as char,
        ':',
        0x5bu8 as char,
    ] + comma_joined(a.map_values(|s: Seq<char>| json_string(s))) + seq![0x5du8 as char, 0x7du8 as char]
}

/// The fields of the JSON object inside a ticket.
#[derive(Debug, Clone)]
pub struct Wire {
    pub p: String,
    pub a: Vec<String>,
}

#[derive(Debug, Clone)]
pub struct Ticket {
    pub peer: PeerId,
    pub addrs: Vec<Multiaddr>,
}

pub open spec fn addr_texts(addrs: Seq<Multiaddr>) -> Seq<Seq<char>> {
    addrs.map_values(|a: Multiaddr| multiaddr_text(a@))
}

pub open spec fn encoded_ticket(peer: Seq<u8>, addrs: Seq<Multiaddr>) -> Seq<char> {
    ticket_prefix() + base64url_encode(vstd::utf8::encode_utf8(wire_json(base58_of(peer), addr_texts(addrs))))
}

/// Why a ticket could not be read.
#[derive(Debug)]
pub enum TicketError {
    /// The text does not start with `lso1` (white space around it aside).
    NotATicket,
    /// The text after `lso1` is not base64.
    BadEncoding,
    /// The decoded bytes are not the JSON object of a ticket.
    BadJson,
    /// The PeerId in the ticket is not one.
    BadPeerId,
    /// A bare destination that is neither a ticket nor a PeerId.
    NotTicketOrPeer,
}

impl Ticket {
    /// The fields of the JSON object: the PeerId's text and the addresses'.
    pub fn to_wire(&self) -> (w: Wire)
        ensures
            w.p@ == base58_of(self.peer@),
            peer_id_parse(w.p@) == Some(self.peer@),
            w.a@.len() == self.addrs@.len(),
            forall|i: int| 0 <= i < w.a@.len() ==> (#[trigger] w.a@[i])@ == multiaddr_text(self.addrs@[i]@),
    {
        let p = self.peer.to_base58();
        let mut a: Vec<String> = Vec::new();
        let mut i: usize = 0;
        while i < self.addrs.len()
            invariant
                i <= self.addrs@.len(),
                a@.len() == i,
                forall|j: int| 0 <= j < i ==> (#[trigger] a@[j])@ == multiaddr_text(self.addrs@[j]@),
            decreases self.addrs.len() - i,
        {
            a.push(self.addrs[i].to_text());
            i = i + 1;
        }
        Wire { p, a }
    }

    /// `lso1` followed by the base64 of the ticket's JSON.
    pub fn encode(&self) -> (r: String)
        ensures
            r@ == encoded_ticket(self.peer@, self.addrs@),
            // Reading the text back gives the same JSON.
            ticket_body(r@) == Some(Some(vstd::utf8::encode_utf8(wire_json(base58_of(self.peer@), addr_texts(self.addrs@))))),
            peer_id_parse(base58_of(self.peer@)) == Some(self.peer@),
    {
        let w = self.to_wire();
        let mut json = String::new();
        let open_brace = 0x7bu8 as char;
        let close_brace = 0x7du8 as char;
        let open_bracket = 0x5bu8 as char;
        let close_bracket = 0x5du8 as char;
        let quote = 0x22u8 as char;
        push_char(&mut json, open_brace);
        push_char(&mut json, quote);
        push_char(&mut json, 'p');
        push_char(&mut json, quote);
        push_char(&mut json, ':');
        let ps = json_string_literal(w.p.as_str());
        append(&mut json, ps.as_str());
        push_char(&mut json, ',');
        push_char(&mut json, quote);
        push_char(&mut json, 'a');
        push_char(&mut json, quote);
        push_char(&mut json, ':');
        push_char(&mut json, open_bracket);
        let ghost before = json@;
        let ghost texts = w.a@.map_values(|s: String| s@);
        let mut i: usize = 0;
        while i < w.a.len()
            invariant
                i <= w.a@.len(),
                texts == w.a@.map_values(|s: String| s@),
                json@ == before + comma_joined(texts.take(i as int).map_values(|s: Seq<char>| json_string(s))),
            decreases w.a.len() - i,
        {
            let item = json_string_literal(w.a[i].as_str());
            proof {
                let js = texts.take(i + 1).map_values(|s: Seq<char>| json_string(s));
                assert(js.drop_last() =~= texts.take(i as int).map_values(|s: Seq<char>| json_string(s)));
                assert(js.last() == item@);
            }
            if i > 0 {
                push_char(&mut json, ',');
            }
            append(&mut json, item.as_str());
            proof {
                let js = texts.take(i + 1).map_values(|s: Seq<char>| json_string(s));
                if i == 0 {
                    assert(texts.take(0).map_values(|s: Seq<char>| json_string(s)) =~= Seq::<Seq<char>>::empty());
                    assert(json@ =~= before + comma_joined(js));
                } else {
                    assert(json@ =~= before + comma_joined(js));
                }
            }
            i = i + 1;
        }
        push_char(&mut json, close_bracket);
        push_char(&mut json, close_brace);
        proof {
            assert(texts.take(w.a@.len() as int) =~= texts);
            assert(texts =~= addr_texts(self.addrs@));
            assert(json@ =~= wire_json(base58_of(self.peer@), addr_texts(self.addrs@)));
        }
        let body = base64_encode(json.as_str().as_bytes());
        let mut r = String::new();
        let prefix = "lso1";
        proof {
            reveal_strlit("lso1");
        }
        append(&mut r, prefix);
        append(&mut r, body.as_str());
        proof {
            lemma_trim_ticket(body@);
            assert(r@ =~= ticket_prefix() + body@);
            assert((ticket_prefix() + body@).take(4) =~= ticket_prefix());
            assert((ticket_prefix() + body@).skip(4) =~= body@);
        }
        r
    }
}

} // verus!

verus! {

pub open spec fn starts_with_prefix(t: Seq<char>) -> bool {
    t.len() >= 4 && t.take(4) == ticket_prefix()
}

/// The bytes inside a ticket text: after trimming white space and removing
/// `lso1`, the base64-decoded JSON; `None` where it is not a ticket, `Some(None)`
/// where the base64 is bad.
pub open spec fn ticket_body(s: Seq<char>) -> Option<Option<Seq<u8>>> {
    let t = trim(s);
    if starts_with_prefix(t) {
        Some(base64url_decode(vstd::utf8::encode_utf8(t.skip(4))))
    } else {
        None
    }
}

/// The addresses among `texts` that parse, in order.
pub open spec fn parsed_addrs(texts: Seq<Seq<char>>) -> Seq<Seq<u8>>
    decreases texts.len(),
{
    if texts.len() == 0 {
        Seq::empty()
    } else {
        match multiaddr_parse(texts.last()) {
            Some(b) => parsed_addrs(texts.drop_last()).push(b),
            None => parsed_addrs(texts.drop_last()),
        }
    }
}

pub open spec fn addrs_view(addrs: Seq<Multiaddr>) -> Seq<Seq<u8>> {
    addrs.map_values(|a: Multiaddr| a@)
}

fn starts_with_lso1(t: &Vec<char>, a: usize, b: usize) -> (r: bool)
    requires
        a <= b <= t@.len(),
    ensures
        r == starts_with_prefix(t@.subrange(a as int, b as int)),
{
    if b - a < 4 {
        return false;
    }
    let r = t[a] == 'l' && t[a + 1] == 's' && t[a + 2] == 'o' && t[a + 3] == '1';
    proof {
        let u = t@.subrange(a as int, b as int);
        if r {
            assert(u.take(4) =~= ticket_prefix());
        } else {
            assert(u.take(4)[0] == u[0] && u.take(4)[1] == u[1] && u.take(4)[2] == u[2] && u.take(4)[3] == u[3]);
        }
    }
    r
}

/// Is this text a ticket rather than a bare PeerId (`parse_target`)?
pub fn is_ticket_text(s: &str) -> (r: bool)
    ensures
        r == (s@.len() >= 4 && s@.take(4) == ticket_prefix()),
{
    let t = collect_chars(s);
    assert(t@.subrange(0, t@.len() as int) =~= t@);
    starts_with_lso1(&t, 0, t.len())
}

impl Ticket {
    /// The JSON bytes inside a ticket text.
    pub fn decode_body(s: &str) -> (r: Result<Vec<u8>, TicketError>)
        ensures
            ticket_body(s@) is None <==> r matches Err(TicketError::NotATicket),
            ticket_body(s@) == Some(Option::<Seq<u8>>::None) <==> r matches Err(TicketError::BadEncoding),
            r matches Ok(b) ==> ticket_body(s@) == Some(Some(b@)),
            ticket_body(s@) matches Some(Some(_)) ==> r is Ok,
    {
        let t = collect_chars(s);
        let (a, b) = trim_bounds(&t);
        if !starts_with_lso1(&t, a, b) {
            return Err(TicketError::NotATicket);
        }
        let mut rest = String::new();
        let mut i: usize = a + 4;
        while i < b
            invariant
                a + 4 <= b <= t@.len(),
                a + 4 <= i <= b,
                rest@ == t@.subrange(a + 4, i as int),
            decreases b - i,
        {
            push_char(&mut rest, t[i]);
            proof {
                assert(t@.subrange(a + 4, i + 1) =~= t@.subrange(a + 4, i as int).push(t@[i as int]));
            }
            i = i + 1;
        }
        assert(t@.subrange(a as int, b as int).skip(4) =~= rest@);
        match base64_decode(rest.as_str()) {
            Some(bytes) => Ok(bytes),
            None => Err(TicketError::BadEncoding),
        }
    }

    /// A ticket from the fields of its JSON object: the PeerId must parse;
    /// addresses that do not parse are left out.
    pub fn from_wire(w: &Wire) -> (r: Result<Ticket, TicketError>)
        ensures
            peer_id_parse(w.p@) is None <==> r is Err,
            r is Err ==> r matches Err(TicketError::BadPeerId),
            r matches Ok(t) ==> (Some(t.peer@) == peer_id_parse(w.p@) && addrs_view(t.addrs@)
                == parsed_addrs(w.a@.map_values(|x: String| x@))),
    {
        let peer = match PeerId::parse(w.p.as_str()) {
            Some(p) => p,
            None => {
                return Err(TicketError::BadPeerId);
            },
        };
        let ghost texts = w.a@.map_values(|x: String| x@);
        let mut addrs: Vec<Multiaddr> = Vec::new();
        let mut i: usize = 0;
        while i < w.a.len()
            invariant
                i <= w.a@.len(),
                texts == w.a@.map_values(|x: String| x@),
                addrs_view(addrs@) == parsed_addrs(texts.take(i as int)),
            decreases w.a.len() - i,
        {
            proof {
                assert(texts.take(i + 1).drop_last() =~= texts.take(i as int));
                assert(texts.take(i + 1).last() == w.a@[i as int]@);
            }
            match Multiaddr::parse(w.a[i].as_str()) {
                Some(m) => {
                    addrs.push(m);
                    proof {
                        assert(addrs_view(addrs@) =~= parsed_addrs(texts.take(i as int)).push(addrs@.last()@));
                    }
                },
                None => {},
            }
            i = i + 1;
        }
        assert(texts.take(w.a@.len() as int) =~= texts);
        Ok(Ticket { peer, addrs })
    }

    /// A ticket of just a PeerId, from a bare destination (white space
    /// around it is ignored).
    pub fn from_peer_text(s: &str) -> (r: Result<Ticket, TicketError>)
        ensures
            peer_id_parse(trim(s@)) is None <==> r matches Err(TicketError::NotTicketOrPeer),
            r is Err ==> r matches Err(TicketError::NotTicketOrPeer),
            r matches Ok(t) ==> Some(t.peer@) == peer_id_parse(trim(s@)) && t.addrs@.len() == 0,
    {
        let t = collect_chars(s);
        let (a, b) = trim_bounds(&t);
        let mut text = String::new();
        let mut i: usize = a;
        while i < b
            invariant
                a <= b <= t@.len(),
                a <= i <= b,
                text@ == t@.subrange(a as int, i as int),
            decreases b - i,
        {
            push_char(&mut text, t[i]);
            proof {
                assert(t@.subrange(a as int, i + 1) =~= t@.subrange(a as int, i as int).push(t@[i as int]));
            }
            i = i + 1;
        }
        match PeerId::parse(text.as_str()) {
            Some(peer) => Ok(Ticket { peer, addrs: Vec::new() }),
            None => Err(TicketError::NotTicketOrPeer),
        }
    }
}

/// The address without a trailing `/p2p/<peer>`, so it can be dialled for
/// any peer; other addresses are returned unchanged.
pub open spec fn stripped(a: Seq<Part>, peer: Seq<u8>) -> Seq<Part> {
    if a.len() > 0 && a.last() == Part::P2p(peer) {
        a.drop_last()
    } else {
        a
    }
}

/// The binary form of `addr` without a trailing `/p2p/<peer>`.
pub open spec fn stripped_bytes(addr: Seq<u8>, peer: Seq<u8>) -> Seq<u8> {
    if parts(addr).len() > 0 && parts(addr).last() == Part::P2p(peer) {
        crate::addr::multiaddr_pop_bytes(addr)
    } else {
        addr
    }
}

/// Removes a trailing `/p2p/<peer>` so addresses can be re-used with any dial.
pub fn strip_peer(addr: Multiaddr, peer: &PeerId) -> (r: Multiaddr)
    ensures
        parts(r@) == stripped(parts(addr@), peer@),
        r@ == stripped_bytes(addr@, peer@),
        !(parts(addr@).len() > 0 && parts(addr@).last() == Part::P2p(peer@)) ==> r@ == addr@,
{
    let mut addr = addr;
    let cs = addr.components();
    let n = cs.len();
    if n > 0 {
        let ghost ps = crate::addr::parts_of(cs@);
        let last_is_peer = match &cs[n - 1] {
            crate::addr::Component::P2p(b) => crate::addr::bytes_eq(b, &peer.to_bytes()),
            _ => false,
        };
        proof {
            assert(ps.last() == cs@[n - 1]@);
        }
        if last_is_peer {
            addr.pop();
        }
    }
    addr
}


proof fn lemma_trim_ticket(body: Seq<char>)
    requires
        forall|i: int| 0 <= i < body.len() ==> is_base64url_char(#[trigger] body[i]),
    ensures
        trim(ticket_prefix() + body) == ticket_prefix() + body,
{
    let s = ticket_prefix() + body;
    assert(s[0] == 'l');
    assert(!crate::text::is_whitespace(s[0]));
    if body.len() > 0 {
        assert(s.last() == body[body.len() - 1]);
        assert(is_base64url_char(body[body.len() - 1]));
    } else {
        assert(s.last() == '1');
    }
    assert(!crate::text::is_whitespace(s.last()));
}

/// A PeerId's own text, as `PeerId::to_base58` writes it (base58 that reads
/// back as the PeerId), is a destination that stands for that peer, with no
/// addresses.
pub proof fn law_peer_text_is_target(text: Seq<char>, peer: Seq<u8>)
    requires
        peer_id_parse(text) == Some(peer),
        forall|i: int| 0 <= i < text.len() ==> crate::addr::is_base58_char(#[trigger] text[i]),
    ensures
        parsed_target(text) == Ok::<(Seq<u8>, Seq<Seq<u8>>), TicketError>((peer, Seq::empty())),
{
    if text.len() >= 4 {
        assert(crate::addr::is_base58_char(text[0]));
        assert(text.take(4)[0] == text[0]);
        assert(text.take(4) != ticket_prefix());
    }
    if text.len() > 0 {
        assert(crate::addr::is_base58_char(text[0]));
        assert(!crate::text::is_whitespace(text[0]));
        assert(crate::addr::is_base58_char(text[text.len() - 1]));
        assert(!crate::text::is_whitespace(text.last()));
    }
    assert(trim(text) == text);
}

/// Addresses whose text reads back as the same address.
pub open spec fn texts_roundtrip(addrs: Seq<Multiaddr>) -> bool {
    forall|i: int| 0 <= i < addrs.len() ==> multiaddr_parse(multiaddr_text(#[trigger] addrs[i]@)) == Some(addrs[i]@)
}

proof fn lemma_parsed_texts(addrs: Seq<Multiaddr>)
    requires
        texts_roundtrip(addrs),
    ensures
        parsed_addrs(addr_texts(addrs)) == addrs_view(addrs),
    decreases addrs.len(),
{
    if addrs.len() > 0 {
        let d = addrs.drop_last();
        assert(texts_roundtrip(d)) by {
            assert forall|i: int| 0 <= i < d.len() implies multiaddr_parse(multiaddr_text(#[trigger] d[i]@)) == Some(d[i]@) by {
                assert(d[i] == addrs[i]);
            }
        }
        lemma_parsed_texts(d);
        assert(addr_texts(addrs).drop_last() =~= addr_texts(d));
        assert(addrs_view(addrs) =~= addrs_view(d).push(addrs.last()@));
        assert(multiaddr_parse(multiaddr_text(addrs[addrs.len() - 1]@)) == Some(addrs[addrs.len() - 1]@));
    }
}

/// A ticket read back from its own fields (`from_wire` of `to_wire`) has the
/// same addresses, when each address's text reads back as that address (the
/// PeerId always comes back: see `to_wire`).
pub proof fn law_wire_roundtrip(addrs: Seq<Multiaddr>)
    requires
        texts_roundtrip(addrs),
    ensures
        parsed_addrs(addr_texts(addrs)) == addrs_view(addrs),
{
    lemma_parsed_texts(addrs);
}


/// What reading a ticket text gives: the error, or the peer and the
/// addresses that parse.
pub open spec fn decoded(s: Seq<char>) -> Result<(Seq<u8>, Seq<Seq<u8>>), TicketError> {
    match ticket_body(s) {
        None => Err(TicketError::NotATicket),
        Some(None) => Err(TicketError::BadEncoding),
        Some(Some(b)) => match json_parse(b) {
            None => Err(TicketError::BadJson),
            Some(j) => match wire_of_json(j) {
                None => Err(TicketError::BadJson),
                Some((p, a)) => match peer_id_parse(p) {
                    None => Err(TicketError::BadPeerId),
                    Some(peer) => Ok((peer, parsed_addrs(a))),
                },
            },
        },
    }
}

pub open spec fn ticket_view(r: Result<Ticket, TicketError>) -> Result<(Seq<u8>, Seq<Seq<u8>>), TicketError> {
    match r {
        Ok(t) => Ok((t.peer@, addrs_view(t.addrs@))),
        Err(e) => Err(e),
    }
}

impl Ticket {
    /// Reads a ticket text (white space around it is ignored). Addresses that
    /// do not parse are left out: they are hints only.
    pub fn decode(s: &str) -> (r: Result<Ticket, TicketError>)
        ensures
            ticket_view(r) == decoded(s@),
            // What `encode` writes for a peer and addresses reads back as that
            // peer and those addresses (each address whose text reads back).
            forall|peer: Seq<u8>, addrs: Seq<Multiaddr>|
                #![trigger wire_json(base58_of(peer), addr_texts(addrs))]
                ticket_body(s@) == Some(Some(vstd::utf8::encode_utf8(wire_json(base58_of(peer), addr_texts(addrs)))))
                && peer_id_parse(base58_of(peer)) == Some(peer) && texts_roundtrip(addrs)
                ==> ticket_view(r) == Ok::<(Seq<u8>, Seq<Seq<u8>>), TicketError>((peer, addrs_view(addrs))),
    {
        let body = match Ticket::decode_body(s) {
            Ok(b) => b,
            Err(e) => {
                return Err(e);
            },
        };
        let j = match parse_json(body.as_slice()) {
            Some(j) => j,
            None => {
                return Err(TicketError::BadJson);
            },
        };
        let w = match wire_from_json(&j) {
            Some(w) => w,
            None => {
                return Err(TicketError::BadJson);
            },
        };
        let r = Ticket::from_wire(&w);
        proof {
            assert forall|peer: Seq<u8>, addrs: Seq<Multiaddr>|
                #![trigger wire_json(base58_of(peer), addr_texts(addrs))]
                ticket_body(s@) == Some(Some(vstd::utf8::encode_utf8(wire_json(base58_of(peer), addr_texts(addrs)))))
                && peer_id_parse(base58_of(peer)) == Some(peer) && texts_roundtrip(addrs)
                implies ticket_view(r) == Ok::<(Seq<u8>, Seq<Seq<u8>>), TicketError>((peer, addrs_view(addrs))) by {
                lemma_parsed_texts(addrs);
                assert(wire_fields_view(Some(w)) == Some((base58_of(peer), addr_texts(addrs))));
            }
        }
        r
    }
}

/// What a destination the user typed stands for: a ticket when it starts
/// with `lso1`, else a bare PeerId (white space around it ignored).
pub open spec fn parsed_target(s: Seq<char>) -> Result<(Seq<u8>, Seq<Seq<u8>>), TicketError> {
    if starts_with_prefix(s) {
        decoded(s)
    } else {
        match peer_id_parse(trim(s)) {
            Some(p) => Ok((p, Seq::empty())),
            None => Err(TicketError::NotTicketOrPeer),
        }
    }
}

/// Reads whatever the user typed as destination: a ticket (starting with
/// `lso1`) or a bare PeerId.
pub fn parse_target(s: &str) -> (r: Result<Ticket, TicketError>)
    ensures
        ticket_view(r) == parsed_target(s@),
{
    if is_ticket_text(s) {
        Ticket::decode(s)
    } else {
        let r = Ticket::from_peer_text(s);
        proof {
            if r is Ok {
                assert(addrs_view(r->Ok_0.addrs@) =~= Seq::<Seq<u8>>::empty());
            }
        }
        r
    }
}

} // verus!
