//! Short codes and DHT rendezvous keys.
//!
//! A short code is eight symbols of an alphabet without look-alike characters,
//! shown as `XXXX-XXXX`. Whoever types it finds the sharing device through a
//! DHT provider record stored under a key derived from the code.
use vstd::prelude::*;
use vstd::string::StringSliceAdditionalSpecFns;
use crate::text::{is_ascii_alnum, ascii_upper, is_ascii_alnum_exec, ascii_upper_exec, push_char};
use crate::digest::{sha256, sha256_digest};

verus! {

/// Symbols a code is made of: no 0/O, 1/I/L.
pub open spec fn code_alphabet() -> Seq<char> {
    seq!['2', '3', '4', '5', '6', '7', '8', '9', 'A', 'B', 'C', 'D', 'E', 'F', 'G', 'H',
         'J', 'K', 'M', 'N', 'P', 'Q', 'R', 'S', 'T', 'U', 'V', 'W', 'X', 'Y', 'Z']
}

/// Number of symbols in the alphabet.
pub const CODE_ALPHABET_LEN: usize = 31;

/// The same set as `code_alphabet`, as a predicate.
pub open spec fn is_code_symbol(c: char) -> bool {
    ('2' <= c && c <= '9') || ('A' <= c && c <= 'Z' && c != 'I' && c != 'L' && c != 'O')
}

/// The alphanumeric characters of `s`, upper-cased; everything else is dropped.
pub open spec fn code_symbols(s: Seq<char>) -> Seq<char>
    decreases s.len(),
{
    if s.len() == 0 {
        Seq::empty()
    } else if is_ascii_alnum(s.last()) {
        code_symbols(s.drop_last()).push(ascii_upper(s.last()))
    } else {
        code_symbols(s.drop_last())
    }
}

/// Eight symbols shown as two groups of four.
pub open spec fn display_code(s: Seq<char>) -> Seq<char> {
    s.take(4) + seq!['-'] + s.skip(4)
}

/// What `normalize_code` gives for the typed text `input`.
pub open spec fn normalized_code(input: Seq<char>) -> Option<Seq<char>> {
    let s = code_symbols(input);
    if s.len() == 8 && (forall|i: int| 0 <= i < 8 ==> is_code_symbol(#[trigger] s[i])) {
        Some(display_code(s))
    } else {
        None
    }
}

/// The code made from eight random bytes: each byte picks a symbol modulo 31.
pub open spec fn code_symbols_of(bytes: Seq<u8>) -> Seq<char> {
    Seq::new(bytes.len(), |i: int| code_alphabet()[(bytes[i] % 31) as int])
}

pub open spec fn code_of(bytes: Seq<u8>) -> Seq<char> {
    display_code(code_symbols_of(bytes))
}

pub open spec fn opt_string_view(o: Option<String>) -> Option<Seq<char>> {
    match o {
        Some(s) => Some(s@),
        None => None,
    }
}

pub fn is_code_symbol_exec(c: char) -> (b: bool)
    ensures
        b == is_code_symbol(c),
{
    ('2' <= c && c <= '9') || ('A' <= c && c <= 'Z' && c != 'I' && c != 'L' && c != 'O')
}

fn alphabet_symbol(i: u8) -> (c: char)
    requires
        i < 31,
    ensures
        c == code_alphabet()[i as int],
{
    let a: [char; 31] = ['2', '3', '4', '5', '6', '7', '8', '9', 'A', 'B', 'C', 'D', 'E', 'F',
        'G', 'H', 'J', 'K', 'M', 'N', 'P', 'Q', 'R', 'S', 'T', 'U', 'V', 'W', 'X', 'Y', 'Z'];
    assert(a@ =~= code_alphabet());
    a[i as usize]
}

/// Writes eight symbols as `XXXX-XXXX`.
fn display(s: &Vec<char>) -> (r: String)
    requires
        s@.len() == 8,
    ensures
        r@ == display_code(s@),
{
    let mut r = String::new();
    let mut i: usize = 0;
    while i < 8
        invariant
            s@.len() == 8,
            i <= 8,
            r@ == (if i <= 4 { s@.take(i as int) } else { s@.take(4) + seq!['-'] + s@.subrange(4, i as int) }),
        decreases 8 - i,
    {
        if i == 4 {
            push_char(&mut r, '-');
            assert(s@.subrange(4, 4) =~= Seq::<char>::empty());
        }
        push_char(&mut r, s[i]);
        proof {
            if i < 4 {
                assert(s@.take(i as int).push(s@[i as int]) =~= s@.take(i + 1));
            } else {
                assert(s@.subrange(4, i as int).push(s@[i as int]) =~= s@.subrange(4, i + 1));
            }
        }
        i = i + 1;
    }
    assert(s@.subrange(4, 8) =~= s@.skip(4));
    r
}

/// Normalises what the user typed (case, spaces, dashes). Returns `None` if it
/// cannot be a valid code: it must hold exactly eight letters or digits, all of
/// the code alphabet.
pub fn normalize_code(input: &str) -> (r: Option<String>)
    ensures
        opt_string_view(r) == normalized_code(input@),
{
    let mut s: Vec<char> = Vec::new();
    for c in it: input.chars()
        invariant
            it.seq() == input@,
            s@ == code_symbols(it.seq().take(it.index() as int)),
    {
        proof {
            let t = it.seq().take(it.index() + 1);
            assert(t.drop_last() =~= it.seq().take(it.index() as int));
        }
        if is_ascii_alnum_exec(c) {
            s.push(ascii_upper_exec(c));
        }
    }
    assert(input@.take(input@.len() as int) =~= input@);
    if s.len() != 8 {
        return None;
    }
    let mut i: usize = 0;
    while i < 8
        invariant
            s@.len() == 8,
            s@ == code_symbols(input@),
            i <= 8,
            forall|j: int| 0 <= j < i ==> is_code_symbol(#[trigger] s@[j]),
        decreases 8 - i,
    {
        if !is_code_symbol_exec(s[i]) {
            assert(!is_code_symbol(s@[i as int]));
            return None;
        }
        i = i + 1;
    }
    Some(display(&s))
}

/// The code drawn from eight bytes: each byte chooses a symbol, modulo the
/// size of the alphabet.
pub fn code_from_bytes(bytes: &[u8; 8]) -> (r: String)
    ensures
        r@ == code_of(bytes@),
{
    let mut s: Vec<char> = Vec::new();
    let mut i: usize = 0;
    while i < 8
        invariant
            bytes@.len() == 8,
            i <= 8,
            s@ =~= code_symbols_of(bytes@).take(i as int),
        decreases 8 - i,
    {
        let c = alphabet_symbol(bytes[i] % 31);
        s.push(c);
        i = i + 1;
    }
    display(&s)
}

/// Eight bytes from the operating system's random source.
#[verifier::external_body]
fn random_bytes() -> (r: Option<[u8; 8]>) {
    let mut bytes = [0u8; 8];
    getrandom::fill(&mut bytes).ok().map(|_| bytes)
}

/// A fresh random short code, `None` if the operating system has no random
/// source to offer.
pub fn generate_code() -> (r: Option<String>)
    ensures
        r matches Some(c) ==> exists|b: Seq<u8>| b.len() == 8 && c@ == code_of(b),
{
    match random_bytes() {
        Some(bytes) => {
            let c = code_from_bytes(&bytes);
            Some(c)
        },
        None => None,
    }
}

} // verus!

verus! {

/// `char::to_ascii_lowercase`.
pub open spec fn ascii_lower(c: char) -> char {
    if 'A' <= c && c <= 'Z' {
        ((c as u32) + 32) as char
    } else {
        c
    }
}

/// A code as someone might type it: lower case, with a space for the dash.
pub open spec fn relaxed_form(s: Seq<char>) -> Seq<char> {
    s.map_values(|c: char| if c == '-' { ' ' } else { ascii_lower(c) })
}

proof fn lemma_code_symbols_concat(a: Seq<char>, b: Seq<char>)
    ensures
        code_symbols(a + b) == code_symbols(a) + code_symbols(b),
    decreases b.len(),
{
    if b.len() == 0 {
        assert(a + b =~= a);
        assert(code_symbols(a) + code_symbols(b) =~= code_symbols(a));
    } else {
        lemma_code_symbols_concat(a, b.drop_last());
        assert((a + b).drop_last() =~= a + b.drop_last());
        assert((a + b).last() == b.last());
        if is_ascii_alnum(b.last()) {
            assert(code_symbols(a) + code_symbols(b.drop_last()).push(ascii_upper(b.last()))
                =~= (code_symbols(a) + code_symbols(b.drop_last())).push(ascii_upper(b.last())));
        }
    }
}

/// A sequence of code symbols is its own symbol sequence.
proof fn lemma_code_symbols_of_symbols(s: Seq<char>)
    requires
        forall|i: int| 0 <= i < s.len() ==> is_code_symbol(#[trigger] s[i]),
    ensures
        code_symbols(s) == s,
    decreases s.len(),
{
    if s.len() > 0 {
        lemma_code_symbols_of_symbols(s.drop_last());
        assert(is_code_symbol(s[s.len() - 1]));
        assert(s.drop_last().push(s.last()) =~= s);
    }
}

proof fn lemma_alphabet_symbols()
    ensures
        forall|i: int| 0 <= i < 31 ==> is_code_symbol(#[trigger] code_alphabet()[i]),
{
    let a = code_alphabet();
    assert(a[0] == '2' && a[1] == '3' && a[2] == '4' && a[3] == '5' && a[4] == '6');
    assert(a[5] == '7' && a[6] == '8' && a[7] == '9' && a[8] == 'A' && a[9] == 'B');
    assert(a[10] == 'C' && a[11] == 'D' && a[12] == 'E' && a[13] == 'F' && a[14] == 'G');
    assert(a[15] == 'H' && a[16] == 'J' && a[17] == 'K' && a[18] == 'M' && a[19] == 'N');
    assert(a[20] == 'P' && a[21] == 'Q' && a[22] == 'R' && a[23] == 'S' && a[24] == 'T');
    assert(a[25] == 'U' && a[26] == 'V' && a[27] == 'W' && a[28] == 'X' && a[29] == 'Y');
    assert(a[30] == 'Z');
}

/// Every code that `generate_code` can produce is accepted unchanged by
/// `normalize_code`: a code read back as printed is the same code.
pub proof fn law_generated_code_normalizes(bytes: Seq<u8>)
    requires
        bytes.len() == 8,
    ensures
        normalized_code(code_of(bytes)) == Some(code_of(bytes)),
{
    let s = code_symbols_of(bytes);
    lemma_alphabet_symbols();
    assert forall|i: int| 0 <= i < s.len() implies is_code_symbol(#[trigger] s[i]) by {
        assert(0 <= (bytes[i] % 31) < 31);
    }
    lemma_code_symbols_concat(s.take(4) + seq!['-'], s.skip(4));
    lemma_code_symbols_concat(s.take(4), seq!['-']);
    assert(code_symbols(seq!['-']) =~= Seq::<char>::empty()) by {
        let d = seq!['-'];
        assert(d.len() == 1 && d.last() == '-');
        assert(!is_ascii_alnum(d.last()));
        assert(d.drop_last() =~= Seq::<char>::empty());
        assert(code_symbols(d.drop_last()) =~= Seq::<char>::empty());
    }
    lemma_code_symbols_of_symbols(s.take(4));
    lemma_code_symbols_of_symbols(s.skip(4));
    assert(s.take(4) + Seq::<char>::empty() + s.skip(4) =~= s);
    lemma_code_symbols_of_symbols(s);
}

proof fn lemma_relaxed_symbols(s: Seq<char>)
    ensures
        code_symbols(relaxed_form(s)) == code_symbols(s),
    decreases s.len(),
{
    if s.len() > 0 {
        lemma_relaxed_symbols(s.drop_last());
        assert(relaxed_form(s).drop_last() =~= relaxed_form(s.drop_last()));
        let c = s.last();
        let d = relaxed_form(s).last();
        if 'A' <= c && c <= 'Z' {
            assert(((c as u32) + 32) as char as u32 == (c as u32) + 32);
        }
        assert(is_ascii_alnum(d) == is_ascii_alnum(c));
        assert(is_ascii_alnum(c) ==> ascii_upper(d) == ascii_upper(c));
    }
}

/// A generated code typed in lower case, with a space in place of the dash,
/// normalises to the same code.
pub proof fn law_relaxed_code_normalizes(bytes: Seq<u8>)
    requires
        bytes.len() == 8,
    ensures
        normalized_code(relaxed_form(code_of(bytes))) == Some(code_of(bytes)),
{
    law_generated_code_normalizes(bytes);
    lemma_relaxed_symbols(code_of(bytes));
}

} // verus!

verus! {

/// The key of a DHT record: here a sha2-256 multihash, so that DHT servers
/// that expect CIDs or multihashes accept it.
#[derive(Debug, Clone, PartialEq, Eq, Hash)]
pub struct RecordKey {
    bytes: Vec<u8>,
}

impl View for RecordKey {
    type V = Seq<u8>;

    closed spec fn view(&self) -> Seq<u8> {
        self.bytes@
    }
}

impl RecordKey {
    pub fn to_vec(&self) -> (r: Vec<u8>)
        ensures
            r@ == self@,
    {
        self.bytes.clone()
    }

    pub fn eq(&self, other: &RecordKey) -> (r: bool)
        ensures
            r == (self@ == other@),
    {
        crate::addr::bytes_eq(&self.bytes, &other.bytes)
    }
}

/// Bytes of an ASCII text.
pub open spec fn ascii_bytes(s: Seq<char>) -> Seq<u8> {
    s.map_values(|c: char| c as u8)
}

/// `/lso/v1/rendezvous/`
pub open spec fn device_domain() -> Seq<char> {
    seq!['/', 'l', 's', 'o', '/', 'v', '1', '/', 'r', 'e', 'n', 'd', 'e', 'z', 'v', 'o', 'u', 's', '/']
}

/// `/lso/v1/code/`
pub open spec fn code_domain() -> Seq<char> {
    seq!['/', 'l', 's', 'o', '/', 'v', '1', '/', 'c', 'o', 'd', 'e', '/']
}

/// The sha2-256 multihash (code 0x12, length 0x20) of `domain ++ data`.
pub open spec fn rendezvous_key(domain: Seq<char>, data: Seq<u8>) -> Seq<u8> {
    seq![0x12u8, 0x20u8] + sha256(ascii_bytes(domain) + data)
}

fn push_ascii(v: &mut Vec<u8>, s: &str)
    requires
        vstd::string::is_ascii(s),
    ensures
        final(v)@ == old(v)@ + ascii_bytes(s@),
{
    let ghost start = old(v)@;
    for c in it: s.chars()
        invariant
            it.seq() == s@,
            vstd::string::is_ascii(s),
            v@ == start + ascii_bytes(it.seq().take(it.index() as int)),
    {
        proof {
            assert(ascii_bytes(it.seq().take(it.index() + 1)) =~= ascii_bytes(it.seq().take(it.index() as int)).push(c as u8));
        }
        v.push(c as u8);
    }
    assert(s@.take(s@.len() as int) =~= s@);
}

fn multihash_key(domain: &str, data: &[u8]) -> (k: RecordKey)
    requires
        vstd::string::is_ascii(domain),
    ensures
        k@ == rendezvous_key(domain@, data@),
        k@.len() == 34,
{
    let mut input: Vec<u8> = Vec::new();
    push_ascii(&mut input, domain);
    let mut i: usize = 0;
    while i < data.len()
        invariant
            i <= data@.len(),
            input@ == ascii_bytes(domain@) + data@.take(i as int),
        decreases data.len() - i,
    {
        input.push(data[i]);
        proof {
            assert(data@.take(i + 1) =~= data@.take(i as int).push(data@[i as int]));
        }
        i = i + 1;
    }
    assert(data@.take(data@.len() as int) =~= data@);
    let digest = sha256_digest(input.as_slice());
    let mut mh: Vec<u8> = Vec::new();
    mh.push(0x12u8);
    mh.push(0x20u8);
    let mut j: usize = 0;
    while j < digest.len()
        invariant
            j <= digest@.len(),
            mh@ == seq![0x12u8, 0x20u8] + digest@.take(j as int),
        decreases digest.len() - j,
    {
        mh.push(digest[j]);
        proof {
            assert(digest@.take(j + 1) =~= digest@.take(j as int).push(digest@[j as int]));
        }
        j = j + 1;
    }
    assert(digest@.take(digest@.len() as int) =~= digest@);
    RecordKey { bytes: mh }
}

/// The key under which a device announces itself: derived from its PeerId, so
/// anyone who knows the PeerId can look it up.
pub fn key_for(peer: &crate::addr::PeerId) -> (k: RecordKey)
    ensures
        k@ == rendezvous_key(device_domain(), peer@),
        k@.len() == 34,
{
    let domain = "/lso/v1/rendezvous/";
    proof {
        reveal_strlit("/lso/v1/rendezvous/");
        assert(domain@ =~= device_domain());
    }
    let bytes = peer.to_bytes();
    multihash_key(domain, bytes.as_slice())
}

/// The key under which a device that shares files with `code` announces itself.
pub fn key_for_code(code: &str) -> (k: RecordKey)
    ensures
        k@ == seq![0x12u8, 0x20u8] + sha256(ascii_bytes(code_domain()) + code.spec_bytes()),
        k@.len() == 34,
{
    let domain = "/lso/v1/code/";
    proof {
        reveal_strlit("/lso/v1/code/");
        assert(domain@ =~= code_domain());
    }
    multihash_key(domain, code.as_bytes())
}

/// Whether what the other device typed is the code being shared (typed
/// loosely, as `normalize_code` accepts it).
pub fn code_matches(typed: &str, code: &str) -> (r: bool)
    ensures
        r == (normalized_code(typed@) == Some(code@)),
{
    match normalize_code(typed) {
        Some(n) => crate::frontend::text_eq(n.as_str(), code),
        None => false,
    }
}

} // verus!

verus! {

/// Milliseconds a shared code stays valid.
pub open spec fn code_ttl_ms() -> int {
    crate::config::CODE_TTL_SECS * 1000
}

/// A code being shared: valid until `expires_at_ms` and good for one
/// transfer.
pub struct ShareSession {
    code: String,
    expires_at_ms: u64,
    used: bool,
}

/// What the runtime reports while a code is shared.
pub enum ShareEvent {
    /// A device asked for the files with the code it typed.
    Pull { typed: String, now_ms: u64 },
    /// Time passed with no request.
    Tick { now_ms: u64 },
}

/// What the runtime must do.
pub enum ShareAction {
    /// Answer the request: accepted or not, and whether to send the files.
    Answer { ok: bool, send: bool },
    /// Keep waiting for requests.
    Wait,
    /// The code expired unused: stop announcing it and give up.
    Expire,
}

impl ShareSession {
    pub closed spec fn code(&self) -> Seq<char> {
        self.code@
    }

    pub closed spec fn expires_at(&self) -> u64 {
        self.expires_at_ms
    }

    pub closed spec fn used(&self) -> bool {
        self.used
    }

    /// Starts sharing `code` at `now_ms`: valid for `CODE_TTL_SECS` seconds.
    pub fn new(code: String, now_ms: u64) -> (s: ShareSession)
        requires
            now_ms <= u64::MAX - code_ttl_ms(),
        ensures
            s.code() == code@,
            s.expires_at() == now_ms + code_ttl_ms(),
            !s.used(),
    {
        ShareSession { code, expires_at_ms: now_ms + crate::config::CODE_TTL_SECS * 1000, used: false }
    }

    /// When the code stops being valid.
    pub fn expires_at_ms(&self) -> (r: u64)
        ensures
            r == self.expires_at(),
    {
        self.expires_at_ms
    }

    /// Takes what happened and says what to do. A request before the code
    /// expires, while it is unused, with the code (typed loosely, as
    /// `normalize_code` accepts it) is accepted and the files are sent; it
    /// uses the code up. Every other request is refused. An unused code at
    /// or after its expiry expires, whatever the event.
    pub fn step(&mut self, ev: ShareEvent) -> (a: ShareAction)
        ensures
            final(self).code() == old(self).code(),
            final(self).expires_at() == old(self).expires_at(),
            old(self).used() ==> final(self).used(),
            a == share_next(old(self).code(), old(self).expires_at(), old(self).used(), ev),
            final(self).used() == (old(self).used() || a == (ShareAction::Answer { ok: true, send: true })),
    {
        match ev {
            ShareEvent::Pull { typed, now_ms } => {
                if !self.used && now_ms >= self.expires_at_ms {
                    return ShareAction::Expire;
                }
                if !self.used && code_matches(typed.as_str(), self.code.as_str()) {
                    self.used = true;
                    ShareAction::Answer { ok: true, send: true }
                } else {
                    ShareAction::Answer { ok: false, send: false }
                }
            },
            ShareEvent::Tick { now_ms } => {
                if !self.used && now_ms >= self.expires_at_ms {
                    ShareAction::Expire
                } else {
                    ShareAction::Wait
                }
            },
        }
    }
}

/// The action for `ev` on a code `code` valid until `expires`, `used` or not.
pub open spec fn share_next(code: Seq<char>, expires: u64, used: bool, ev: ShareEvent) -> ShareAction {
    match ev {
        ShareEvent::Pull { typed, now_ms } => if !used && now_ms >= expires {
            ShareAction::Expire
        } else if !used && normalized_code(typed@) == Some(code) {
            ShareAction::Answer { ok: true, send: true }
        } else {
            ShareAction::Answer { ok: false, send: false }
        },
        ShareEvent::Tick { now_ms } => if !used && now_ms >= expires {
            ShareAction::Expire
        } else {
            ShareAction::Wait
        },
    }
}

/// A shared code is good for one transfer: once used, no event leads to
/// sending the files again.
pub proof fn law_code_used_once(code: Seq<char>, expires: u64, ev: ShareEvent)
    ensures
        !(share_next(code, expires, true, ev) matches ShareAction::Answer { send: true, .. }),
{
}

/// A shared code expires: at or after its expiry an unused code sends
/// nothing, whatever is typed.
pub proof fn law_code_expires(code: Seq<char>, expires: u64, ev: ShareEvent)
    requires
        match ev {
            ShareEvent::Pull { now_ms, .. } => now_ms >= expires,
            ShareEvent::Tick { now_ms } => now_ms >= expires,
        },
    ensures
        share_next(code, expires, false, ev) == ShareAction::Expire,
{
}

} // verus!
