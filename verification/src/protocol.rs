//! The `/lso/transfer/1.0.0` and `/lso/pull/1.0.0` stream protocols: messages,
//! framing and the checks made on what arrives.
//!
//! Wire format, all integers big-endian:
//!
//! ```text
//! S->R  "LSO1" | u32 len | JSON Offer {files:[{name,size}], from}
//! R->S  u32 len | JSON Answer {accept, offsets:[u64], reason, name?}
//! for each file i:
//!   S->R  raw bytes [offsets[i] .. size)
//!   S->R  32-byte BLAKE3 of the *whole* file
//!   R->S  1 byte: 0 = hash verified and file stored, 1 = mismatch
//! ```
//!
//! The JSON bodies are read and written by the runtime; this module frames
//! them and decides what is acceptable.
use vstd::prelude::*;
use crate::names::{sanitize_name, sanitized_name};

verus! {

/// A file on offer.
#[derive(Debug, Clone)]
pub struct FileEntry {
    pub name: String,
    pub size: u64,
}

/// What a sender proposes: the files and the sending device's name.
#[derive(Debug, Clone)]
pub struct Offer {
    pub files: Vec<FileEntry>,
    pub from: String,
}

/// The receiver's reply to an offer.
#[derive(Debug, Clone)]
pub struct Answer {
    pub accept: bool,
    /// How many bytes of each file the receiver already has.
    pub offsets: Vec<u64>,
    pub reason: Option<String>,
    /// Receiver's device name (optional).
    pub name: Option<String>,
}

/// "I have your code, send me the files".
#[derive(Debug, Clone)]
pub struct PullRequest {
    pub code: String,
    pub name: String,
}

/// Progress of a transfer, reported from real byte counts.
#[derive(Debug, Clone)]
pub enum Progress {
    /// Starting file `index`; `offset` bytes were already present (resume).
    FileStart { index: usize, name: String, size: u64, offset: u64 },
    /// Cumulative bytes of the current file that are done.
    Bytes { index: usize, done: u64 },
    /// File `index` was verified; on the receiver, where it was stored.
    FileVerified { index: usize, path: Option<String> },
}

/// Sum of the sizes of the files.
pub open spec fn sizes_sum(files: Seq<FileEntry>) -> int
    decreases files.len(),
{
    if files.len() == 0 {
        0
    } else {
        sizes_sum(files.drop_last()) + files.last().size
    }
}

impl Offer {
    /// Total number of bytes on offer.
    pub fn total_size(&self) -> (r: u64)
        requires
            sizes_sum(self.files@) <= u64::MAX,
        ensures
            r == sizes_sum(self.files@),
    {
        let mut total: u64 = 0;
        let mut i: usize = 0;
        while i < self.files.len()
            invariant
                i <= self.files@.len(),
                sizes_sum(self.files@) <= u64::MAX,
                total == sizes_sum(self.files@.take(i as int)),
            decreases self.files.len() - i,
        {
            proof {
                assert(self.files@.take(i + 1).drop_last() =~= self.files@.take(i as int));
                lemma_sizes_sum_prefix(self.files@, i + 1);
            }
            total = total + self.files[i].size;
            i = i + 1;
        }
        assert(self.files@.take(self.files@.len() as int) =~= self.files@);
        total
    }
}

/// A prefix never holds more bytes than the whole list.
pub proof fn lemma_sizes_sum_prefix(files: Seq<FileEntry>, k: int)
    requires
        0 <= k <= files.len(),
    ensures
        sizes_sum(files.take(k)) <= sizes_sum(files),
    decreases files.len(),
{
    if k < files.len() {
        assert(files.drop_last().take(k) =~= files.take(k));
        lemma_sizes_sum_prefix(files.drop_last(), k);
    } else {
        assert(files.take(k) =~= files);
    }
}

/// Bytes at the start of a transfer stream: `LSO1`.
pub open spec fn transfer_magic() -> Seq<u8> {
    seq![0x4cu8, 0x53u8, 0x4fu8, 0x31u8]
}

/// Bytes at the start of a pull stream: `LSOP`.
pub open spec fn pull_magic() -> Seq<u8> {
    seq![0x4cu8, 0x53u8, 0x4fu8, 0x50u8]
}

pub fn transfer_magic_bytes() -> (r: [u8; 4])
    ensures
        r@ == transfer_magic(),
{
    let r = [0x4cu8, 0x53u8, 0x4fu8, 0x31u8];
    assert(r@ =~= transfer_magic());
    r
}

pub fn pull_magic_bytes() -> (r: [u8; 4])
    ensures
        r@ == pull_magic(),
{
    let r = [0x4cu8, 0x53u8, 0x4fu8, 0x50u8];
    assert(r@ =~= pull_magic());
    r
}

/// Size of the chunks file data moves in.
pub const CHUNK: usize = 262144;

/// Largest JSON header accepted.
pub const MAX_HEADER: u32 = 1048576;

/// Most files one offer may hold.
pub const MAX_FILES: usize = 10000;

/// Why a stream is refused.
#[derive(Debug)]
pub enum ProtocolError {
    /// The stream does not start with `LSO1`.
    NotATransfer,
    /// The stream does not start with `LSOP`.
    NotAPullRequest,
    /// A JSON header longer than `MAX_HEADER`.
    HeaderTooLarge,
    /// More than `MAX_FILES` files on offer.
    TooManyFiles,
    /// A file name that cannot be stored.
    InvalidName(String),
}

/// Big-endian bytes of a 32-bit length.
pub open spec fn be32(n: u32) -> Seq<u8> {
    seq![
        (n / 0x1000000) as u8,
        ((n / 0x10000) % 0x100) as u8,
        ((n / 0x100) % 0x100) as u8,
        (n % 0x100) as u8,
    ]
}

/// The number a 4-byte big-endian prefix holds.
pub open spec fn be32_value(b: Seq<u8>) -> int {
    b[0] * 0x1000000 + b[1] * 0x10000 + b[2] * 0x100 + b[3]
}

/// A header on the wire: the body's length as a 32-bit big-endian number
/// (cut to 32 bits, as a conversion to `u32` does), then the body.
pub open spec fn framed(body: Seq<u8>) -> Seq<u8> {
    be32((body.len() % 0x1_0000_0000) as u32) + body
}

/// Frames a JSON body.
pub fn frame(body: &[u8]) -> (r: Vec<u8>)
    ensures
        r@ == framed(body@),
{
    let n: u32 = (body.len() as u64 % 0x1_0000_0000u64) as u32;
    let mut r: Vec<u8> = Vec::new();
    r.push((n / 0x1000000) as u8);
    r.push(((n / 0x10000) % 0x100) as u8);
    r.push(((n / 0x100) % 0x100) as u8);
    r.push((n % 0x100) as u8);
    let mut i: usize = 0;
    while i < body.len()
        invariant
            i <= body@.len(),
            r@ == be32(n) + body@.take(i as int),
        decreases body.len() - i,
    {
        r.push(body[i]);
        proof {
            assert(body@.take(i + 1) =~= body@.take(i as int).push(body@[i as int]));
        }
        i = i + 1;
    }
    assert(body@.take(body@.len() as int) =~= body@);
    r
}

/// Reads the length prefix of a header and refuses one longer than
/// `MAX_HEADER`.
pub fn header_len(prefix: &[u8; 4]) -> (r: Result<u32, ProtocolError>)
    ensures
        be32_value(prefix@) <= MAX_HEADER ==> (r matches Ok(n) && n == be32_value(prefix@)),
        be32_value(prefix@) > MAX_HEADER ==> r matches Err(ProtocolError::HeaderTooLarge),
{
    let n: u64 = (prefix[0] as u64) * 0x1000000 + (prefix[1] as u64) * 0x10000 + (prefix[2] as u64)
        * 0x100 + (prefix[3] as u64);
    if n > MAX_HEADER as u64 {
        Err(ProtocolError::HeaderTooLarge)
    } else {
        Ok(n as u32)
    }
}

/// Checks that a stream starts with `expected`.
pub fn check_magic(got: &[u8; 4], expected: &[u8; 4]) -> (r: bool)
    ensures
        r == (got@ == expected@),
{
    let ok = got[0] == expected[0] && got[1] == expected[1] && got[2] == expected[2] && got[3]
        == expected[3];
    if ok {
        assert(got@ =~= expected@);
    }
    ok
}

/// An offer a receiver may consider: few enough files, every name storable.
pub open spec fn offer_acceptable(files: Seq<FileEntry>) -> bool {
    files.len() <= MAX_FILES && forall|i: int|
        0 <= i < files.len() ==> sanitized_name(#[trigger] files[i].name@) is Some
}

/// Checks an offer read from the network (`read_offer`): at most `MAX_FILES`
/// files, and only names that `sanitize_name` accepts.
pub fn check_offer(offer: &Offer) -> (r: Result<(), ProtocolError>)
    ensures
        r is Ok <==> offer_acceptable(offer.files@),
        offer.files@.len() > MAX_FILES ==> r matches Err(ProtocolError::TooManyFiles),
        // Otherwise the first name that is refused is named.
        offer.files@.len() <= MAX_FILES && r is Err ==> (r matches Err(ProtocolError::InvalidName(n))
            && exists|j: int| 0 <= j < offer.files@.len() && n@ == (#[trigger] offer.files@[j]).name@
                && sanitized_name(offer.files@[j].name@) is None
                && forall|k: int| 0 <= k < j ==> sanitized_name((#[trigger] offer.files@[k]).name@) is Some),
{
    if offer.files.len() > MAX_FILES {
        return Err(ProtocolError::TooManyFiles);
    }
    let mut i: usize = 0;
    while i < offer.files.len()
        invariant
            i <= offer.files@.len(),
            offer.files@.len() <= MAX_FILES,
            forall|j: int| 0 <= j < i ==> sanitized_name(#[trigger] offer.files@[j].name@) is Some,
        decreases offer.files.len() - i,
    {
        match sanitize_name(offer.files[i].name.as_str()) {
            Ok(_) => {},
            Err(e) => {
                return Err(ProtocolError::InvalidName(e.name));
            },
        }
        i = i + 1;
    }
    Ok(())
}

/// How much is read or sent in one go when `left` bytes remain: a chunk, or
/// what is left when that is less.
pub open spec fn chunk_of(left: u64) -> int {
    if left < CHUNK as u64 { left as int } else { CHUNK as int }
}

/// Smaller of a chunk and what is left.
pub fn chunk_len(left: u64) -> (r: usize)
    ensures
        r as int == if left < CHUNK as u64 { left as int } else { CHUNK as int },
        left > 0 ==> r > 0,
{
    if left < CHUNK as u64 {
        left as usize
    } else {
        CHUNK
    }
}

/// How often opening a stream is tried. Right after hole punching there can
/// be several direct connections and the redundant ones get closed; a stream
/// asked for on a connection that is closing fails, and since nothing was sent
/// yet, asking again is safe.
pub const OPEN_ATTEMPTS: u64 = 4;

/// Before try `attempt` (counting from 0): how many milliseconds to wait,
/// longer each time; `None` once every try is spent.
pub fn open_retry_delay_ms(attempt: u64) -> (r: Option<u64>)
    ensures
        attempt < OPEN_ATTEMPTS ==> r == Some((500 * attempt) as u64),
        attempt >= OPEN_ATTEMPTS ==> r is None,
{
    if attempt < OPEN_ATTEMPTS {
        Some(500 * attempt)
    } else {
        None
    }
}

} // verus!
