//! The sending side of a transfer, as a state machine.
//!
//! The runtime opens the stream, writes the offer, reads the answer, and then
//! repeatedly performs the `SendAction` this machine returns and hands back
//! what happened as a `SendEvent`. The machine decides what is read from each
//! file, what is sent, what is hashed and when the transfer has succeeded:
//! only after the receiver confirmed the hash of every file.
use vstd::prelude::*;
use crate::digest::{blake3_finalize, blake3_hash, blake3_new, blake3_update, hasher_input};
use crate::protocol::{chunk_len, Answer, FileEntry, Progress, CHUNK};

verus! {

/// What the runtime reports back.
pub enum SendEvent {
    /// The last action was carried out.
    Ready,
    /// Bytes read from the open file.
    Read(Vec<u8>),
    /// The receiver's verdict byte.
    Verdict(u8),
}

/// What the runtime must do next.
pub enum SendAction {
    /// Open file `index` at its start and report `progress`; then `Ready`.
    OpenFile { index: usize, progress: Progress },
    /// Read at most `max` bytes from the open file; then `Read`.
    Read { max: usize },
    /// Position the open file at `offset`; then `Ready`.
    Seek { offset: u64 },
    /// Send `bytes` to the receiver and report `progress`; then `Ready`.
    Send { bytes: Vec<u8>, progress: Progress },
    /// Send the 32-byte `hash`, flush, and read the verdict byte; then `Verdict`.
    SendHash { hash: Vec<u8> },
    /// The receiver stored the file: report `progress`; then `Ready`.
    Verified { progress: Progress },
    /// Every file was sent and verified; the name the receiver announced.
    Done { receiver: Option<String> },
    /// The transfer failed.
    Fail(SendError),
}

/// Why sending failed.
#[derive(Debug)]
pub enum SendError {
    /// The receiver declined, with its reason (empty if none).
    Rejected(String),
    /// The answer does not hold one offset per file.
    OffsetsMismatch,
    /// The receiver claims more of a file than the file holds.
    OffsetBeyondSize,
    /// The file ended before the part the receiver already has.
    FileShorter,
    /// The file ended before its announced size.
    FileShrank { index: usize },
    /// The receiver found a different hash for this file.
    HashMismatch { name: String },
    /// The runtime reported something the machine did not ask for.
    UnexpectedEvent,
}

/// Where the machine stands in the current file.
pub enum SendPhase {
    /// About to open the next file (or to finish).
    Start,
    /// Hashing the part the receiver has; `left` bytes of it still to read.
    Prefix { left: u64 },
    /// Sending; `done` bytes of the file are read, hashed and (past the
    /// offset) sent.
    Body { done: u64 },
    /// The hash is sent; waiting for the verdict.
    AwaitVerdict,
    Finished,
    Failed,
}

pub struct Sender {
    files: Vec<FileEntry>,
    offsets: Vec<u64>,
    receiver: Option<String>,
    index: usize,
    phase: SendPhase,
    hasher: blake3::Hasher,
    /// Everything read from the current file.
    read: Ghost<Seq<u8>>,
    /// Everything sent of the current file.
    sent: Ghost<Seq<u8>>,
}

impl Sender {
    pub closed spec fn sizes(&self) -> Seq<u64> {
        self.files@.map_values(|f: FileEntry| f.size)
    }

    pub closed spec fn offsets(&self) -> Seq<u64> {
        self.offsets@
    }

    /// The names of the files, in order.
    pub closed spec fn names(&self) -> Seq<Seq<char>> {
        self.files@.map_values(|f: FileEntry| f.name@)
    }

    pub closed spec fn index(&self) -> nat {
        self.index as nat
    }

    pub closed spec fn phase(&self) -> SendPhase {
        self.phase
    }

    /// Bytes read from the current file so far, in order.
    pub closed spec fn read_bytes(&self) -> Seq<u8> {
        self.read@
    }

    /// Bytes of the current file sent so far, in order.
    pub closed spec fn sent_bytes(&self) -> Seq<u8> {
        self.sent@
    }

    /// The name the receiver announced, if any.
    pub closed spec fn receiver_name(&self) -> Option<Seq<char>> {
        crate::rendezvous::opt_string_view(self.receiver)
    }

    pub closed spec fn wf(&self) -> bool {
        &&& self.offsets@.len() == self.files@.len()
        &&& self.index <= self.files@.len()
        &&& hasher_input(self.hasher) == self.read@
        &&& match self.phase {
            SendPhase::Start => true,
            SendPhase::Prefix { left } => {
                &&& self.index < self.files@.len()
                &&& left <= self.offsets@[self.index as int]
                &&& self.offsets@[self.index as int] <= self.files@[self.index as int].size
                &&& self.read@.len() == self.offsets@[self.index as int] - left
                &&& self.sent@ == Seq::<u8>::empty()
            },
            SendPhase::Body { done } => {
                &&& self.index < self.files@.len()
                &&& self.offsets@[self.index as int] <= done <= self.files@[self.index as int].size
                &&& self.read@.len() == done
                &&& self.sent@ == self.read@.skip(self.offsets@[self.index as int] as int)
            },
            SendPhase::AwaitVerdict => {
                &&& self.index < self.files@.len()
                &&& self.offsets@[self.index as int] <= self.files@[self.index as int].size
                &&& self.read@.len() == self.files@[self.index as int].size
                &&& self.sent@ == self.read@.skip(self.offsets@[self.index as int] as int)
            },
            SendPhase::Finished => self.index == self.files@.len(),
            SendPhase::Failed => true,
        }
    }

    /// Starts sending `files` after the receiver's `answer` to the offer of
    /// those files.
    pub fn new(files: Vec<FileEntry>, answer: Answer) -> (r: Result<Sender, SendError>)
        ensures
            !answer.accept ==> (r matches Err(SendError::Rejected(m)) && m@ == match answer.reason {
                Some(x) => x@,
                None => Seq::<char>::empty(),
            }),
            answer.accept && answer.offsets@.len() != files@.len() ==> r matches Err(
                SendError::OffsetsMismatch,
            ),
            answer.accept && answer.offsets@.len() == files@.len() ==> (r matches Ok(s) && s.wf()
                && s.index() == 0 && s.phase() is Start && s.offsets() == answer.offsets@
                && s.sizes() == files@.map_values(|f: FileEntry| f.size)
                && s.names() == files@.map_values(|f: FileEntry| f.name@)
                && s.receiver_name() == crate::rendezvous::opt_string_view(answer.name)),
    {
        if !answer.accept {
            let reason = match answer.reason {
                Some(r) => r,
                None => String::new(),
            };
            return Err(SendError::Rejected(reason));
        }
        if answer.offsets.len() != files.len() {
            return Err(SendError::OffsetsMismatch);
        }
        Ok(Sender {
            files,
            offsets: answer.offsets,
            receiver: answer.name,
            index: 0,
            phase: SendPhase::Start,
            hasher: blake3_new(),
            read: Ghost(Seq::empty()),
            sent: Ghost(Seq::empty()),
        })
    }

    fn clone_name(s: &String) -> (r: String)
        ensures
            r@ == s@,
    {
        s.clone()
    }

    fn clone_opt(s: &Option<String>) -> (r: Option<String>)
        ensures
            crate::rendezvous::opt_string_view(r) == crate::rendezvous::opt_string_view(*s),
    {
        match s {
            Some(t) => Some(t.clone()),
            None => None,
        }
    }

    /// What to do next, from the state alone.
    fn decide(&mut self) -> (a: SendAction)
        requires
            old(self).wf(),
        ensures
            final(self).wf(),
            final(self).index() == old(self).index(),
            final(self).sizes() == old(self).sizes(),
            final(self).names() == old(self).names(),
            final(self).offsets() == old(self).offsets(),
            final(self).receiver_name() == old(self).receiver_name(),
            next_action(*old(self), *final(self), a),
    {
        match self.phase {
            SendPhase::Start => {
                if self.index == self.files.len() {
                    self.phase = SendPhase::Finished;
                    return SendAction::Done { receiver: Self::clone_opt(&self.receiver) };
                }
                let offset = self.offsets[self.index];
                let size = self.files[self.index].size;
                if offset > size {
                    self.phase = SendPhase::Failed;
                    return SendAction::Fail(SendError::OffsetBeyondSize);
                }
                self.hasher = blake3_new();
                self.read = Ghost(Seq::empty());
                self.sent = Ghost(Seq::empty());
                self.phase = SendPhase::Prefix { left: offset };
                SendAction::OpenFile {
                    index: self.index,
                    progress: Progress::FileStart {
                        index: self.index,
                        name: Self::clone_name(&self.files[self.index].name),
                        size,
                        offset,
                    },
                }
            },
            SendPhase::Prefix { left } => {
                if left > 0 {
                    SendAction::Read { max: chunk_len(left) }
                } else {
                    let offset = self.offsets[self.index];
                    self.phase = SendPhase::Body { done: offset };
                    proof {
                        assert(self.read@.skip(offset as int) =~= Seq::<u8>::empty());
                    }
                    SendAction::Seek { offset }
                }
            },
            SendPhase::Body { done } => {
                let size = self.files[self.index].size;
                if done < size {
                    SendAction::Read { max: chunk_len(size - done) }
                } else {
                    self.phase = SendPhase::AwaitVerdict;
                    SendAction::SendHash { hash: blake3_finalize(&self.hasher) }
                }
            },
            SendPhase::AwaitVerdict => self.fail(SendError::UnexpectedEvent),
            SendPhase::Finished => SendAction::Done { receiver: Self::clone_opt(&self.receiver) },
            SendPhase::Failed => self.fail(SendError::UnexpectedEvent),
        }
    }

    fn fail(&mut self, e: SendError) -> (a: SendAction)
        requires
            old(self).wf(),
        ensures
            final(self).wf(),
            final(self).phase() is Failed,
            final(self).index() == old(self).index(),
            final(self).sizes() == old(self).sizes(),
            final(self).offsets() == old(self).offsets(),
            final(self).names() == old(self).names(),
            a == SendAction::Fail(e),
            final(self).receiver_name() == old(self).receiver_name(),
    {
        self.phase = SendPhase::Failed;
        SendAction::Fail(e)
    }

    /// Takes the runtime's report of the last action and returns the next one.
    pub fn step(&mut self, ev: SendEvent) -> (a: SendAction)
        requires
            old(self).wf(),
        ensures
            final(self).wf(),
            final(self).sizes() == old(self).sizes(),
            final(self).offsets() == old(self).offsets(),
            // A file is opened only at an offset within it.
            a matches SendAction::OpenFile { index, progress } ==> (index == final(self).index()
                && final(self).phase() == (SendPhase::Prefix { left: final(self).offsets()[index as int] })
                && final(self).offsets()[index as int] <= final(self).sizes()[index as int]
                && (progress matches Progress::FileStart { index: i, size, offset, .. } && (i == index
                && size == final(self).sizes()[index as int] && offset == final(self).offsets()[index as int]))),
            // Only bytes just read are sent, after everything sent before,
            // and progress counts exactly them.
            a matches SendAction::Send { bytes, progress } ==> (ev matches SendEvent::Read(d)
                && (bytes@ == d@ && bytes@.len() > 0 && final(self).index() == old(self).index()
                && final(self).sent_bytes() == old(self).sent_bytes() + bytes@
                && (old(self).phase() matches SendPhase::Body { done: d0 }
                && (final(self).phase() == (SendPhase::Body { done: (d0 + bytes@.len()) as u64 })
                && (progress matches Progress::Bytes { index, done } && (index == old(self).index()
                && done == d0 + bytes@.len() && done <= old(self).sizes()[index as int])))))),
            // The hash covers the whole file, the part the receiver already had
            // included, and what was sent is the file past the offset.
            a matches SendAction::SendHash { hash } ==> hash@ == blake3_hash(final(self).read_bytes())
                && final(self).read_bytes().len() == final(self).sizes()[final(self).index() as int]
                && final(self).sent_bytes() == final(self).read_bytes().skip(
                final(self).offsets()[final(self).index() as int] as int)
                && final(self).phase() is AwaitVerdict,
            // A file counts as done only when the receiver confirmed its hash.
            a matches SendAction::Verified { progress } ==> (ev matches SendEvent::Verdict(v) && (v
                == 0 && old(self).phase() is AwaitVerdict && final(self).index() == old(self).index() + 1
                && (progress matches Progress::FileVerified { index, path } && (index == old(self).index()
                && path is None)))),
            !(a is Verified) ==> final(self).index() == old(self).index(),
            // The transfer succeeds only once every file is confirmed, with the
            // name the receiver announced.
            a is Done ==> final(self).index() == final(self).sizes().len() && final(self).phase() is Finished,
            a matches SendAction::Done { receiver } ==> crate::rendezvous::opt_string_view(receiver) == old(self).receiver_name(),
            final(self).receiver_name() == old(self).receiver_name(),
            final(self).names() == old(self).names(),
            // The next action, from the phase and the event.
            after_event(*old(self), ev, *final(self), a),
    {
        match ev {
            SendEvent::Ready => {
                match self.phase {
                    SendPhase::AwaitVerdict => self.fail(SendError::UnexpectedEvent),
                    _ => self.decide(),
                }
            },
            SendEvent::Read(data) => {
                match self.phase {
                    SendPhase::Prefix { left } => {
                        if data.len() == 0 {
                            return self.fail(SendError::FileShorter);
                        }
                        if data.len() > chunk_len(left) {
                            return self.fail(SendError::UnexpectedEvent);
                        }
                        blake3_update(&mut self.hasher, data.as_slice());
                        self.read = Ghost(self.read@ + data@);
                        self.phase = SendPhase::Prefix { left: left - data.len() as u64 };
                        let ghost mid = *self;
                        let a = self.decide();
                        proof {
                            assert(next_action(mid, *self, a));
                        }
                        a
                    },
                    SendPhase::Body { done } => {
                        let size = self.files[self.index].size;
                        if done >= size {
                            return self.fail(SendError::UnexpectedEvent);
                        }
                        if data.len() == 0 {
                            return self.fail(SendError::FileShrank { index: self.index });
                        }
                        if data.len() > chunk_len(size - done) {
                            return self.fail(SendError::UnexpectedEvent);
                        }
                        blake3_update(&mut self.hasher, data.as_slice());
                        let ghost offset = self.offsets@[self.index as int] as int;
                        proof {
                            assert((self.read@ + data@).skip(offset) =~= self.read@.skip(offset) + data@);
                        }
                        self.read = Ghost(self.read@ + data@);
                        self.sent = Ghost(self.sent@ + data@);
                        let now = done + data.len() as u64;
                        self.phase = SendPhase::Body { done: now };
                        SendAction::Send {
                            bytes: data,
                            progress: Progress::Bytes { index: self.index, done: now },
                        }
                    },
                    _ => self.fail(SendError::UnexpectedEvent),
                }
            },
            SendEvent::Verdict(b) => {
                match self.phase {
                    SendPhase::AwaitVerdict => {
                        if b == 0 {
                            let n = self.files.len();
                            let index = self.index;
                            self.index = self.index + 1;
                            self.phase = SendPhase::Start;
                            SendAction::Verified {
                                progress: Progress::FileVerified { index, path: None },
                            }
                        } else {
                            let name = Self::clone_name(&self.files[self.index].name);
                            self.fail(SendError::HashMismatch { name })
                        }
                    },
                    _ => self.fail(SendError::UnexpectedEvent),
                }
            },
        }
    }
}

/// The next action from the state alone, and the state it leaves: open the
/// next file at the receiver's offset, hash the part the receiver has, send
/// the rest chunk by chunk, then the hash; finish once every file is done.
pub open spec fn next_action(o: Sender, n: Sender, a: SendAction) -> bool {
    match o.phase() {
        SendPhase::Start => if o.index() == o.sizes().len() {
            (a matches SendAction::Done { receiver } && crate::rendezvous::opt_string_view(receiver)
                == o.receiver_name()) && n.phase() is Finished
        } else if o.offsets()[o.index() as int] > o.sizes()[o.index() as int] {
            (a matches SendAction::Fail(SendError::OffsetBeyondSize)) && n.phase() is Failed
        } else {
            &&& a matches SendAction::OpenFile { index, progress } && index == o.index()
                && (progress matches Progress::FileStart { index: i, name, size, offset } && i == index
                && name@ == o.names()[index as int] && size == o.sizes()[index as int]
                && offset == o.offsets()[index as int])
            &&& n.phase() == (SendPhase::Prefix { left: o.offsets()[o.index() as int] })
            &&& n.read_bytes() == Seq::<u8>::empty()
            &&& n.sent_bytes() == Seq::<u8>::empty()
        },
        SendPhase::Prefix { left } => prefix_next(o, n, a, left) && n.read_bytes() == o.read_bytes(),
        SendPhase::Body { done } => {
            &&& n.read_bytes() == o.read_bytes()
            &&& n.sent_bytes() == o.sent_bytes()
            &&& if done < o.sizes()[o.index() as int] {
                (a matches SendAction::Read { max } && max == crate::protocol::chunk_of(
                    (o.sizes()[o.index() as int] - done) as u64)) && n.phase() == o.phase()
            } else {
                (a matches SendAction::SendHash { hash } && hash@ == blake3_hash(o.read_bytes()))
                    && n.phase() is AwaitVerdict
            }
        },
        SendPhase::Finished => (a matches SendAction::Done { receiver }
            && crate::rendezvous::opt_string_view(receiver) == o.receiver_name()) && n.phase() is Finished,
        _ => (a matches SendAction::Fail(SendError::UnexpectedEvent)) && n.phase() is Failed,
    }
}

/// In the part the receiver has, with `left` bytes of it still to hash: read
/// a chunk more, or, with all of it hashed, seek to the offset and send on.
pub open spec fn prefix_next(o: Sender, n: Sender, a: SendAction, left: u64) -> bool {
    &&& n.sent_bytes() == o.sent_bytes()
    &&& if left > 0 {
        (a matches SendAction::Read { max } && max == crate::protocol::chunk_of(left))
            && n.phase() == (SendPhase::Prefix { left })
    } else {
        (a matches SendAction::Seek { offset } && offset == o.offsets()[o.index() as int])
            && n.phase() == (SendPhase::Body { done: o.offsets()[o.index() as int] })
    }
}

/// A failure with error `e`.
pub open spec fn fails_with(n: Sender, a: SendAction, e: SendError) -> bool {
    a == SendAction::Fail(e) && n.phase() is Failed
}

/// The next action after the runtime reported `ev` in state `o`, and the
/// state `n` it leaves.
pub open spec fn after_event(o: Sender, ev: SendEvent, n: Sender, a: SendAction) -> bool {
    match ev {
        SendEvent::Ready => next_action(o, n, a),
        SendEvent::Read(d) => match o.phase() {
            SendPhase::Prefix { left } => if d@.len() == 0 {
                fails_with(n, a, SendError::FileShorter)
            } else if d@.len() > crate::protocol::chunk_of(left) {
                fails_with(n, a, SendError::UnexpectedEvent)
            } else {
                n.read_bytes() == o.read_bytes() + d@ && prefix_next(o, n, a, (left - d@.len()) as u64)
            },
            SendPhase::Body { done } => if done >= o.sizes()[o.index() as int] {
                fails_with(n, a, SendError::UnexpectedEvent)
            } else if d@.len() == 0 {
                fails_with(n, a, SendError::FileShrank { index: o.index() as usize })
            } else if d@.len() > crate::protocol::chunk_of((o.sizes()[o.index() as int] - done) as u64) {
                fails_with(n, a, SendError::UnexpectedEvent)
            } else {
                &&& a matches SendAction::Send { bytes, progress } && bytes@ == d@
                    && (progress matches Progress::Bytes { index, done: now } && index == o.index()
                    && now == done + d@.len())
                &&& n.phase() == (SendPhase::Body { done: (done + d@.len()) as u64 })
                &&& n.read_bytes() == o.read_bytes() + d@
                &&& n.sent_bytes() == o.sent_bytes() + d@
            },
            _ => fails_with(n, a, SendError::UnexpectedEvent),
        },
        SendEvent::Verdict(b) => match o.phase() {
            SendPhase::AwaitVerdict => if b == 0 {
                &&& a matches SendAction::Verified { progress } && (progress matches Progress::FileVerified {
                    index, path } && index == o.index() && path is None)
                &&& n.index() == o.index() + 1
                &&& n.phase() is Start
            } else {
                (a matches SendAction::Fail(SendError::HashMismatch { name }) && name@ == o.names()[o.index() as int])
                    && n.phase() is Failed
            },
            _ => fails_with(n, a, SendError::UnexpectedEvent),
        },
    }
}

} // verus!
