//! The receiving side of a transfer, as a state machine.
//!
//! Once the offer is accepted, the runtime repeatedly performs the
//! `RecvAction` this machine returns and hands back what happened as a
//! `RecvEvent`. The machine decides what is read, written and hashed, and
//! stores a file only when the hash of all its bytes, including a part kept
//! from an earlier attempt, equals the one the sender announced.
use vstd::prelude::*;
use crate::digest::{blake3_finalize, blake3_hash, blake3_new, blake3_update, hasher_input};
use crate::protocol::{chunk_len, FileEntry, Progress};

verus! {

/// While `done` of `size` bytes are in: read more from the stream, a chunk at
/// most, or, with all of them in, read the hash.
pub open spec fn body_next(a: RecvAction, phase: RecvPhase, done: u64, size: u64) -> bool {
    if done < size {
        (a matches RecvAction::ReadStream { max } && max == crate::protocol::chunk_of((size - done) as u64))
            && phase == (RecvPhase::Body { done })
    } else {
        a is ReadHash && phase is AwaitHash
    }
}

/// How much of a file a kept part provides: all of it when it is not longer
/// than the file; otherwise nothing, and the part must be removed.
pub fn resume_offset(have: u64, size: u64) -> (r: (u64, bool))
    ensures
        have <= size ==> r == (have, false),
        have > size ==> r == (0u64, true),
{
    if have <= size {
        (have, false)
    } else {
        (0, true)
    }
}

/// What the runtime reports back.
pub enum RecvEvent {
    /// The last action was carried out.
    Ready,
    /// Bytes read, from the part file or from the stream as asked.
    Read(Vec<u8>),
    /// The hash the sender sent after the file's bytes.
    Hash(Vec<u8>),
    /// Where the verified file was stored.
    Stored(String),
}

/// What the runtime must do next.
pub enum RecvAction {
    /// Open (creating it) the part file of file `index` for appending, and for
    /// reading from its start; report `progress`; then `Ready`.
    OpenPart { index: usize, progress: Progress },
    /// Read at most `max` bytes of the part file; then `Read`.
    ReadPart { max: usize },
    /// Read at most `max` bytes from the stream; then `Read`.
    ReadStream { max: usize },
    /// Append `bytes` to the part file and report `progress`; then `Ready`.
    Write { bytes: Vec<u8>, progress: Progress },
    /// Flush and sync the part file, read the 32-byte hash from the stream;
    /// then `Hash`.
    ReadHash,
    /// The hash does not match: remove the part file, answer 1, and stop.
    Discard { error: RecvError },
    /// The hash matches: move the part file to the first free name among
    /// `candidate_name`s, answer 0; then `Stored`.
    Store { index: usize },
    /// Report `progress`; then `Ready`.
    Verified { progress: Progress },
    /// Every file is stored; where.
    Done { paths: Vec<String> },
    /// Stop with this error.
    Fail(RecvError),
}

#[derive(Debug)]
pub enum RecvError {
    /// The kept part is shorter than it was a moment ago.
    PartShorter,
    /// The sender stopped after `done` of `size` bytes of `name`; the part is
    /// kept and the next attempt resumes there.
    Interrupted { done: u64, size: u64, name: String },
    /// The file's hash is not the announced one: it is discarded.
    HashMismatch { name: String },
    /// The runtime reported something the machine did not ask for.
    UnexpectedEvent,
}

pub enum RecvPhase {
    Start,
    Prefix { left: u64 },
    Body { done: u64 },
    AwaitHash,
    AwaitStore,
    Finished,
    Failed,
}

pub struct Receiver {
    files: Vec<FileEntry>,
    offsets: Vec<u64>,
    index: usize,
    phase: RecvPhase,
    hasher: blake3::Hasher,
    stored: Vec<String>,
    /// The bytes of the current file: the kept part, then what arrived.
    data: Ghost<Seq<u8>>,
}

impl Receiver {
    pub closed spec fn sizes(&self) -> Seq<u64> {
        self.files@.map_values(|f: FileEntry| f.size)
    }

    pub closed spec fn offsets(&self) -> Seq<u64> {
        self.offsets@
    }

    /// The names of the files, in order.
    pub closed spec fn names(&self) -> Seq<Seq<char>> {
        self.files@.map_values(|f: FileEntry| f.name@)
    }

    pub closed spec fn index(&self) -> nat {
        self.index as nat
    }

    pub closed spec fn phase(&self) -> RecvPhase {
        self.phase
    }

    /// The bytes of the current file as far as they are known.
    pub closed spec fn data(&self) -> Seq<u8> {
        self.data@
    }

    pub closed spec fn stored_paths(&self) -> Seq<String> {
        self.stored@
    }

    pub closed spec fn wf(&self) -> bool {
        &&& self.offsets@.len() == self.files@.len()
        &&& self.index <= self.files@.len()
        &&& self.stored@.len() == self.index
        &&& forall|i: int| 0 <= i < self.files@.len() ==> self.offsets@[i] <= #[trigger] self.files@[i].size
        &&& hasher_input(self.hasher) == self.data@
        &&& match self.phase {
            RecvPhase::Start => true,
            RecvPhase::Prefix { left } => {
                &&& self.index < self.files@.len()
                &&& left <= self.offsets@[self.index as int]
                &&& self.data@.len() == self.offsets@[self.index as int] - left
            },
            RecvPhase::Body { done } => {
                &&& self.index < self.files@.len()
                &&& self.offsets@[self.index as int] <= done <= self.files@[self.index as int].size
                &&& self.data@.len() == done
            },
            RecvPhase::AwaitHash | RecvPhase::AwaitStore => {
                &&& self.index < self.files@.len()
                &&& self.data@.len() == self.files@[self.index as int].size
            },
            RecvPhase::Finished => self.index == self.files@.len(),
            RecvPhase::Failed => true,
        }
    }

    /// Starts receiving `files`, of which `offsets` bytes are already kept;
    /// `None` unless there is one offset per file, none beyond its file.
    pub fn new(files: Vec<FileEntry>, offsets: Vec<u64>) -> (r: Option<Receiver>)
        ensures
            r is Some <==> (offsets@.len() == files@.len() && forall|i: int|
                0 <= i < files@.len() ==> offsets@[i] <= #[trigger] files@[i].size),
            r matches Some(rv) ==> (rv.wf() && rv.index() == 0 && rv.phase() is Start
                && rv.offsets() == offsets@ && rv.sizes() == files@.map_values(|f: FileEntry| f.size)
                && rv.names() == files@.map_values(|f: FileEntry| f.name@)
                && rv.stored_paths() == Seq::<String>::empty()),
    {
        if offsets.len() != files.len() {
            return None;
        }
        let mut i: usize = 0;
        while i < files.len()
            invariant
                offsets@.len() == files@.len(),
                i <= files@.len(),
                forall|j: int| 0 <= j < i ==> offsets@[j] <= #[trigger] files@[j].size,
            decreases files.len() - i,
        {
            if offsets[i] > files[i].size {
                return None;
            }
            i = i + 1;
        }
        Some(Receiver {
            files,
            offsets,
            index: 0,
            phase: RecvPhase::Start,
            hasher: blake3_new(),
            stored: Vec::new(),
            data: Ghost(Seq::empty()),
        })
    }

    fn fail(&mut self, e: RecvError) -> (a: RecvAction)
        requires
            old(self).wf(),
        ensures
            final(self).wf(),
            final(self).phase() is Failed,
            final(self).index() == old(self).index(),
            final(self).sizes() == old(self).sizes(),
            final(self).offsets() == old(self).offsets(),
            final(self).stored_paths() == old(self).stored_paths(),
            final(self).names() == old(self).names(),
            a == RecvAction::Fail(e),
    {
        self.phase = RecvPhase::Failed;
        RecvAction::Fail(e)
    }

    fn copy_paths(&self) -> (r: Vec<String>)
        ensures
            r@.len() == self.stored@.len(),
            forall|i: int| 0 <= i < r@.len() ==> r@[i]@ == self.stored@[i]@,
            r@.map_values(|p: String| p@) == self.stored@.map_values(|p: String| p@),
    {
        let mut r: Vec<String> = Vec::new();
        let mut i: usize = 0;
        while i < self.stored.len()
            invariant
                i <= self.stored@.len(),
                r@.len() == i,
                forall|j: int| 0 <= j < i ==> r@[j]@ == self.stored@[j]@,
            decreases self.stored.len() - i,
        {
            r.push(self.stored[i].clone());
            i = i + 1;
        }
        assert(r@.map_values(|p: String| p@) =~= self.stored@.map_values(|p: String| p@));
        r
    }

    /// What to do next, from the state alone.
    fn decide(&mut self) -> (a: RecvAction)
        requires
            old(self).wf(),
        ensures
            final(self).wf(),
            final(self).index() == old(self).index(),
            final(self).sizes() == old(self).sizes(),
            final(self).names() == old(self).names(),
            final(self).offsets() == old(self).offsets(),
            final(self).stored_paths() == old(self).stored_paths(),
            next_action(*old(self), *final(self), a),
    {
        match self.phase {
            RecvPhase::Start => {
                if self.index == self.files.len() {
                    self.phase = RecvPhase::Finished;
                    return RecvAction::Done { paths: self.copy_paths() };
                }
                let offset = self.offsets[self.index];
                let size = self.files[self.index].size;
                self.hasher = blake3_new();
                self.data = Ghost(Seq::empty());
                self.phase = RecvPhase::Prefix { left: offset };
                RecvAction::OpenPart {
                    index: self.index,
                    progress: Progress::FileStart {
                        index: self.index,
                        name: self.files[self.index].name.clone(),
                        size,
                        offset,
                    },
                }
            },
            RecvPhase::Prefix { left } => {
                if left > 0 {
                    RecvAction::ReadPart { max: chunk_len(left) }
                } else {
                    let offset = self.offsets[self.index];
                    self.phase = RecvPhase::Body { done: offset };
                    self.decide_body(offset)
                }
            },
            RecvPhase::Body { done } => self.decide_body(done),
            RecvPhase::Finished => RecvAction::Done { paths: self.copy_paths() },
            _ => self.fail(RecvError::UnexpectedEvent),
        }
    }

    fn decide_body(&mut self, done: u64) -> (a: RecvAction)
        requires
            old(self).wf(),
            old(self).phase() == (RecvPhase::Body { done }),
        ensures
            final(self).wf(),
            final(self).index() == old(self).index(),
            final(self).sizes() == old(self).sizes(),
            final(self).offsets() == old(self).offsets(),
            final(self).stored_paths() == old(self).stored_paths(),
            final(self).names() == old(self).names(),
            final(self).data() == old(self).data(),
            a is ReadStream || a is ReadHash,
            a is ReadHash ==> final(self).phase() is AwaitHash,
            a is ReadStream ==> final(self).phase() == old(self).phase(),
            body_next(a, final(self).phase(), done, old(self).sizes()[old(self).index() as int]),
    {
        let size = self.files[self.index].size;
        if done < size {
            RecvAction::ReadStream { max: chunk_len(size - done) }
        } else {
            self.phase = RecvPhase::AwaitHash;
            RecvAction::ReadHash
        }
    }

    /// Takes the runtime's report of the last action and returns the next one.
    pub fn step(&mut self, ev: RecvEvent) -> (a: RecvAction)
        requires
            old(self).wf(),
        ensures
            final(self).wf(),
            final(self).sizes() == old(self).sizes(),
            final(self).offsets() == old(self).offsets(),
            a matches RecvAction::OpenPart { index, progress } ==> (index == final(self).index()
                && final(self).phase() == (RecvPhase::Prefix { left: final(self).offsets()[index as int] })
                && final(self).data() == Seq::<u8>::empty()
                && (progress matches Progress::FileStart { index: i, size, offset, .. } && (i == index
                && size == final(self).sizes()[index as int] && offset == final(self).offsets()[index as int]))),
            // What is written is exactly what just arrived from the stream,
            // after everything before it; progress counts it.
            a matches RecvAction::Write { bytes, progress } ==> (ev matches RecvEvent::Read(d)
                && (bytes@ == d@ && bytes@.len() > 0 && final(self).index() == old(self).index()
                && final(self).data() == old(self).data() + bytes@
                && (old(self).phase() matches RecvPhase::Body { done: d0 }
                && (final(self).phase() == (RecvPhase::Body { done: (d0 + bytes@.len()) as u64 })
                && (progress matches Progress::Bytes { index, done } && (index == old(self).index()
                && done == d0 + bytes@.len() && done <= old(self).sizes()[index as int])))))),
            // A file is stored only when the announced hash is the hash of all
            // its bytes, and it has all of them.
            a matches RecvAction::Store { index } ==> (ev matches RecvEvent::Hash(h)
                && (h@ == blake3_hash(old(self).data()) && old(self).phase() is AwaitHash
                && old(self).data().len() == old(self).sizes()[index as int]
                && index == old(self).index() && final(self).phase() is AwaitStore)),
            a matches RecvAction::Discard { error } ==> (ev matches RecvEvent::Hash(h)
                && (h@ != blake3_hash(old(self).data()) && old(self).phase() is AwaitHash
                && final(self).phase() is Failed && error is HashMismatch)),
            a matches RecvAction::Verified { progress } ==> (ev matches RecvEvent::Stored(p)
                && (old(self).phase() is AwaitStore && final(self).index() == old(self).index() + 1
                && final(self).stored_paths() == old(self).stored_paths().push(p)
                && (progress matches Progress::FileVerified { index, path } && (index == old(self).index()
                && path == Some(p))))),
            !(a is Verified) ==> final(self).index() == old(self).index()
                && final(self).stored_paths() == old(self).stored_paths(),
            a is Done ==> final(self).index() == final(self).sizes().len() && final(self).phase() is Finished,
            // The paths reported are those the runtime stored the files at.
            a matches RecvAction::Done { paths } ==> paths@.map_values(|p: String| p@) == old(self).stored_paths().map_values(|p: String| p@),
            final(self).names() == old(self).names(),
            // The next action, from the phase and the event.
            after_event(*old(self), ev, *final(self), a),
    {
        match ev {
            RecvEvent::Ready => {
                match self.phase {
                    RecvPhase::AwaitHash | RecvPhase::AwaitStore => self.fail(RecvError::UnexpectedEvent),
                    _ => self.decide(),
                }
            },
            RecvEvent::Read(data) => {
                match self.phase {
                    RecvPhase::Prefix { left } => {
                        if data.len() == 0 {
                            return self.fail(RecvError::PartShorter);
                        }
                        if data.len() > chunk_len(left) {
                            return self.fail(RecvError::UnexpectedEvent);
                        }
                        blake3_update(&mut self.hasher, data.as_slice());
                        self.data = Ghost(self.data@ + data@);
                        self.phase = RecvPhase::Prefix { left: left - data.len() as u64 };
                        let ghost mid = *self;
                        let a = self.decide();
                        proof {
                            assert(next_action(mid, *self, a));
                        }
                        a
                    },
                    RecvPhase::Body { done } => {
                        let size = self.files[self.index].size;
                        if data.len() == 0 {
                            let name = self.files[self.index].name.clone();
                            return self.fail(RecvError::Interrupted { done, size, name });
                        }
                        if done >= size || data.len() > chunk_len(size - done) {
                            return self.fail(RecvError::UnexpectedEvent);
                        }
                        blake3_update(&mut self.hasher, data.as_slice());
                        self.data = Ghost(self.data@ + data@);
                        let now = done + data.len() as u64;
                        self.phase = RecvPhase::Body { done: now };
                        RecvAction::Write {
                            bytes: data,
                            progress: Progress::Bytes { index: self.index, done: now },
                        }
                    },
                    _ => self.fail(RecvError::UnexpectedEvent),
                }
            },
            RecvEvent::Hash(h) => {
                match self.phase {
                    RecvPhase::AwaitHash => {
                        let got = blake3_finalize(&self.hasher);
                        if crate::addr::bytes_eq(&got, &h) {
                            self.phase = RecvPhase::AwaitStore;
                            RecvAction::Store { index: self.index }
                        } else {
                            let name = self.files[self.index].name.clone();
                            self.phase = RecvPhase::Failed;
                            RecvAction::Discard { error: RecvError::HashMismatch { name } }
                        }
                    },
                    _ => self.fail(RecvError::UnexpectedEvent),
                }
            },
            RecvEvent::Stored(path) => {
                match self.phase {
                    RecvPhase::AwaitStore => {
                        let n = self.files.len();
                        let index = self.index;
                        let ghost p = path;
                        self.stored.push(path.clone());
                        self.index = self.index + 1;
                        self.phase = RecvPhase::Start;
                        RecvAction::Verified {
                            progress: Progress::FileVerified { index, path: Some(path) },
                        }
                    },
                    _ => self.fail(RecvError::UnexpectedEvent),
                }
            },
        }
    }
}

/// A resumed transfer rebuilds the whole file: when the kept part is the
/// first `offset` bytes of the file the sender read, and what arrives is what
/// the sender sent from `offset` on, the receiver's bytes are the file, so the
/// hash it checks is the hash the sender computed over the whole file.
pub proof fn law_resume_rebuilds_file(read: Seq<u8>, kept: Seq<u8>, arrived: Seq<u8>, offset: int)
    requires
        0 <= offset <= read.len(),
        kept == read.take(offset),
        arrived == read.skip(offset),
    ensures
        kept + arrived == read,
        blake3_hash(kept + arrived) == blake3_hash(read),
{
    assert(read.take(offset) + read.skip(offset) =~= read);
}

/// The next action from the state alone, and the state it leaves: open the
/// part file of the next file, hash the part kept, read the rest from the
/// stream chunk by chunk, then the hash; finish once every file is stored.
pub open spec fn next_action(o: Receiver, n: Receiver, a: RecvAction) -> bool {
    match o.phase() {
        RecvPhase::Start => if o.index() == o.sizes().len() {
            (a matches RecvAction::Done { paths } && paths@.map_values(|p: String| p@)
                == o.stored_paths().map_values(|p: String| p@)) && n.phase() is Finished
        } else {
            &&& a matches RecvAction::OpenPart { index, progress } && index == o.index()
                && (progress matches Progress::FileStart { index: i, name, size, offset } && i == index
                && name@ == o.names()[index as int] && size == o.sizes()[index as int]
                && offset == o.offsets()[index as int])
            &&& n.phase() == (RecvPhase::Prefix { left: o.offsets()[o.index() as int] })
            &&& n.data() == Seq::<u8>::empty()
        },
        RecvPhase::Prefix { left } => prefix_next(o, n, a, left) && n.data() == o.data(),
        RecvPhase::Body { done } => body_next(a, n.phase(), done, o.sizes()[o.index() as int])
            && n.data() == o.data(),
        RecvPhase::Finished => (a matches RecvAction::Done { paths } && paths@.map_values(|p: String| p@)
            == o.stored_paths().map_values(|p: String| p@)) && n.phase() is Finished,
        _ => fails_with(n, a, RecvError::UnexpectedEvent),
    }
}

/// In the kept part, with `left` bytes of it still to hash: read a chunk more
/// of it, or, with all of it hashed, go on with the stream.
pub open spec fn prefix_next(o: Receiver, n: Receiver, a: RecvAction, left: u64) -> bool {
    if left > 0 {
        (a matches RecvAction::ReadPart { max } && max == crate::protocol::chunk_of(left))
            && n.phase() == (RecvPhase::Prefix { left })
    } else {
        body_next(a, n.phase(), o.offsets()[o.index() as int], o.sizes()[o.index() as int])
    }
}

/// A failure with error `e`.
pub open spec fn fails_with(n: Receiver, a: RecvAction, e: RecvError) -> bool {
    a == RecvAction::Fail(e) && n.phase() is Failed
}

/// The next action after the runtime reported `ev` in state `o`, and the
/// state `n` it leaves: a file is stored exactly when the announced hash is
/// the hash of its bytes, and discarded otherwise.
pub open spec fn after_event(o: Receiver, ev: RecvEvent, n: Receiver, a: RecvAction) -> bool {
    match ev {
        RecvEvent::Ready => next_action(o, n, a),
        RecvEvent::Read(d) => match o.phase() {
            RecvPhase::Prefix { left } => if d@.len() == 0 {
                fails_with(n, a, RecvError::PartShorter)
            } else if d@.len() > crate::protocol::chunk_of(left) {
                fails_with(n, a, RecvError::UnexpectedEvent)
            } else {
                n.data() == o.data() + d@ && prefix_next(o, n, a, (left - d@.len()) as u64)
            },
            RecvPhase::Body { done } => if d@.len() == 0 {
                (a matches RecvAction::Fail(RecvError::Interrupted { done: at, size, name }) && at == done
                    && size == o.sizes()[o.index() as int] && name@ == o.names()[o.index() as int])
                    && n.phase() is Failed
            } else if done >= o.sizes()[o.index() as int] || d@.len() > crate::protocol::chunk_of(
                (o.sizes()[o.index() as int] - done) as u64) {
                fails_with(n, a, RecvError::UnexpectedEvent)
            } else {
                &&& a matches RecvAction::Write { bytes, progress } && bytes@ == d@
                    && (progress matches Progress::Bytes { index, done: now } && index == o.index()
                    && now == done + d@.len())
                &&& n.phase() == (RecvPhase::Body { done: (done + d@.len()) as u64 })
                &&& n.data() == o.data() + d@
            },
            _ => fails_with(n, a, RecvError::UnexpectedEvent),
        },
        RecvEvent::Hash(h) => match o.phase() {
            RecvPhase::AwaitHash => if h@ == blake3_hash(o.data()) {
                (a matches RecvAction::Store { index } && index == o.index()) && n.phase() is AwaitStore
            } else {
                (a matches RecvAction::Discard { error: RecvError::HashMismatch { name } }
                    && name@ == o.names()[o.index() as int]) && n.phase() is Failed
            },
            _ => fails_with(n, a, RecvError::UnexpectedEvent),
        },
        RecvEvent::Stored(p) => match o.phase() {
            RecvPhase::AwaitStore => {
                &&& a matches RecvAction::Verified { progress } && (progress matches Progress::FileVerified {
                    index, path } && index == o.index() && path == Some(p))
                &&& n.index() == o.index() + 1
                &&& n.stored_paths() == o.stored_paths().push(p)
                &&& n.phase() is Start
            },
            _ => fails_with(n, a, RecvError::UnexpectedEvent),
        },
    }
}

} // verus!
