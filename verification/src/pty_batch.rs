//! How bytes read from the child process are gathered into one batch
//! before the terminal takes them: after the first read, more reads join
//! the batch until it is large enough, the gathering window has passed, no
//! more arrive in time, or the child has exited. Times are nanoseconds on a
//! monotonic clock.
use vstd::prelude::*;

verus! {

/// The most bytes a batch gathers before it is handed on.
pub const MAX_PTY_EVENT_BYTES: usize = 1048576;

/// How long a batch waits for more reads after its first.
pub const COALESCE_WINDOW_NS: u64 = 1_000_000;

/// A batch of bytes being gathered.
#[derive(Debug)]
pub struct PtyBatch {
    bytes: Vec<u8>,
    deadline: u64,
    exited: bool,
    closed: bool,
}

/// Abstract state of a batch.
pub struct PtyBatchView {
    pub bytes: Seq<u8>,
    pub deadline: u64,
    pub exited: bool,
    pub closed: bool,
}

impl View for PtyBatch {
    type V = PtyBatchView;

    closed spec fn view(&self) -> PtyBatchView {
        PtyBatchView { bytes: self.bytes@, deadline: self.deadline, exited: self.exited, closed: self.closed }
    }
}

impl PtyBatch {
    /// A batch that starts with the `first` read at `now`; it gathers until
    /// the window after `now` has passed.
    pub fn start(first: Vec<u8>, now: u64) -> (r: Self)
        requires
            now + COALESCE_WINDOW_NS <= u64::MAX,
        ensures
            r@ == (PtyBatchView {
                bytes: first@,
                deadline: (now + COALESCE_WINDOW_NS) as u64,
                exited: false,
                closed: false,
            }),
    {
        PtyBatch { bytes: first, deadline: now + COALESCE_WINDOW_NS, exited: false, closed: false }
    }

    /// Whether the batch takes more reads: it is not closed and not yet
    /// large enough.
    pub fn wants_more(&self) -> (r: bool)
        ensures
            r == (!self@.closed && self@.bytes.len() < MAX_PTY_EVENT_BYTES),
    {
        !self.closed && self.bytes.len() < MAX_PTY_EVENT_BYTES
    }

    /// How many bytes the batch holds.
    pub fn len(&self) -> (r: usize)
        ensures
            r == self@.bytes.len(),
    {
        self.bytes.len()
    }

    /// Another read joins the batch.
    pub fn add(&mut self, bytes: Vec<u8>)
        requires
            old(self)@.bytes.len() + bytes@.len() <= usize::MAX,
        ensures
            final(self)@ == (PtyBatchView { bytes: old(self)@.bytes + bytes@, ..old(self)@ }),
    {
        let mut bytes = bytes;
        let ghost before = self.bytes@;
        let ghost added = bytes@;
        self.bytes.append(&mut bytes);
        assert(self.bytes@ =~= before + added);
    }

    /// The child exited (or the reader is gone): the batch closes and the
    /// exit is reported after it.
    pub fn child_exited(&mut self)
        ensures
            final(self)@ == (PtyBatchView { exited: true, closed: true, ..old(self)@ }),
    {
        self.exited = true;
        self.closed = true;
    }

    /// No read is waiting at `now`: the batch closes once its window has
    /// passed; otherwise it tells how long to wait for the next read.
    pub fn nothing_waiting(&mut self, now: u64) -> (wait: Option<u64>)
        ensures
            now >= old(self)@.deadline ==> wait is None && final(self)@ == (PtyBatchView {
                closed: true,
                ..old(self)@
            }),
            now < old(self)@.deadline ==> wait == Some((old(self)@.deadline - now) as u64) && final(self)@
                == old(self)@,
    {
        if now >= self.deadline {
            self.closed = true;
            return None;
        }
        Some(self.deadline - now)
    }

    /// The wait for the next read ran out: the batch closes.
    pub fn timed_out(&mut self)
        ensures
            final(self)@ == (PtyBatchView { closed: true, ..old(self)@ }),
    {
        self.closed = true;
    }

    /// The gathered bytes, and whether the child exited.
    pub fn finish(self) -> (r: (Vec<u8>, bool))
        ensures
            r.0@ == self@.bytes,
            r.1 == self@.exited,
    {
        (self.bytes, self.exited)
    }
}

} // verus!
