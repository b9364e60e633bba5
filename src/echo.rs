use vstd::prelude::*;
use vstd::slice::slice_to_vec;

verus! {

/// The most bytes one read hands to a session.
pub const BUFFER_SIZE: usize = 1024;

/// What a connection's handler does next.
#[derive(Clone, Copy, Debug, PartialEq, Eq, Structural)]
pub enum SessionState {
    /// Read the next bytes from the peer.
    Reading,
    /// Write the pending bytes back to the peer.
    Writing,
    /// The peer closed its side and everything read was written back.
    Closed,
    /// An I/O operation failed; the handler stops.
    Failed,
}

/// The decisions of one echo connection. The handler reads into a buffer of
/// at most `BUFFER_SIZE` bytes, hands what it read to `on_read`, writes
/// `pending()` and reports how much went out with `on_written`, until the
/// state is `Closed` or `Failed`.
pub struct EchoSession {
    pending: Vec<u8>,
    state: SessionState,
    received: Ghost<Seq<u8>>,
    sent: Ghost<Seq<u8>>,
}

impl EchoSession {
    /// The bytes read back from the peer but not yet written back.
    pub closed spec fn pending_spec(&self) -> Seq<u8> {
        self.pending@
    }

    pub closed spec fn state_spec(&self) -> SessionState {
        self.state
    }

    /// Everything read from the peer so far, in order.
    pub closed spec fn received(&self) -> Seq<u8> {
        self.received@
    }

    /// Everything written back to the peer so far, in order.
    pub closed spec fn sent(&self) -> Seq<u8> {
        self.sent@
    }

    pub open spec fn wf(&self) -> bool {
        &&& self.received() == self.sent() + self.pending_spec()
        &&& self.pending_spec().len() <= BUFFER_SIZE
        &&& (self.state_spec() == SessionState::Writing) == (self.pending_spec().len() > 0
            && self.state_spec() != SessionState::Failed)
    }

    /// A session that has read nothing yet.
    pub fn new() -> (r: Self)
        ensures
            r.wf(),
            r.state_spec() == SessionState::Reading,
            r.received().len() == 0,
            r.sent().len() == 0,
    {
        EchoSession {
            pending: Vec::new(),
            state: SessionState::Reading,
            received: Ghost(Seq::empty()),
            sent: Ghost(Seq::empty()),
        }
    }

    /// What the handler does next.
    pub fn state(&self) -> (st: SessionState)
        ensures
            st == self.state_spec(),
    {
        self.state
    }

    /// The bytes to write back next.
    pub fn pending(&self) -> (b: &[u8])
        ensures
            b@ == self.pending_spec(),
    {
        self.pending.as_slice()
    }

    /// A read returned `data`. No bytes means the peer closed its side: the
    /// session is done. Otherwise the bytes are to be written back.
    pub fn on_read(&mut self, data: &[u8])
        requires
            old(self).wf(),
            old(self).state_spec() == SessionState::Reading,
            data@.len() <= BUFFER_SIZE,
        ensures
            final(self).wf(),
            final(self).sent() == old(self).sent(),
            final(self).received() == old(self).received() + data@,
            final(self).pending_spec() == data@,
            final(self).state_spec() == if data@.len() == 0 {
                SessionState::Closed
            } else {
                SessionState::Writing
            },
    {
        self.pending = slice_to_vec(data);
        proof {
            self.received@ = self.received@ + data@;
        }
        if data.len() == 0 {
            self.state = SessionState::Closed;
        } else {
            self.state = SessionState::Writing;
        }
    }

    /// A write took the first `n` pending bytes. A write that takes none
    /// cannot make progress and fails the session; once nothing is pending
    /// the session reads again.
    pub fn on_written(&mut self, n: usize)
        requires
            old(self).wf(),
            old(self).state_spec() == SessionState::Writing,
            n <= old(self).pending_spec().len(),
        ensures
            final(self).wf(),
            final(self).received() == old(self).received(),
            n == 0 ==> final(self).state_spec() == SessionState::Failed && final(self).sent()
                == old(self).sent() && final(self).pending_spec() == old(self).pending_spec(),
            n > 0 ==> {
                &&& final(self).sent() == old(self).sent() + old(self).pending_spec().subrange(
                    0,
                    n as int,
                )
                &&& final(self).pending_spec() == old(self).pending_spec().subrange(
                    n as int,
                    old(self).pending_spec().len() as int,
                )
                &&& final(self).state_spec() == if n == old(self).pending_spec().len() {
                    SessionState::Reading
                } else {
                    SessionState::Writing
                }
            },
    {
        if n == 0 {
            self.state = SessionState::Failed;
            return;
        }
        let ghost p = self.pending@;
        let rest = self.pending.split_off(n);
        self.pending = rest;
        proof {
            self.sent@ = self.sent@ + p.subrange(0, n as int);
            assert(p =~= p.subrange(0, n as int) + self.pending@);
            assert(self.received@ =~= self.sent@ + self.pending@);
        }
        if self.pending.len() == 0 {
            self.state = SessionState::Reading;
        }
    }

    /// A read or a write reported an error: the session stops.
    pub fn on_error(&mut self)
        requires
            old(self).wf(),
        ensures
            final(self).wf(),
            final(self).state_spec() == SessionState::Failed,
            final(self).received() == old(self).received(),
            final(self).sent() == old(self).sent(),
    {
        self.state = SessionState::Failed;
    }
}

/// Echo is lossless and in order: whenever a session waits to read or has
/// closed, it has written back exactly the bytes it read, however the reads
/// split them and however many writes each chunk took; at every moment what
/// it wrote is a prefix of what it read.
pub proof fn lemma_echo_lossless(s: EchoSession)
    requires
        s.wf(),
    ensures
        s.sent().len() <= s.received().len(),
        s.sent() == s.received().subrange(0, s.sent().len() as int),
        s.state_spec() == SessionState::Reading || s.state_spec() == SessionState::Closed
            ==> s.sent() == s.received(),
{
    assert(s.sent() =~= s.received().subrange(0, s.sent().len() as int));
    if s.state_spec() == SessionState::Reading || s.state_spec() == SessionState::Closed {
        assert(s.received() =~= s.sent());
    }
}

} // verus!
