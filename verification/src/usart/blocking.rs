//! The blocking transfers as state machines. The caller performs the register
//! access that each action names and hands the outcome back as the next
//! event, until the machine finishes.
use vstd::prelude::*;
use crate::usart::config::Error;
use crate::usart::status::{
    reads_data, rx_poll, spec_read_outcome, spec_rx_poll, ReadOutcome, RxPoll, StatusFlags,
};

verus! {

// ----- Blocking read -----

/// What the caller observed for a blocking read.
#[derive(Clone, Copy, Debug)]
pub enum RxEvent {
    /// The status flags that were read.
    Status(StatusFlags),
    /// The byte that was read from the data register.
    Data(u8),
}

/// Where a blocking read stands.
#[derive(Clone, Copy, Debug)]
pub enum RxPhase {
    /// Waiting for a byte or an error in the status flags.
    Polling,
    /// A byte is waiting; it is read next and stored.
    Receiving,
    /// An error was flagged; the data register is read to discard the byte,
    /// then the error is reported.
    Discarding(Error),
    /// The read is over, with this outcome.
    Done(Result<(), Error>),
}

/// What the caller must do next for a blocking read.
#[derive(Clone, Copy, Debug)]
pub enum RxAction {
    /// Read the status flags and hand them back as `RxEvent::Status`.
    ReadStatus,
    /// Read the data register and hand the byte back as `RxEvent::Data`.
    ReadData,
    /// The read is over, with this outcome.
    Finish(Result<(), Error>),
}

/// The action that a blocking read in `phase` asks for.
pub open spec fn rx_action(phase: RxPhase) -> RxAction {
    match phase {
        RxPhase::Polling => RxAction::ReadStatus,
        RxPhase::Receiving => RxAction::ReadData,
        RxPhase::Discarding(_) => RxAction::ReadData,
        RxPhase::Done(r) => RxAction::Finish(r),
    }
}

/// One step of a blocking read with buffer `buf`, of which the first `pos`
/// slots are filled: the new buffer, position and phase. An event that does
/// not answer the pending action changes nothing.
pub open spec fn rx_step(buf: Seq<u8>, pos: nat, phase: RxPhase, ev: RxEvent) -> (
    Seq<u8>,
    nat,
    RxPhase,
) {
    match (phase, ev) {
        (RxPhase::Polling, RxEvent::Status(f)) => match spec_rx_poll(f) {
            RxPoll::Failed(e) => (buf, pos, RxPhase::Discarding(e)),
            RxPoll::Ready => (buf, pos, RxPhase::Receiving),
            RxPoll::Empty => (buf, pos, RxPhase::Polling),
        },
        (RxPhase::Receiving, RxEvent::Data(b)) => (
            buf.update(pos as int, b),
            pos + 1,
            if pos + 1 == buf.len() {
                RxPhase::Done(Ok(()))
            } else {
                RxPhase::Polling
            },
        ),
        (RxPhase::Discarding(e), RxEvent::Data(_)) => (buf, pos, RxPhase::Done(Err(e))),
        _ => (buf, pos, phase),
    }
}

/// The bytes that one step stores into the buffer.
pub open spec fn rx_stored(phase: RxPhase, ev: RxEvent) -> Seq<u8> {
    match (phase, ev) {
        (RxPhase::Receiving, RxEvent::Data(b)) => seq![b],
        _ => Seq::empty(),
    }
}

/// A consistent blocking read: the position is inside the buffer, the read is
/// still going only while slots are left, and it succeeded only with all
/// slots filled.
pub open spec fn rx_inv(buf: Seq<u8>, pos: nat, phase: RxPhase) -> bool {
    &&& pos <= buf.len()
    &&& match phase {
        RxPhase::Done(Ok(())) => pos == buf.len(),
        RxPhase::Done(Err(_)) => true,
        _ => pos < buf.len(),
    }
}

/// The blocking read after the events `evs`, and the bytes it stored, in
/// order.
pub open spec fn rx_run(buf: Seq<u8>, pos: nat, phase: RxPhase, evs: Seq<RxEvent>) -> (
    Seq<u8>,
    nat,
    RxPhase,
    Seq<u8>,
)
    decreases evs.len(),
{
    if evs.len() == 0 {
        (buf, pos, phase, Seq::empty())
    } else {
        let (b1, p1, ph1) = rx_step(buf, pos, phase, evs[0]);
        let (b2, p2, ph2, stored) = rx_run(b1, p1, ph1, evs.skip(1));
        (b2, p2, ph2, rx_stored(phase, evs[0]) + stored)
    }
}

/// A blocking read of bytes into a buffer: for each slot, the status flags
/// are polled until a byte is waiting or an error is flagged; a waiting byte
/// is read into the slot, an error ends the read after one discarding read of
/// the data register.
pub struct BlockingRead {
    buf: Vec<u8>,
    pos: usize,
    phase: RxPhase,
}

impl BlockingRead {
    #[verifier::type_invariant]
    spec fn consistent(self) -> bool {
        rx_inv(self.buf@, self.pos as nat, self.phase)
    }

    /// The buffer.
    pub closed spec fn buffer(self) -> Seq<u8> {
        self.buf@
    }

    /// How many slots of the buffer are filled.
    pub closed spec fn position(self) -> nat {
        self.pos as nat
    }

    /// Where the read stands.
    pub closed spec fn phase(self) -> RxPhase {
        self.phase
    }

    /// Starts a read into `buf`; an empty buffer is done at once.
    pub fn new(buf: Vec<u8>) -> (m: Self)
        ensures
            m.buffer() == buf@,
            m.position() == 0,
            m.phase() == (if buf@.len() == 0 {
                RxPhase::Done(Ok(()))
            } else {
                RxPhase::Polling
            }),
    {
        let phase = if buf.len() == 0 {
            RxPhase::Done(Ok(()))
        } else {
            RxPhase::Polling
        };
        BlockingRead { buf, pos: 0, phase }
    }

    /// The action that the read asks for.
    pub fn action(&self) -> (a: RxAction)
        ensures
            a == rx_action(self.phase()),
    {
        match self.phase {
            RxPhase::Polling => RxAction::ReadStatus,
            RxPhase::Receiving => RxAction::ReadData,
            RxPhase::Discarding(_) => RxAction::ReadData,
            RxPhase::Done(r) => RxAction::Finish(r),
        }
    }

    /// Hands the read one event; returns the read after it and the action it
    /// asks for next.
    pub fn step(self, ev: RxEvent) -> (out: (Self, RxAction))
        ensures
            (out.0.buffer(), out.0.position(), out.0.phase()) == rx_step(
                self.buffer(),
                self.position(),
                self.phase(),
                ev,
            ),
            out.1 == rx_action(out.0.phase()),
            rx_inv(out.0.buffer(), out.0.position(), out.0.phase()),
    {
        proof {
            use_type_invariant(&self);
        }
        let BlockingRead { mut buf, pos, phase } = self;
        let next = match (phase, ev) {
            (RxPhase::Polling, RxEvent::Status(f)) => match rx_poll(&f) {
                RxPoll::Failed(e) => BlockingRead { buf, pos, phase: RxPhase::Discarding(e) },
                RxPoll::Ready => BlockingRead { buf, pos, phase: RxPhase::Receiving },
                RxPoll::Empty => BlockingRead { buf, pos, phase: RxPhase::Polling },
            },
            (RxPhase::Receiving, RxEvent::Data(b)) => {
                let len = buf.len();
                assert(pos < len);
                buf.set(pos, b);
                let phase = if pos + 1 == len {
                    RxPhase::Done(Ok(()))
                } else {
                    RxPhase::Polling
                };
                BlockingRead { buf, pos: pos + 1, phase }
            },
            (RxPhase::Discarding(e), RxEvent::Data(_)) => BlockingRead {
                buf,
                pos,
                phase: RxPhase::Done(Err(e)),
            },
            _ => BlockingRead { buf, pos, phase },
        };
        proof {
            use_type_invariant(&next);
        }
        let a = next.action();
        (next, a)
    }

    /// The buffer, with the bytes read so far in its first slots.
    pub fn into_buffer(self) -> (b: Vec<u8>)
        ensures
            b@ == self.buffer(),
    {
        self.buf
    }
}

/// Every step keeps a read consistent.
pub proof fn lemma_rx_step_consistent(buf: Seq<u8>, pos: nat, phase: RxPhase, ev: RxEvent)
    requires
        rx_inv(buf, pos, phase),
    ensures
        ({
            let (b, p, ph) = rx_step(buf, pos, phase, ev);
            rx_inv(b, p, ph)
        }),
{
}

/// Over any run of events, a read stores the bytes it received in order into
/// the next slots of the buffer and touches nothing else: the buffer is the
/// filled part it started with, the stored bytes, and the untouched rest.
/// Only a read with all slots filled ends successfully.
pub proof fn lemma_rx_run(buf: Seq<u8>, pos: nat, phase: RxPhase, evs: Seq<RxEvent>)
    requires
        rx_inv(buf, pos, phase),
    ensures
        ({
            let (b, p, ph, stored) = rx_run(buf, pos, phase, evs);
            &&& rx_inv(b, p, ph)
            &&& b.len() == buf.len()
            &&& p == pos + stored.len()
            &&& b == buf.take(pos as int) + stored + buf.skip(p as int)
        }),
    decreases evs.len(),
{
    if evs.len() == 0 {
        assert(buf =~= buf.take(pos as int) + Seq::<u8>::empty() + buf.skip(pos as int));
    } else {
        let (b1, p1, ph1) = rx_step(buf, pos, phase, evs[0]);
        lemma_rx_step_consistent(buf, pos, phase, evs[0]);
        lemma_rx_run(b1, p1, ph1, evs.skip(1));
        let (b2, p2, ph2, stored2) = rx_run(b1, p1, ph1, evs.skip(1));
        let s1 = rx_stored(phase, evs[0]);
        assert(p2 == p1 + stored2.len());
        assert(b1.len() == buf.len());
        assert(p2 <= buf.len());
        if s1.len() == 1 {
            assert(p1 == pos + 1);
            assert(b1.take(p1 as int) =~= buf.take(pos as int) + s1);
            assert(b1.skip(p2 as int) =~= buf.skip(p2 as int));
            assert(b2 =~= buf.take(pos as int) + (s1 + stored2) + buf.skip(p2 as int));
        } else {
            assert(s1 + stored2 =~= stored2);
        }
    }
}

/// The events of a read in which every poll finds a byte waiting: for each
/// byte, the status `f` and then the byte.
pub open spec fn rx_ready_events(f: StatusFlags, bytes: Seq<u8>) -> Seq<RxEvent>
    decreases bytes.len(),
{
    if bytes.len() == 0 {
        Seq::empty()
    } else {
        seq![RxEvent::Status(f), RxEvent::Data(bytes[0])] + rx_ready_events(f, bytes.skip(1))
    }
}

/// When every poll finds a byte waiting, the read fills the rest of the
/// buffer with the bytes in the order they arrive and then succeeds.
pub proof fn lemma_rx_ready_fills(buf: Seq<u8>, pos: nat, f: StatusFlags, bytes: Seq<u8>)
    requires
        spec_rx_poll(f) == RxPoll::Ready,
        bytes.len() > 0,
        pos + bytes.len() == buf.len(),
    ensures
        rx_run(buf, pos, RxPhase::Polling, rx_ready_events(f, bytes)) == (
            buf.take(pos as int) + bytes,
            buf.len(),
            RxPhase::Done(Ok(())),
            bytes,
        ),
    decreases bytes.len(),
{
    let evs = rx_ready_events(f, bytes);
    let tail = rx_ready_events(f, bytes.skip(1));
    assert(evs[0] == RxEvent::Status(f));
    assert(evs.skip(1) =~= seq![RxEvent::Data(bytes[0])] + tail);
    assert(evs.skip(1).skip(1) =~= tail);
    let b1 = buf.update(pos as int, bytes[0]);
    let p1 = pos + 1;
    let ph1 = if p1 == buf.len() {
        RxPhase::Done(Ok(()))
    } else {
        RxPhase::Polling
    };
    assert(rx_step(buf, pos, RxPhase::Polling, evs[0]) == (buf, pos, RxPhase::Receiving));
    assert(evs.skip(1)[0] == RxEvent::Data(bytes[0]));
    assert(rx_step(buf, pos, RxPhase::Receiving, evs.skip(1)[0]) == (b1, p1, ph1));
    let r2 = rx_run(b1, p1, ph1, tail);
    assert(rx_run(buf, pos, RxPhase::Receiving, evs.skip(1)) == (
        r2.0,
        r2.1,
        r2.2,
        seq![bytes[0]] + r2.3,
    ));
    assert(rx_run(buf, pos, RxPhase::Polling, evs) == (r2.0, r2.1, r2.2, seq![bytes[0]] + r2.3));
    if bytes.len() == 1 {
        assert(tail.len() == 0);
        assert(b1 =~= buf.take(pos as int) + bytes);
        assert(seq![bytes[0]] + Seq::<u8>::empty() =~= bytes);
    } else {
        lemma_rx_ready_fills(b1, p1, f, bytes.skip(1));
        assert(b1.take(p1 as int) + bytes.skip(1) =~= buf.take(pos as int) + bytes);
        assert(seq![bytes[0]] + bytes.skip(1) =~= bytes);
    }
}

/// A poll that finds an error flag ends the read with that error after one
/// read of the data register, whose byte is discarded; the buffer is left as
/// it was.
pub proof fn lemma_rx_error_ends(buf: Seq<u8>, pos: nat, f: StatusFlags, discarded: u8, e: Error)
    requires
        spec_rx_poll(f) == RxPoll::Failed(e),
    ensures
        rx_run(buf, pos, RxPhase::Polling, seq![RxEvent::Status(f), RxEvent::Data(discarded)]) == (
            buf,
            pos,
            RxPhase::Done(Err(e)),
            Seq::<u8>::empty(),
        ),
{
    let evs = seq![RxEvent::Status(f), RxEvent::Data(discarded)];
    assert(evs.skip(1).skip(1).len() == 0);
    assert(evs.skip(1)[0] == RxEvent::Data(discarded));
    assert(rx_step(buf, pos, RxPhase::Polling, evs[0]) == (buf, pos, RxPhase::Discarding(e)));
    assert(rx_run(buf, pos, RxPhase::Done(Err(e)), evs.skip(1).skip(1)) == (
        buf,
        pos,
        RxPhase::Done(Err(e)),
        Seq::<u8>::empty(),
    ));
    assert(rx_run(buf, pos, RxPhase::Discarding(e), evs.skip(1)) == (
        buf,
        pos,
        RxPhase::Done(Err(e)),
        Seq::<u8>::empty(),
    ));
}

/// Running a read over two runs of events one after the other is running it
/// over the first and then over the second.
pub proof fn lemma_rx_run_append(
    buf: Seq<u8>,
    pos: nat,
    phase: RxPhase,
    a: Seq<RxEvent>,
    b: Seq<RxEvent>,
)
    ensures
        ({
            let r1 = rx_run(buf, pos, phase, a);
            let r2 = rx_run(r1.0, r1.1, r1.2, b);
            rx_run(buf, pos, phase, a + b) == (r2.0, r2.1, r2.2, r1.3 + r2.3)
        }),
    decreases a.len(),
{
    if a.len() == 0 {
        assert(a + b =~= b);
        let r2 = rx_run(buf, pos, phase, b);
        assert(Seq::<u8>::empty() + r2.3 =~= r2.3);
    } else {
        let (b1, p1, ph1) = rx_step(buf, pos, phase, a[0]);
        assert((a + b)[0] == a[0]);
        assert((a + b).skip(1) =~= a.skip(1) + b);
        lemma_rx_run_append(b1, p1, ph1, a.skip(1), b);
        let r1 = rx_run(b1, p1, ph1, a.skip(1));
        let r2 = rx_run(r1.0, r1.1, r1.2, b);
        let s0 = rx_stored(phase, a[0]);
        assert(s0 + (r1.3 + r2.3) =~= (s0 + r1.3) + r2.3);
    }
}

/// A read that is over stays over, whatever events follow.
pub proof fn lemma_rx_run_done(buf: Seq<u8>, pos: nat, r: Result<(), Error>, evs: Seq<RxEvent>)
    ensures
        rx_run(buf, pos, RxPhase::Done(r), evs) == (buf, pos, RxPhase::Done(r), Seq::<u8>::empty()),
    decreases evs.len(),
{
    if evs.len() > 0 {
        lemma_rx_run_done(buf, pos, r, evs.skip(1));
        assert(Seq::<u8>::empty() + Seq::<u8>::empty() =~= Seq::<u8>::empty());
    }
}

/// One non-blocking read as the peripheral answers it: the status flags, and
/// the byte that the data register gives if the read goes on to read it.
pub type ReadObservation = (StatusFlags, u8);

/// The register reads of one non-blocking read: the status, then the data
/// register unless nothing had arrived.
pub open spec fn read_events(o: ReadObservation) -> Seq<RxEvent> {
    if reads_data(spec_rx_poll(o.0)) {
        seq![RxEvent::Status(o.0), RxEvent::Data(o.1)]
    } else {
        seq![RxEvent::Status(o.0)]
    }
}

/// The register reads of a run of non-blocking reads, one after the other.
pub open spec fn reads_events(obs: Seq<ReadObservation>) -> Seq<RxEvent>
    decreases obs.len(),
{
    if obs.len() == 0 {
        Seq::empty()
    } else {
        read_events(obs[0]) + reads_events(obs.skip(1))
    }
}

/// A blocking read written as repeated non-blocking reads: for each slot of
/// the buffer, read until a byte comes, which is stored, or an error comes,
/// which ends the read; `WouldBlock` is tried again. Gives the buffer, how
/// many slots are filled, the outcome (`None` while still reading) and how
/// many non-blocking reads were used.
pub open spec fn nonblocking_loop(buf: Seq<u8>, pos: nat, obs: Seq<ReadObservation>) -> (
    Seq<u8>,
    nat,
    Option<Result<(), Error>>,
    nat,
)
    decreases obs.len(),
{
    if obs.len() == 0 {
        (buf, pos, None, 0)
    } else {
        match spec_read_outcome(spec_rx_poll(obs[0].0), obs[0].1) {
            ReadOutcome::WouldBlock => {
                let r = nonblocking_loop(buf, pos, obs.skip(1));
                (r.0, r.1, r.2, r.3 + 1)
            },
            ReadOutcome::Failed(e) => (buf, pos, Some(Err(e)), 1),
            ReadOutcome::Byte(d) => if pos + 1 >= buf.len() {
                (buf.update(pos as int, d), pos + 1, Some(Ok(())), 1)
            } else {
                let r = nonblocking_loop(buf.update(pos as int, d), pos + 1, obs.skip(1));
                (r.0, r.1, r.2, r.3 + 1)
            },
        }
    }
}

/// The blocking read agrees with repeated non-blocking reads over the same
/// register reads: same buffer, same number of filled slots, and it is over
/// with the same outcome exactly when the loop of non-blocking reads is.
pub proof fn lemma_rx_matches_nonblocking(buf: Seq<u8>, pos: nat, obs: Seq<ReadObservation>)
    requires
        pos < buf.len(),
    ensures
        ({
            let (b, p, ph, _) = rx_run(buf, pos, RxPhase::Polling, reads_events(obs));
            let (b2, p2, o, _) = nonblocking_loop(buf, pos, obs);
            &&& b == b2
            &&& p == p2
            &&& match o {
                None => ph == RxPhase::Polling,
                Some(r) => ph == RxPhase::Done(r),
            }
        }),
    decreases obs.len(),
{
    if obs.len() > 0 {
        let f = obs[0].0;
        let d = obs[0].1;
        let head = read_events(obs[0]);
        let tail = reads_events(obs.skip(1));
        assert(reads_events(obs) == head + tail);
        lemma_rx_run_append(buf, pos, RxPhase::Polling, head, tail);
        match spec_rx_poll(f) {
            RxPoll::Empty => {
                assert(head.skip(1).len() == 0);
                assert(head[0] == RxEvent::Status(f));
                assert(rx_run(buf, pos, RxPhase::Polling, head.skip(1)) == (
                    buf,
                    pos,
                    RxPhase::Polling,
                    Seq::<u8>::empty(),
                ));
                assert(Seq::<u8>::empty() + Seq::<u8>::empty() =~= Seq::<u8>::empty());
                assert(rx_run(buf, pos, RxPhase::Polling, head) == (
                    buf,
                    pos,
                    RxPhase::Polling,
                    Seq::<u8>::empty(),
                ));
                lemma_rx_matches_nonblocking(buf, pos, obs.skip(1));
            },
            RxPoll::Failed(e) => {
                assert(head.skip(1)[0] == RxEvent::Data(d));
                assert(head.skip(1).skip(1).len() == 0);
                assert(rx_run(buf, pos, RxPhase::Done(Err(e)), head.skip(1).skip(1)) == (
                    buf,
                    pos,
                    RxPhase::Done(Err(e)),
                    Seq::<u8>::empty(),
                ));
                assert(rx_run(buf, pos, RxPhase::Discarding(e), head.skip(1)) == (
                    buf,
                    pos,
                    RxPhase::Done(Err(e)),
                    Seq::<u8>::empty(),
                ));
                lemma_rx_run_done(buf, pos, Err(e), tail);
            },
            RxPoll::Ready => {
                let b1 = buf.update(pos as int, d);
                let ph1 = if pos + 1 == buf.len() {
                    RxPhase::Done(Ok(()))
                } else {
                    RxPhase::Polling
                };
                assert(head.skip(1)[0] == RxEvent::Data(d));
                assert(head.skip(1).skip(1).len() == 0);
                assert(rx_run(b1, pos + 1, ph1, head.skip(1).skip(1)) == (
                    b1,
                    pos + 1,
                    ph1,
                    Seq::<u8>::empty(),
                ));
                assert(rx_run(buf, pos, RxPhase::Receiving, head.skip(1)) == (
                    b1,
                    pos + 1,
                    ph1,
                    seq![d] + Seq::<u8>::empty(),
                ));
                if pos + 1 == buf.len() {
                    lemma_rx_run_done(b1, pos + 1, Ok(()), tail);
                } else {
                    lemma_rx_matches_nonblocking(b1, pos + 1, obs.skip(1));
                }
            },
        }
    }
}

/// No read in `obs` found an error flag.
pub open spec fn no_failure(obs: Seq<ReadObservation>) -> bool {
    forall|j: int| 0 <= j < obs.len() ==> !(#[trigger] spec_rx_poll(obs[j].0) is Failed)
}

/// The bytes that the reads in `obs` found waiting, in order.
pub open spec fn ready_bytes(obs: Seq<ReadObservation>) -> Seq<u8>
    decreases obs.len(),
{
    if obs.len() == 0 {
        Seq::empty()
    } else {
        (if spec_rx_poll(obs[0].0) == RxPoll::Ready {
            seq![obs[0].1]
        } else {
            Seq::empty()
        }) + ready_bytes(obs.skip(1))
    }
}

/// How a read of repeated polls ends. It is still going only if every read
/// was used, none found an error and slots are left. It succeeds only with
/// every slot filled and no error among the reads it used. It fails with the
/// error of the last read it used, the first to find an error flag. In every
/// case the buffer holds, after the slots filled before, the waiting bytes in
/// the order they were found, and nothing else changed.
pub proof fn lemma_nonblocking_outcome(buf: Seq<u8>, pos: nat, obs: Seq<ReadObservation>)
    requires
        pos < buf.len(),
    ensures
        ({
            let (b, p, o, k) = nonblocking_loop(buf, pos, obs);
            &&& 1 <= k <= obs.len() || (k == 0 && obs.len() == 0)
            &&& p == pos + ready_bytes(obs.take(k as int)).len()
            &&& p <= buf.len()
            &&& b == buf.take(pos as int) + ready_bytes(obs.take(k as int)) + buf.skip(p as int)
            &&& (o is None ==> k == obs.len() && no_failure(obs) && p < buf.len())
            &&& (o == Some(Ok::<(), Error>(())) ==> no_failure(obs.take(k as int)) && p
                == buf.len())
            &&& (o matches Some(Err(e)) ==> k >= 1 && no_failure(obs.take(k - 1)) && spec_rx_poll(
                obs[k - 1].0,
            ) == RxPoll::Failed(e))
        }),
    decreases obs.len(),
{
    let (b, p, o, k) = nonblocking_loop(buf, pos, obs);
    if obs.len() == 0 {
        assert(obs.take(0) =~= Seq::<ReadObservation>::empty());
        assert(buf =~= buf.take(pos as int) + Seq::<u8>::empty() + buf.skip(pos as int));
    } else {
        let f = obs[0].0;
        let d = obs[0].1;
        let rest = obs.skip(1);
        match spec_rx_poll(f) {
            RxPoll::Empty => {
                lemma_nonblocking_outcome(buf, pos, rest);
                let k1 = (k - 1) as nat;
                assert(obs.take(k as int)[0] == obs[0]);
                assert(obs.take(k as int).skip(1) =~= rest.take(k1 as int));
                assert(ready_bytes(obs.take(k as int)) =~= ready_bytes(rest.take(k1 as int)));
                assert forall|j: int| 0 <= j < obs.len() && rest.len() == k1 && no_failure(rest)
                    implies !(#[trigger] spec_rx_poll(obs[j].0) is Failed) by {
                    if j > 0 {
                        assert(obs[j] == rest[j - 1]);
                    }
                }
                assert forall|j: int| 0 <= j < k && no_failure(rest.take(k1 as int)) implies !(
                #[trigger] spec_rx_poll(obs.take(k as int)[j].0) is Failed) by {
                    if j > 0 {
                        assert(obs.take(k as int)[j] == rest.take(k1 as int)[j - 1]);
                    }
                }
                assert forall|j: int| 0 <= j < k - 1 && k1 >= 1 && no_failure(rest.take(k1 - 1))
                    implies !(#[trigger] spec_rx_poll(obs.take(k - 1)[j].0) is Failed) by {
                    if j > 0 {
                        assert(obs.take(k - 1)[j] == rest.take(k1 - 1)[j - 1]);
                    }
                }
                if k1 >= 1 {
                    assert(obs[k - 1] == rest[k1 - 1]);
                }
            },
            RxPoll::Failed(e) => {
                assert(obs.take(1)[0] == obs[0]);
                assert(obs.take(1).skip(1).len() == 0);
                assert(ready_bytes(obs.take(1).skip(1)) =~= Seq::<u8>::empty());
                assert(ready_bytes(obs.take(1)) =~= Seq::<u8>::empty());
                assert(obs.take(0).len() == 0);
                assert(buf =~= buf.take(pos as int) + Seq::<u8>::empty() + buf.skip(pos as int));
            },
            RxPoll::Ready => {
                let b1 = buf.update(pos as int, d);
                if pos + 1 >= buf.len() {
                    assert(obs.take(1)[0] == obs[0]);
                    assert(obs.take(1).skip(1).len() == 0);
                    assert(ready_bytes(obs.take(1).skip(1)) =~= Seq::<u8>::empty());
                    assert(ready_bytes(obs.take(1)) =~= seq![d]);
                    assert(b1 =~= buf.take(pos as int) + seq![d] + buf.skip(pos + 1 as int));
                } else {
                    lemma_nonblocking_outcome(b1, pos + 1, rest);
                    let k1 = (k - 1) as nat;
                    let p1 = pos + 1;
                    assert(obs.take(k as int)[0] == obs[0]);
                    assert(obs.take(k as int).skip(1) =~= rest.take(k1 as int));
                    let rb = ready_bytes(rest.take(k1 as int));
                    assert(ready_bytes(obs.take(k as int)) =~= seq![d] + rb);
                    assert(b1.take(p1 as int) =~= buf.take(pos as int) + seq![d]);
                    assert(b1.skip(p as int) =~= buf.skip(p as int));
                    assert(b =~= buf.take(pos as int) + (seq![d] + rb) + buf.skip(p as int));
                    assert forall|j: int| 0 <= j < obs.len() && rest.len() == k1 && no_failure(
                        rest,
                    ) implies !(#[trigger] spec_rx_poll(obs[j].0) is Failed) by {
                        if j > 0 {
                            assert(obs[j] == rest[j - 1]);
                        }
                    }
                    assert forall|j: int|
                        0 <= j < k && no_failure(rest.take(k1 as int)) implies !(
                    #[trigger] spec_rx_poll(obs.take(k as int)[j].0) is Failed) by {
                        if j > 0 {
                            assert(obs.take(k as int)[j] == rest.take(k1 as int)[j - 1]);
                        }
                    }
                    assert forall|j: int|
                        0 <= j < k - 1 && k1 >= 1 && no_failure(rest.take(k1 - 1)) implies !(
                    #[trigger] spec_rx_poll(obs.take(k - 1)[j].0) is Failed) by {
                        if j > 0 {
                            assert(obs.take(k - 1)[j] == rest.take(k1 - 1)[j - 1]);
                        }
                    }
                    if k1 >= 1 {
                        assert(obs[k - 1] == rest[k1 - 1]);
                    }
                }
            },
        }
    }
}

/// How a blocking read over the register reads of non-blocking reads `obs`
/// ends, where `k` is how many of those reads it used: it succeeds only with
/// every slot filled and no error flag among the polls it made; it fails with
/// the error of its last poll, the first that found an error flag; it never
/// fails when no poll finds an error flag. The buffer holds, after the slots
/// filled before, the waiting bytes in the order they were found.
pub proof fn lemma_rx_blocking_outcome(buf: Seq<u8>, pos: nat, obs: Seq<ReadObservation>)
    requires
        pos < buf.len(),
    ensures
        ({
            let (b, p, ph, _) = rx_run(buf, pos, RxPhase::Polling, reads_events(obs));
            let k = nonblocking_loop(buf, pos, obs).3;
            &&& k <= obs.len()
            &&& (ph == RxPhase::Done(Ok(())) ==> no_failure(obs.take(k as int)) && p == buf.len())
            &&& (ph matches RxPhase::Done(Err(e)) ==> k >= 1 && no_failure(obs.take(k - 1))
                && spec_rx_poll(obs[k - 1].0) == RxPoll::Failed(e))
            &&& (no_failure(obs) ==> !(ph matches RxPhase::Done(Err(_))))
            &&& b == buf.take(pos as int) + ready_bytes(obs.take(k as int)) + buf.skip(p as int)
        }),
{
    lemma_nonblocking_outcome(buf, pos, obs);
    lemma_rx_matches_nonblocking(buf, pos, obs);
    let (b, p, ph, _) = rx_run(buf, pos, RxPhase::Polling, reads_events(obs));
    let (b2, p2, o, k) = nonblocking_loop(buf, pos, obs);
    match o {
        None => {},
        Some(Ok(u)) => {
            assert(u == ());
        },
        Some(Err(e)) => {
            if no_failure(obs) {
                assert(0 <= k - 1 < obs.len());
                assert(!(spec_rx_poll(obs[k - 1].0) is Failed));
            }
        },
    }
}

/// A read whose polls find no error and, in time, enough waiting bytes for
/// the rest of the buffer succeeds, however many polls in between find
/// nothing.
pub proof fn lemma_rx_eventually_fills(buf: Seq<u8>, pos: nat, obs: Seq<ReadObservation>)
    requires
        pos < buf.len(),
        no_failure(obs),
        ready_bytes(obs).len() >= buf.len() - pos,
    ensures
        nonblocking_loop(buf, pos, obs).2 == Some(Ok::<(), Error>(())),
        rx_run(buf, pos, RxPhase::Polling, reads_events(obs)).2 == RxPhase::Done(Ok(())),
{
    lemma_nonblocking_outcome(buf, pos, obs);
    lemma_rx_matches_nonblocking(buf, pos, obs);
    let (b, p, o, k) = nonblocking_loop(buf, pos, obs);
    match o {
        None => {
            assert(obs.take(k as int) =~= obs);
            assert(false);
        },
        Some(Err(e)) => {
            assert(0 <= k - 1 < obs.len());
            assert(!(spec_rx_poll(obs[k - 1].0) is Failed));
            assert(false);
        },
        Some(Ok(u)) => {
            assert(u == ());
            assert(o == Some(Ok::<(), Error>(())));
        },
    }
    assert(nonblocking_loop(buf, pos, obs).2 == o);
}

/// A read asks the caller to finish exactly when it is over, and then
/// reports the outcome it ended with.
pub proof fn lemma_rx_finish_reports_outcome(phase: RxPhase, r: Result<(), Error>)
    ensures
        rx_action(phase) == RxAction::Finish(r) <==> phase == RxPhase::Done(r),
{
}

/// The first non-blocking read that finds an error flag, made while slots of
/// the buffer are still empty, ends the loop of reads with that error.
pub proof fn lemma_nonblocking_first_error(
    buf: Seq<u8>,
    pos: nat,
    obs: Seq<ReadObservation>,
    i: int,
    e: Error,
)
    requires
        pos < buf.len(),
        0 <= i < obs.len(),
        spec_rx_poll(obs[i].0) == RxPoll::Failed(e),
        no_failure(obs.take(i)),
        pos + ready_bytes(obs.take(i)).len() < buf.len(),
    ensures
        nonblocking_loop(buf, pos, obs).2 == Some(Err::<(), Error>(e)),
    decreases i,
{
    if i > 0 {
        let rest = obs.skip(1);
        assert(obs.take(i)[0] == obs[0]);
        assert(obs.take(i).skip(1) =~= rest.take(i - 1));
        assert(!(spec_rx_poll(obs.take(i)[0].0) is Failed));
        assert(rest[i - 1] == obs[i]);
        assert forall|j: int| 0 <= j < i - 1 implies !(#[trigger] spec_rx_poll(
            rest.take(i - 1)[j].0,
        ) is Failed) by {
            assert(rest.take(i - 1)[j] == obs.take(i)[j + 1]);
        }
        match spec_rx_poll(obs[0].0) {
            RxPoll::Empty => {
                assert(ready_bytes(obs.take(i)) =~= ready_bytes(rest.take(i - 1)));
                lemma_nonblocking_first_error(buf, pos, rest, i - 1, e);
            },
            RxPoll::Ready => {
                assert(ready_bytes(obs.take(i)) =~= seq![obs[0].1] + ready_bytes(rest.take(i - 1)));
                lemma_nonblocking_first_error(
                    buf.update(pos as int, obs[0].1),
                    pos + 1,
                    rest,
                    i - 1,
                    e,
                );
            },
            RxPoll::Failed(_) => {},
        }
    }
}

/// A blocking read finishes successfully only with every slot of the buffer
/// filled and no error flag among the polls it made; and when a poll finds an
/// error flag before the buffer is full, with no error flag in the polls
/// before it, the read finishes with that error.
pub proof fn lemma_rx_blocking_reports_error(
    buf: Seq<u8>,
    pos: nat,
    obs: Seq<ReadObservation>,
)
    requires
        pos < buf.len(),
    ensures
        ({
            let (b, p, ph, _) = rx_run(buf, pos, RxPhase::Polling, reads_events(obs));
            let k = nonblocking_loop(buf, pos, obs).3;
            &&& rx_action(ph) == RxAction::Finish(Ok(())) ==> p == buf.len() && no_failure(
                obs.take(k as int),
            )
            &&& forall|i: int|
                #![trigger obs[i]]
                0 <= i < obs.len() && spec_rx_poll(obs[i].0) is Failed && no_failure(obs.take(i))
                    && pos + ready_bytes(obs.take(i)).len() < buf.len() ==> rx_action(ph)
                    == RxAction::Finish(Err(spec_rx_poll(obs[i].0)->Failed_0))
        }),
{
    lemma_rx_blocking_outcome(buf, pos, obs);
    lemma_rx_matches_nonblocking(buf, pos, obs);
    let (b, p, ph, _) = rx_run(buf, pos, RxPhase::Polling, reads_events(obs));
    assert forall|i: int|
        #![trigger obs[i]]
        0 <= i < obs.len() && spec_rx_poll(obs[i].0) is Failed && no_failure(obs.take(i)) && pos
            + ready_bytes(obs.take(i)).len() < buf.len() implies rx_action(ph) == RxAction::Finish(
        Err(spec_rx_poll(obs[i].0)->Failed_0),
    ) by {
        lemma_nonblocking_first_error(buf, pos, obs, i, spec_rx_poll(obs[i].0)->Failed_0);
    }
}

// ----- Blocking write -----

/// What the caller observed for a blocking write.
#[derive(Clone, Copy, Debug)]
pub enum TxEvent {
    /// The status flags that were read.
    Status(StatusFlags),
    /// The byte asked for was written to the data register.
    Written,
}

/// Where a blocking write stands.
#[derive(Clone, Copy, PartialEq, Eq, Structural, Debug)]
pub enum TxPhase {
    /// Waiting for the transmit data register to be empty.
    Polling,
    /// The transmit data register is empty; the next byte is written.
    Writing,
    /// Every byte has been written.
    Done,
}

/// What the caller must do next for a blocking write.
#[derive(Clone, Copy, PartialEq, Eq, Structural, Debug)]
pub enum TxAction {
    /// Read the status flags and hand them back as `TxEvent::Status`.
    ReadStatus,
    /// Write this byte to the data register and answer `TxEvent::Written`.
    WriteData(u8),
    /// The write is over; it succeeded.
    Finish,
}

/// The action that a blocking write of `data`, of which `pos` bytes are
/// written, asks for in `phase`.
pub open spec fn tx_action(data: Seq<u8>, pos: nat, phase: TxPhase) -> TxAction {
    match phase {
        TxPhase::Polling => TxAction::ReadStatus,
        TxPhase::Writing => TxAction::WriteData(data[pos as int]),
        TxPhase::Done => TxAction::Finish,
    }
}

/// One step of a blocking write of `data`: the new position and phase. An
/// event that does not answer the pending action changes nothing.
pub open spec fn tx_step(data: Seq<u8>, pos: nat, phase: TxPhase, ev: TxEvent) -> (nat, TxPhase) {
    match (phase, ev) {
        (TxPhase::Polling, TxEvent::Status(f)) => if f.txe {
            (pos, TxPhase::Writing)
        } else {
            (pos, TxPhase::Polling)
        },
        (TxPhase::Writing, TxEvent::Written) => (
            pos + 1,
            if pos + 1 == data.len() {
                TxPhase::Done
            } else {
                TxPhase::Polling
            },
        ),
        _ => (pos, phase),
    }
}

/// The bytes that one step puts on the wire.
pub open spec fn tx_sent(data: Seq<u8>, pos: nat, phase: TxPhase, ev: TxEvent) -> Seq<u8> {
    match (phase, ev) {
        (TxPhase::Writing, TxEvent::Written) => seq![data[pos as int]],
        _ => Seq::empty(),
    }
}

/// A consistent blocking write: the position is inside the data, the write is
/// going on only while bytes are left, and it is done only when all are
/// written.
pub open spec fn tx_inv(data: Seq<u8>, pos: nat, phase: TxPhase) -> bool {
    &&& pos <= data.len()
    &&& (phase == TxPhase::Done <==> pos == data.len())
}

/// The blocking write after the events `evs`, and the bytes it put on the
/// wire, in order.
pub open spec fn tx_run(data: Seq<u8>, pos: nat, phase: TxPhase, evs: Seq<TxEvent>) -> (
    nat,
    TxPhase,
    Seq<u8>,
)
    decreases evs.len(),
{
    if evs.len() == 0 {
        (pos, phase, Seq::empty())
    } else {
        let (p1, ph1) = tx_step(data, pos, phase, evs[0]);
        let (p2, ph2, sent) = tx_run(data, p1, ph1, evs.skip(1));
        (p2, ph2, tx_sent(data, pos, phase, evs[0]) + sent)
    }
}

/// A blocking write of a buffer: for each byte, the status flags are polled
/// until the transmit data register is empty, then the byte is written.
pub struct BlockingWrite<'a> {
    data: &'a [u8],
    pos: usize,
    phase: TxPhase,
}

impl<'a> BlockingWrite<'a> {
    #[verifier::type_invariant]
    spec fn consistent(self) -> bool {
        tx_inv(self.data@, self.pos as nat, self.phase)
    }

    /// The bytes to write.
    pub closed spec fn data(self) -> Seq<u8> {
        self.data@
    }

    /// How many bytes are written.
    pub closed spec fn position(self) -> nat {
        self.pos as nat
    }

    /// Where the write stands.
    pub closed spec fn phase(self) -> TxPhase {
        self.phase
    }

    /// Starts a write of `data`; empty data is done at once.
    pub fn new(data: &'a [u8]) -> (m: Self)
        ensures
            m.data() == data@,
            m.position() == 0,
            m.phase() == (if data@.len() == 0 {
                TxPhase::Done
            } else {
                TxPhase::Polling
            }),
    {
        let phase = if data.len() == 0 {
            TxPhase::Done
        } else {
            TxPhase::Polling
        };
        BlockingWrite { data, pos: 0, phase }
    }

    /// The action that the write asks for.
    pub fn action(&self) -> (a: TxAction)
        ensures
            a == tx_action(self.data(), self.position(), self.phase()),
    {
        proof {
            use_type_invariant(self);
        }
        match self.phase {
            TxPhase::Polling => TxAction::ReadStatus,
            TxPhase::Writing => TxAction::WriteData(self.data[self.pos]),
            TxPhase::Done => TxAction::Finish,
        }
    }

    /// Hands the write one event; returns the write after it and the action
    /// it asks for next.
    pub fn step(self, ev: TxEvent) -> (out: (Self, TxAction))
        ensures
            out.0.data() == self.data(),
            (out.0.position(), out.0.phase()) == tx_step(
                self.data(),
                self.position(),
                self.phase(),
                ev,
            ),
            out.1 == tx_action(out.0.data(), out.0.position(), out.0.phase()),
            tx_inv(out.0.data(), out.0.position(), out.0.phase()),
    {
        proof {
            use_type_invariant(&self);
        }
        let BlockingWrite { data, pos, phase } = self;
        let next = match (phase, ev) {
            (TxPhase::Polling, TxEvent::Status(f)) => if f.txe {
                BlockingWrite { data, pos, phase: TxPhase::Writing }
            } else {
                BlockingWrite { data, pos, phase: TxPhase::Polling }
            },
            (TxPhase::Writing, TxEvent::Written) => {
                let len = data.len();
                assert(pos < len);
                let phase = if pos + 1 == len {
                    TxPhase::Done
                } else {
                    TxPhase::Polling
                };
                BlockingWrite { data, pos: pos + 1, phase }
            },
            _ => BlockingWrite { data, pos, phase },
        };
        proof {
            use_type_invariant(&next);
        }
        let a = next.action();
        (next, a)
    }
}

/// Every step keeps a write consistent.
pub proof fn lemma_tx_step_consistent(data: Seq<u8>, pos: nat, phase: TxPhase, ev: TxEvent)
    requires
        tx_inv(data, pos, phase),
    ensures
        ({
            let (p, ph) = tx_step(data, pos, phase, ev);
            tx_inv(data, p, ph)
        }),
{
}

/// Over any run of events, the bytes a write puts on the wire are exactly the
/// next bytes of the data, in order, none skipped or repeated; it finishes
/// only when every byte has been written.
pub proof fn lemma_tx_run(data: Seq<u8>, pos: nat, phase: TxPhase, evs: Seq<TxEvent>)
    requires
        tx_inv(data, pos, phase),
    ensures
        ({
            let (p, ph, sent) = tx_run(data, pos, phase, evs);
            &&& tx_inv(data, p, ph)
            &&& pos <= p
            &&& sent == data.subrange(pos as int, p as int)
        }),
    decreases evs.len(),
{
    if evs.len() == 0 {
        assert(data.subrange(pos as int, pos as int) =~= Seq::<u8>::empty());
    } else {
        let (p1, ph1) = tx_step(data, pos, phase, evs[0]);
        lemma_tx_step_consistent(data, pos, phase, evs[0]);
        lemma_tx_run(data, p1, ph1, evs.skip(1));
        let (p2, ph2, sent2) = tx_run(data, p1, ph1, evs.skip(1));
        let s1 = tx_sent(data, pos, phase, evs[0]);
        if s1.len() == 1 {
            assert(s1 + sent2 =~= data.subrange(pos as int, p2 as int));
        } else {
            assert(s1 + sent2 =~= sent2);
        }
    }
}

/// The events of a write in which every poll finds the transmit register
/// empty: for each remaining byte, the status `f` and the write.
pub open spec fn tx_ready_events(f: StatusFlags, n: nat) -> Seq<TxEvent>
    decreases n,
{
    if n == 0 {
        Seq::empty()
    } else {
        seq![TxEvent::Status(f), TxEvent::Written] + tx_ready_events(f, (n - 1) as nat)
    }
}

/// When every poll finds the transmit register empty, the write puts all
/// remaining bytes on the wire in order and finishes.
pub proof fn lemma_tx_ready_completes(data: Seq<u8>, pos: nat, f: StatusFlags)
    requires
        f.txe,
        pos < data.len(),
    ensures
        tx_run(data, pos, TxPhase::Polling, tx_ready_events(f, (data.len() - pos) as nat)) == (
            data.len(),
            TxPhase::Done,
            data.skip(pos as int),
        ),
    decreases data.len() - pos,
{
    let n = (data.len() - pos) as nat;
    let evs = tx_ready_events(f, n);
    let tail = tx_ready_events(f, (n - 1) as nat);
    assert(evs[0] == TxEvent::Status(f));
    assert(evs.skip(1) =~= seq![TxEvent::Written] + tail);
    assert(evs.skip(1).skip(1) =~= tail);
    assert(evs.skip(1)[0] == TxEvent::Written);
    let p1 = pos + 1;
    let ph1 = if p1 == data.len() {
        TxPhase::Done
    } else {
        TxPhase::Polling
    };
    let r2 = tx_run(data, p1, ph1, tail);
    assert(tx_run(data, pos, TxPhase::Writing, evs.skip(1)) == (
        r2.0,
        r2.1,
        seq![data[pos as int]] + r2.2,
    ));
    assert(tx_run(data, pos, TxPhase::Polling, evs) == (r2.0, r2.1, seq![data[pos as int]] + r2.2));
    if p1 == data.len() {
        assert(tail.len() == 0);
        assert(seq![data[pos as int]] + Seq::<u8>::empty() =~= data.skip(pos as int));
    } else {
        lemma_tx_ready_completes(data, p1, f);
        assert(seq![data[pos as int]] + data.skip(p1 as int) =~= data.skip(pos as int));
    }
}

/// Running a write over two runs of events one after the other is running it
/// over the first and then over the second.
pub proof fn lemma_tx_run_append(
    data: Seq<u8>,
    pos: nat,
    phase: TxPhase,
    a: Seq<TxEvent>,
    b: Seq<TxEvent>,
)
    ensures
        ({
            let r1 = tx_run(data, pos, phase, a);
            let r2 = tx_run(data, r1.0, r1.1, b);
            tx_run(data, pos, phase, a + b) == (r2.0, r2.1, r1.2 + r2.2)
        }),
    decreases a.len(),
{
    if a.len() == 0 {
        assert(a + b =~= b);
        let r2 = tx_run(data, pos, phase, b);
        assert(Seq::<u8>::empty() + r2.2 =~= r2.2);
    } else {
        let (p1, ph1) = tx_step(data, pos, phase, a[0]);
        assert((a + b)[0] == a[0]);
        assert((a + b).skip(1) =~= a.skip(1) + b);
        lemma_tx_run_append(data, p1, ph1, a.skip(1), b);
        let r1 = tx_run(data, p1, ph1, a.skip(1));
        let r2 = tx_run(data, r1.0, r1.1, b);
        let s0 = tx_sent(data, pos, phase, a[0]);
        assert(s0 + (r1.2 + r2.2) =~= (s0 + r1.2) + r2.2);
    }
}

/// A write that is over stays over, whatever events follow.
pub proof fn lemma_tx_run_done(data: Seq<u8>, pos: nat, evs: Seq<TxEvent>)
    ensures
        tx_run(data, pos, TxPhase::Done, evs) == (pos, TxPhase::Done, Seq::<u8>::empty()),
    decreases evs.len(),
{
    if evs.len() > 0 {
        lemma_tx_run_done(data, pos, evs.skip(1));
        assert(Seq::<u8>::empty() + Seq::<u8>::empty() =~= Seq::<u8>::empty());
    }
}

/// The register accesses that follow one status read of a blocking write:
/// the status, then the write of the next byte if the transmit register was
/// empty.
pub open spec fn write_events(f: StatusFlags) -> Seq<TxEvent> {
    if f.txe {
        seq![TxEvent::Status(f), TxEvent::Written]
    } else {
        seq![TxEvent::Status(f)]
    }
}

/// The register accesses that follow a run of status reads.
pub open spec fn writes_events(fs: Seq<StatusFlags>) -> Seq<TxEvent>
    decreases fs.len(),
{
    if fs.len() == 0 {
        Seq::empty()
    } else {
        write_events(fs[0]) + writes_events(fs.skip(1))
    }
}

/// How many of the status reads `fs` found the transmit register empty.
pub open spec fn count_tx_empty(fs: Seq<StatusFlags>) -> nat
    decreases fs.len(),
{
    if fs.len() == 0 {
        0
    } else {
        (if fs[0].txe {
            1nat
        } else {
            0nat
        }) + count_tx_empty(fs.skip(1))
    }
}

/// Each status read that finds the transmit register empty sends the next
/// byte, however many reads in between find it busy: after the reads `fs`
/// the write has sent one byte per such read, in order, and is done once
/// that covers every byte.
pub proof fn lemma_tx_eventually_done(data: Seq<u8>, pos: nat, fs: Seq<StatusFlags>)
    requires
        pos < data.len(),
    ensures
        ({
            let (p, ph, sent) = tx_run(data, pos, TxPhase::Polling, writes_events(fs));
            let n = pos + count_tx_empty(fs);
            &&& p == (if n >= data.len() {
                data.len()
            } else {
                n
            })
            &&& ph == (if n >= data.len() {
                TxPhase::Done
            } else {
                TxPhase::Polling
            })
            &&& sent == data.subrange(pos as int, p as int)
        }),
    decreases fs.len(),
{
    lemma_tx_run(data, pos, TxPhase::Polling, writes_events(fs));
    if fs.len() > 0 {
        let f = fs[0];
        let head = write_events(f);
        let tail = writes_events(fs.skip(1));
        assert(writes_events(fs) == head + tail);
        lemma_tx_run_append(data, pos, TxPhase::Polling, head, tail);
        assert(head[0] == TxEvent::Status(f));
        if f.txe {
            let p1 = pos + 1;
            let ph1 = if p1 == data.len() {
                TxPhase::Done
            } else {
                TxPhase::Polling
            };
            assert(head.skip(1)[0] == TxEvent::Written);
            assert(head.skip(1).skip(1).len() == 0);
            assert(tx_run(data, p1, ph1, head.skip(1).skip(1)) == (p1, ph1, Seq::<u8>::empty()));
            assert(tx_run(data, pos, TxPhase::Writing, head.skip(1)).0 == p1);
            assert(tx_run(data, pos, TxPhase::Writing, head.skip(1)).1 == ph1);
            assert(tx_run(data, pos, TxPhase::Polling, head).0 == p1);
            assert(tx_run(data, pos, TxPhase::Polling, head).1 == ph1);
            if p1 == data.len() {
                lemma_tx_run_done(data, p1, tail);
            } else {
                lemma_tx_eventually_done(data, p1, fs.skip(1));
            }
        } else {
            assert(head.skip(1).len() == 0);
            assert(tx_run(data, pos, TxPhase::Polling, head.skip(1)) == (
                pos,
                TxPhase::Polling,
                Seq::<u8>::empty(),
            ));
            assert(tx_run(data, pos, TxPhase::Polling, head).0 == pos);
            assert(tx_run(data, pos, TxPhase::Polling, head).1 == TxPhase::Polling);
            lemma_tx_eventually_done(data, pos, fs.skip(1));
        }
    }
}

/// The byte that one step hands to the data register: the byte the pending
/// action names, when the step answers that it was written.
pub open spec fn tx_named(data: Seq<u8>, pos: nat, phase: TxPhase, ev: TxEvent) -> Seq<u8> {
    match (tx_action(data, pos, phase), ev) {
        (TxAction::WriteData(b), TxEvent::Written) => seq![b],
        _ => Seq::empty(),
    }
}

/// The bytes that a run of events hands to the data register, as named by
/// the write's actions, in order.
pub open spec fn tx_run_named(data: Seq<u8>, pos: nat, phase: TxPhase, evs: Seq<TxEvent>) -> Seq<u8>
    decreases evs.len(),
{
    if evs.len() == 0 {
        Seq::empty()
    } else {
        let (p1, ph1) = tx_step(data, pos, phase, evs[0]);
        tx_named(data, pos, phase, evs[0]) + tx_run_named(data, p1, ph1, evs.skip(1))
    }
}

/// Over any run of events, the bytes that the write's actions ask the caller
/// to put in the data register are the next bytes of the data, unchanged and
/// in order, up to the position the write reaches.
pub proof fn lemma_tx_actions_name_data(data: Seq<u8>, pos: nat, phase: TxPhase, evs: Seq<TxEvent>)
    requires
        tx_inv(data, pos, phase),
    ensures
        tx_run_named(data, pos, phase, evs) == data.subrange(
            pos as int,
            tx_run(data, pos, phase, evs).0 as int,
        ),
    decreases evs.len(),
{
    lemma_tx_run(data, pos, phase, evs);
    if evs.len() == 0 {
        assert(data.subrange(pos as int, pos as int) =~= Seq::<u8>::empty());
    } else {
        let (p1, ph1) = tx_step(data, pos, phase, evs[0]);
        lemma_tx_step_consistent(data, pos, phase, evs[0]);
        lemma_tx_actions_name_data(data, p1, ph1, evs.skip(1));
        lemma_tx_run(data, p1, ph1, evs.skip(1));
        assert(tx_named(data, pos, phase, evs[0]) == tx_sent(data, pos, phase, evs[0]));
        let p2 = tx_run(data, p1, ph1, evs.skip(1)).0;
        let n1 = tx_named(data, pos, phase, evs[0]);
        if n1.len() == 1 {
            assert(n1 + data.subrange(p1 as int, p2 as int) =~= data.subrange(pos as int, p2 as int));
        } else {
            assert(n1 + data.subrange(p1 as int, p2 as int) =~= data.subrange(p1 as int, p2 as int));
        }
    }
}

} // verus!
