//! Reading the status flags.
use vstd::prelude::*;
use crate::usart::config::Error;

verus! {

/// The status flags that the driver reads.
#[derive(Clone, Copy, PartialEq, Eq, Structural, Debug)]
pub struct StatusFlags {
    /// Parity error.
    pub pe: bool,
    /// Framing error.
    pub fe: bool,
    /// Noise detected.
    pub ne: bool,
    /// Overrun error.
    pub ore: bool,
    /// Receive data register not empty.
    pub rxne: bool,
    /// Transmission complete.
    pub tc: bool,
    /// Transmit data register empty.
    pub txe: bool,
}

/// What a status read means for reception.
#[derive(Clone, Copy, PartialEq, Eq, Structural, Debug)]
pub enum RxPoll {
    /// A reception error: the data register is read to discard the byte and
    /// the error is reported.
    Failed(Error),
    /// A byte is waiting in the data register.
    Ready,
    /// Nothing has arrived yet.
    Empty,
}

/// Error flags are checked first, in the order parity, framing, noise,
/// overrun; only then does a waiting byte count.
pub open spec fn spec_rx_poll(f: StatusFlags) -> RxPoll {
    if f.pe {
        RxPoll::Failed(Error::Parity)
    } else if f.fe {
        RxPoll::Failed(Error::Framing)
    } else if f.ne {
        RxPoll::Failed(Error::Noise)
    } else if f.ore {
        RxPoll::Failed(Error::Overrun)
    } else if f.rxne {
        RxPoll::Ready
    } else {
        RxPoll::Empty
    }
}

/// What a status read means for reception.
pub fn rx_poll(f: &StatusFlags) -> (p: RxPoll)
    ensures
        p == spec_rx_poll(*f),
{
    if f.pe {
        RxPoll::Failed(Error::Parity)
    } else if f.fe {
        RxPoll::Failed(Error::Framing)
    } else if f.ne {
        RxPoll::Failed(Error::Noise)
    } else if f.ore {
        RxPoll::Failed(Error::Overrun)
    } else if f.rxne {
        RxPoll::Ready
    } else {
        RxPoll::Empty
    }
}

/// An error flag always wins over a waiting byte, and a byte is reported only
/// when one is waiting and no error flag is set.
pub proof fn lemma_rx_errors_first(f: StatusFlags)
    ensures
        (f.pe || f.fe || f.ne || f.ore) <==> spec_rx_poll(f) is Failed,
        spec_rx_poll(f) == RxPoll::Ready <==> (f.rxne && !(f.pe || f.fe || f.ne || f.ore)),
{
}

/// What a non-blocking read reports.
#[derive(Clone, Copy, PartialEq, Eq, Structural, Debug)]
pub enum ReadOutcome {
    /// The byte that was waiting.
    Byte(u8),
    /// A reception error; the byte in the data register was discarded.
    Failed(Error),
    /// Nothing has arrived yet; try again.
    WouldBlock,
}

/// Whether a non-blocking read goes on to read the data register after a
/// poll: for a waiting byte, and to discard the byte after an error.
pub open spec fn reads_data(p: RxPoll) -> bool {
    !(p is Empty)
}

/// Whether a non-blocking read goes on to read the data register after the
/// poll `p`.
pub fn needs_data_read(p: &RxPoll) -> (b: bool)
    ensures
        b == reads_data(*p),
{
    match p {
        RxPoll::Empty => false,
        _ => true,
    }
}

/// What a non-blocking read reports after the poll `p`, where `data` is what
/// the data register gave if it was read.
pub open spec fn spec_read_outcome(p: RxPoll, data: u8) -> ReadOutcome {
    match p {
        RxPoll::Failed(e) => ReadOutcome::Failed(e),
        RxPoll::Ready => ReadOutcome::Byte(data),
        RxPoll::Empty => ReadOutcome::WouldBlock,
    }
}

/// What a non-blocking read reports after the poll `p`, where `data` is what
/// the data register gave if it was read.
pub fn read_outcome(p: RxPoll, data: u8) -> (r: ReadOutcome)
    ensures
        r == spec_read_outcome(p, data),
{
    match p {
        RxPoll::Failed(e) => ReadOutcome::Failed(e),
        RxPoll::Ready => ReadOutcome::Byte(data),
        RxPoll::Empty => ReadOutcome::WouldBlock,
    }
}

/// Whether a flush is over: the transmission is complete.
pub fn flush_done(f: &StatusFlags) -> (done: bool)
    ensures
        done == f.tc,
{
    f.tc
}

/// Whether the status flags `f` show the reception error `e`.
pub open spec fn shows_error(f: StatusFlags, e: Error) -> bool {
    match e {
        Error::Parity => f.pe,
        Error::Framing => f.fe,
        Error::Noise => f.ne,
        Error::Overrun => f.ore,
    }
}

/// The rank of each reception error: when several are flagged at once, the
/// one of lowest rank is reported (parity, framing, noise, overrun).
pub open spec fn error_rank(e: Error) -> nat {
    match e {
        Error::Parity => 0,
        Error::Framing => 1,
        Error::Noise => 2,
        Error::Overrun => 3,
    }
}

/// A poll reports the error `e` exactly when the flags show `e` and show no
/// error of lower rank: each error flag is reported as its own error, in the
/// order parity, framing, noise, overrun. A poll reports a byte exactly when
/// one is waiting and no error flag is set, and nothing otherwise.
pub proof fn lemma_rx_poll_reports_flagged_error(f: StatusFlags, e: Error)
    ensures
        spec_rx_poll(f) == RxPoll::Failed(e) <==> (shows_error(f, e) && forall|e2: Error|
            error_rank(e2) < error_rank(e) ==> !#[trigger] shows_error(f, e2)),
        spec_rx_poll(f) == RxPoll::Ready <==> (f.rxne && forall|e2: Error|
            !#[trigger] shows_error(f, e2)),
        spec_rx_poll(f) == RxPoll::Empty <==> (!f.rxne && forall|e2: Error|
            !#[trigger] shows_error(f, e2)),
{
    assert(shows_error(f, Error::Parity) == f.pe);
    assert(shows_error(f, Error::Framing) == f.fe);
    assert(shows_error(f, Error::Noise) == f.ne);
    assert(shows_error(f, Error::Overrun) == f.ore);
}

} // verus!
