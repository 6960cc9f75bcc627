//! Serial configuration and errors.
use vstd::prelude::*;

verus! {

/// Number of data bits in a frame.
#[derive(Clone, Copy, PartialEq, Eq, Structural, Debug)]
pub enum DataBits {
    DataBits8,
    DataBits9,
}

/// Parity bit of a frame.
#[derive(Clone, Copy, PartialEq, Eq, Structural, Debug)]
pub enum Parity {
    ParityNone,
    ParityEven,
    ParityOdd,
}

/// Number of stop bits of a frame.
#[derive(Clone, Copy, PartialEq, Eq, Structural, Debug)]
pub enum StopBits {
    /// 1 stop bit
    STOP1,
    /// 0.5 stop bits
    STOP0P5,
    /// 2 stop bits
    STOP2,
    /// 1.5 stop bits
    STOP1P5,
}

/// Serial configuration.
#[non_exhaustive]
#[derive(Clone, Copy, PartialEq, Eq, Structural, Debug)]
pub struct Config {
    pub baudrate: u32,
    pub data_bits: DataBits,
    pub stop_bits: StopBits,
    pub parity: Parity,
}

/// The default configuration: 115200 baud, 8 data bits, 1 stop bit, no
/// parity.
pub open spec fn default_config() -> Config {
    Config {
        baudrate: 115200,
        data_bits: DataBits::DataBits8,
        stop_bits: StopBits::STOP1,
        parity: Parity::ParityNone,
    }
}

impl Default for Config {
    fn default() -> (c: Self)
        ensures
            c == default_config(),
    {
        Self {
            baudrate: 115200,
            data_bits: DataBits::DataBits8,
            stop_bits: StopBits::STOP1,
            parity: Parity::ParityNone,
        }
    }
}

/// Serial error
#[derive(Debug, Eq, PartialEq, Structural, Copy, Clone)]
#[non_exhaustive]
pub enum Error {
    /// Framing error
    Framing,
    /// Noise error
    Noise,
    /// RX buffer overrun
    Overrun,
    /// Parity check error
    Parity,
}

/// The kind of a serial error, as the embedded-hal 1 serial interface
/// classifies it.
#[derive(Debug, Eq, PartialEq, Structural, Copy, Clone)]
pub enum SerialErrorKind {
    /// The peripheral receive buffer was overrun.
    Overrun,
    /// Received data does not conform to the peripheral configuration.
    FrameFormat,
    /// Parity check failed.
    Parity,
    /// Serial line is too noisy to read valid data.
    Noise,
    /// A different error occurred.
    Other,
}

/// The kind of each serial error.
pub open spec fn spec_error_kind(e: Error) -> SerialErrorKind {
    match e {
        Error::Framing => SerialErrorKind::FrameFormat,
        Error::Noise => SerialErrorKind::Noise,
        Error::Overrun => SerialErrorKind::Overrun,
        Error::Parity => SerialErrorKind::Parity,
    }
}

impl Error {
    /// The kind of this error.
    pub fn kind(&self) -> (k: SerialErrorKind)
        ensures
            k == spec_error_kind(*self),
    {
        match *self {
            Error::Framing => SerialErrorKind::FrameFormat,
            Error::Noise => SerialErrorKind::Noise,
            Error::Overrun => SerialErrorKind::Overrun,
            Error::Parity => SerialErrorKind::Parity,
        }
    }
}

/// Each serial error has its own kind, and none is classed as `Other`.
pub proof fn lemma_error_kind_distinct(e1: Error, e2: Error)
    ensures
        spec_error_kind(e1) == spec_error_kind(e2) ==> e1 == e2,
        spec_error_kind(e1) != SerialErrorKind::Other,
        e1 == Error::Noise <==> spec_error_kind(e1) == SerialErrorKind::Noise,
        e1 == Error::Parity <==> spec_error_kind(e1) == SerialErrorKind::Parity,
        e1 == Error::Overrun <==> spec_error_kind(e1) == SerialErrorKind::Overrun,
        e1 == Error::Framing <==> spec_error_kind(e1) == SerialErrorKind::FrameFormat,
{
}

} // verus!
