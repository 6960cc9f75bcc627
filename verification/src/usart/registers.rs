//! Which register each access of the driver uses. The first generation of the
//! USART has one data register for both directions and a status register;
//! the second generation (and the LPUART) has separate receive and transmit
//! data registers, an interrupt status register and an interrupt flag clear
//! register.
use vstd::prelude::*;

verus! {

/// The register layout of a peripheral.
#[derive(Clone, Copy, PartialEq, Eq, Structural, Debug)]
pub enum UsartVersion {
    V1,
    V2,
}

/// A register of the peripheral.
#[derive(Clone, Copy, PartialEq, Eq, Structural, Debug)]
pub enum Register {
    /// Status register (first generation).
    Sr,
    /// Data register (first generation).
    Dr,
    /// Interrupt and status register (second generation).
    Isr,
    /// Interrupt flag clear register (second generation).
    Icr,
    /// Receive data register (second generation).
    Rdr,
    /// Transmit data register (second generation).
    Tdr,
}

/// A write of `value` to `register`.
#[derive(Clone, Copy, PartialEq, Eq, Structural, Debug)]
pub struct RegisterWrite {
    pub register: Register,
    pub value: u32,
}

/// The register that transmitted bytes are written to.
pub fn tdr(version: UsartVersion) -> (r: Register)
    ensures
        r == (match version {
            UsartVersion::V1 => Register::Dr,
            UsartVersion::V2 => Register::Tdr,
        }),
{
    match version {
        UsartVersion::V1 => Register::Dr,
        UsartVersion::V2 => Register::Tdr,
    }
}

/// The register that received bytes are read from.
pub fn rdr(version: UsartVersion) -> (r: Register)
    ensures
        r == (match version {
            UsartVersion::V1 => Register::Dr,
            UsartVersion::V2 => Register::Rdr,
        }),
{
    match version {
        UsartVersion::V1 => Register::Dr,
        UsartVersion::V2 => Register::Rdr,
    }
}

/// The register that holds the status flags.
pub fn sr(version: UsartVersion) -> (r: Register)
    ensures
        r == (match version {
            UsartVersion::V1 => Register::Sr,
            UsartVersion::V2 => Register::Isr,
        }),
{
    match version {
        UsartVersion::V1 => Register::Sr,
        UsartVersion::V2 => Register::Isr,
    }
}

/// The write that clears the interrupt flags set in the status value `sr`:
/// on the first generation the flags are cleared by the data register
/// accesses themselves and nothing is written; on the second generation the
/// same bits are written to the flag clear register.
pub fn clear_interrupt_flags(version: UsartVersion, sr: u32) -> (w: Option<RegisterWrite>)
    ensures
        w == (match version {
            UsartVersion::V1 => None,
            UsartVersion::V2 => Some(RegisterWrite { register: Register::Icr, value: sr }),
        }),
{
    match version {
        UsartVersion::V1 => None,
        UsartVersion::V2 => Some(RegisterWrite { register: Register::Icr, value: sr }),
    }
}

} // verus!
