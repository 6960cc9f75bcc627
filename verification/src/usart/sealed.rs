//! The sealed side of the peripheral instance traits.
use vstd::prelude::*;

verus! {

/// A USART or LPUART peripheral.
pub trait BasicInstance {
    /// The factor by which the baud rate divisor is scaled for this kind of
    /// peripheral.
    spec fn spec_multiplier() -> u32;

    /// The factor by which the baud rate divisor is scaled for this kind of
    /// peripheral.
    fn multiplier() -> (m: u32)
        ensures
            m == Self::spec_multiplier(),
    ;
}

/// A full USART peripheral (not a low-power UART).
pub trait FullInstance: BasicInstance {

}

} // verus!
