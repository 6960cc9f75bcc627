//! The public instance traits and the two kinds of peripheral.
use vstd::prelude::*;
use crate::usart::sealed;

verus! {

/// A USART or LPUART peripheral.
pub trait BasicInstance: sealed::BasicInstance {

}

/// A full USART peripheral.
pub trait FullInstance: sealed::FullInstance {

}

/// A full USART peripheral: its baud rate divisor is not scaled.
pub struct UsartPeripheral;

/// A low-power UART peripheral: its baud rate divisor is scaled by 255.
pub struct LpuartPeripheral;

impl sealed::BasicInstance for UsartPeripheral {
    open spec fn spec_multiplier() -> u32 {
        1
    }

    fn multiplier() -> (m: u32) {
        1
    }
}

impl BasicInstance for UsartPeripheral {

}

impl sealed::FullInstance for UsartPeripheral {

}

impl FullInstance for UsartPeripheral {

}

impl sealed::BasicInstance for LpuartPeripheral {
    open spec fn spec_multiplier() -> u32 {
        255
    }

    fn multiplier() -> (m: u32) {
        255
    }
}

impl BasicInstance for LpuartPeripheral {

}

} // verus!
