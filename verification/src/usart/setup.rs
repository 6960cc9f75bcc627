//! The register values that initialising a UART writes.
use vstd::prelude::*;
use crate::usart::config::{Config, Parity};
use crate::usart::instance::BasicInstance;

verus! {

/// Word length selected in CR1 (the M0 bit).
#[derive(Clone, Copy, PartialEq, Eq, Structural, Debug)]
pub enum WordLength {
    Bit8,
    Bit9,
}

/// Parity selected in CR1 (the PS bit).
#[derive(Clone, Copy, PartialEq, Eq, Structural, Debug)]
pub enum ParitySelection {
    Even,
    Odd,
}

/// The fields of CR1 that initialisation sets; every other field keeps its
/// reset value.
#[derive(Clone, Copy, PartialEq, Eq, Structural, Debug)]
pub struct Cr1Setting {
    /// USART enable.
    pub ue: bool,
    /// Transmitter enable.
    pub te: bool,
    /// Receiver enable.
    pub re: bool,
    /// Word length.
    pub m0: WordLength,
    /// Parity control enable.
    pub pce: bool,
    /// Parity selection.
    pub ps: ParitySelection,
}

/// The CR1 fields for a parity setting: the peripheral, transmitter and
/// receiver are enabled; with parity the word is 9 bits long (8 data bits and
/// the parity bit) and parity control is on; odd parity selects odd, every
/// other setting even.
pub open spec fn spec_cr1(parity: Parity) -> Cr1Setting {
    Cr1Setting {
        ue: true,
        te: true,
        re: true,
        m0: if parity != Parity::ParityNone {
            WordLength::Bit9
        } else {
            WordLength::Bit8
        },
        pce: parity != Parity::ParityNone,
        ps: match parity {
            Parity::ParityOdd => ParitySelection::Odd,
            _ => ParitySelection::Even,
        },
    }
}

/// The CR1 fields that initialisation writes for `config`. Only the parity
/// of the configuration takes part: data bits and stop bits are not written.
pub fn cr1_setting(config: &Config) -> (w: Cr1Setting)
    ensures
        w == spec_cr1(config.parity),
{
    let parity_on = match config.parity {
        Parity::ParityNone => false,
        _ => true,
    };
    Cr1Setting {
        ue: true,
        te: true,
        re: true,
        m0: if parity_on {
            WordLength::Bit9
        } else {
            WordLength::Bit8
        },
        pce: parity_on,
        ps: match config.parity {
            Parity::ParityOdd => ParitySelection::Odd,
            _ => ParitySelection::Even,
        },
    }
}

/// The baud rate divisor: the peripheral clock divided by the baud rate,
/// rounded to nearest with halves up, times the peripheral's multiplier.
pub open spec fn spec_brr(pclk_hz: u32, baudrate: u32, multiplier: u32) -> int {
    (pclk_hz + baudrate / 2) / (baudrate as int) * multiplier
}

/// The baud rate divisor that initialisation writes to BRR for peripheral
/// kind `T`. A baud rate of zero, or a divisor past `u32::MAX`, is ruled out.
pub fn brr_divisor<T: BasicInstance>(pclk_hz: u32, baudrate: u32) -> (div: u32)
    requires
        baudrate > 0,
        pclk_hz + baudrate / 2 <= u32::MAX,
        spec_brr(pclk_hz, baudrate, T::spec_multiplier()) <= u32::MAX,
    ensures
        div == spec_brr(pclk_hz, baudrate, T::spec_multiplier()),
{
    let m = T::multiplier();
    let q = (pclk_hz + baudrate / 2) / baudrate;
    q * m
}

/// The value that CR2 and CR3 hold after reset, and that initialisation
/// writes to them: every field clear (one stop bit, no DMA requests).
pub const CONTROL_RESET_VALUE: u32 = 0;

/// What initialisation writes: CR2 and CR3 with their reset value, the baud
/// rate divisor to BRR, and the CR1 fields.
#[derive(Clone, Copy, PartialEq, Eq, Structural, Debug)]
pub struct UartSetup {
    pub cr2: u32,
    pub cr3: u32,
    pub brr: u32,
    pub cr1: Cr1Setting,
}

/// Whether `brr_divisor` accepts the clock and baud rate for kind `T`.
pub open spec fn brr_in_range(pclk_hz: u32, baudrate: u32, multiplier: u32) -> bool {
    &&& baudrate > 0
    &&& pclk_hz + baudrate / 2 <= u32::MAX
    &&& spec_brr(pclk_hz, baudrate, multiplier) <= u32::MAX
}

/// The register values that initialising a UART whose kind has the given
/// multiplier writes for `config` with the given peripheral clock.
pub open spec fn spec_uart_setup(pclk_hz: u32, config: Config, multiplier: u32) -> UartSetup {
    UartSetup {
        cr2: CONTROL_RESET_VALUE,
        cr3: CONTROL_RESET_VALUE,
        brr: spec_brr(pclk_hz, config.baudrate, multiplier) as u32,
        cr1: spec_cr1(config.parity),
    }
}

impl UartSetup {
    /// The register values that initialising a UART of kind `T` writes for
    /// `config` with the given peripheral clock. A baud rate of zero, or a
    /// divisor past `u32::MAX`, is ruled out.
    pub fn new<T: BasicInstance>(pclk_hz: u32, config: &Config) -> (s: UartSetup)
        requires
            brr_in_range(pclk_hz, config.baudrate, T::spec_multiplier()),
        ensures
            s == spec_uart_setup(pclk_hz, *config, T::spec_multiplier()),
            s.cr2 == 0 && s.cr3 == 0,
            s.brr == spec_brr(pclk_hz, config.baudrate, T::spec_multiplier()),
            s.cr1 == spec_cr1(config.parity),
    {
        UartSetup {
            cr2: CONTROL_RESET_VALUE,
            cr3: CONTROL_RESET_VALUE,
            brr: brr_divisor::<T>(pclk_hz, config.baudrate),
            cr1: cr1_setting(config),
        }
    }
}

/// The divisor is the peripheral clock divided by the baud rate rounded to
/// the nearest whole number, times the multiplier: the rounded quotient `q`
/// is off from the exact quotient by at most one half.
pub proof fn lemma_brr_rounds_to_nearest(pclk_hz: u32, baudrate: u32, multiplier: u32)
    requires
        baudrate > 0,
    ensures
        exists|q: int|
            #![trigger q * baudrate]
            spec_brr(pclk_hz, baudrate, multiplier) == q * multiplier && 2 * (q * baudrate)
                <= 2 * pclk_hz + baudrate && 2 * pclk_hz + baudrate < 2 * (q * baudrate) + 2
                * baudrate,
{
    let b = baudrate as int;
    let x = pclk_hz + baudrate / 2;
    let q = x / b;
    vstd::arithmetic::div_mod::lemma_fundamental_div_mod(x, b);
    assert(0 <= x % b < b);
    assert(q * b + x % b == x);
    assert(2 * (baudrate / 2) <= b && b <= 2 * (baudrate / 2) + 1);
    assert(spec_brr(pclk_hz, baudrate, multiplier) == q * multiplier);
    assert(2 * (q * b) <= 2 * pclk_hz + b);
    assert(2 * pclk_hz + b < 2 * (q * b) + 2 * b);
}

/// The CR1 fields follow the parity: the transmitter, receiver and
/// peripheral are enabled; parity control is on exactly when parity is used,
/// and then the word is 9 bits long, otherwise 8; odd parity is selected
/// exactly for odd parity.
pub proof fn lemma_cr1_follows_parity(parity: Parity)
    ensures
        spec_cr1(parity).ue && spec_cr1(parity).te && spec_cr1(parity).re,
        spec_cr1(parity).pce <==> parity != Parity::ParityNone,
        (spec_cr1(parity).m0 == WordLength::Bit9) <==> parity != Parity::ParityNone,
        (spec_cr1(parity).ps == ParitySelection::Odd) <==> parity == Parity::ParityOdd,
{
}

/// One register write of initialisation.
#[derive(Clone, Copy, PartialEq, Eq, Structural, Debug)]
pub enum InitWrite {
    Cr2(u32),
    Cr3(u32),
    Brr(u32),
    Cr1(Cr1Setting),
}

/// The register writes of initialisation in the order they are made: CR2 and
/// CR3 first, then BRR, and CR1, which enables the peripheral, last.
pub open spec fn spec_init_writes(s: UartSetup) -> Seq<InitWrite> {
    seq![InitWrite::Cr2(s.cr2), InitWrite::Cr3(s.cr3), InitWrite::Brr(s.brr), InitWrite::Cr1(s.cr1)]
}

impl UartSetup {
    /// The register writes of initialisation in the order they are made.
    pub fn writes(&self) -> (w: Vec<InitWrite>)
        ensures
            w@ == spec_init_writes(*self),
            w@.len() == 4,
            w@[3] == InitWrite::Cr1(self.cr1),
            forall|i: int| 0 <= i < 3 ==> !(#[trigger] w@[i] is Cr1),
    {
        let mut w: Vec<InitWrite> = Vec::new();
        w.push(InitWrite::Cr2(self.cr2));
        w.push(InitWrite::Cr3(self.cr3));
        w.push(InitWrite::Brr(self.brr));
        w.push(InitWrite::Cr1(self.cr1));
        assert(w@ =~= spec_init_writes(*self));
        w
    }
}

/// Initialisation does not depend on the data bits or the stop bits of the
/// configuration: two configurations with the same baud rate and parity give
/// the same register values.
pub proof fn lemma_new_ignores_data_and_stop_bits(
    pclk_hz: u32,
    c1: Config,
    c2: Config,
    multiplier: u32,
)
    requires
        c1.baudrate == c2.baudrate,
        c1.parity == c2.parity,
    ensures
        spec_uart_setup(pclk_hz, c1, multiplier) == spec_uart_setup(pclk_hz, c2, multiplier),
{
}

} // verus!
