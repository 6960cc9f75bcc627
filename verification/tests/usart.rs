use xbee_uart::usart::blocking::{BlockingRead, BlockingWrite, RxAction, RxEvent, TxAction, TxEvent};
use xbee_uart::usart::config::{Config, DataBits, Error, Parity, SerialErrorKind, StopBits};
use xbee_uart::usart::instance::{LpuartPeripheral, UsartPeripheral};
use xbee_uart::usart::registers::{clear_interrupt_flags, rdr, sr, tdr, Register, RegisterWrite, UsartVersion};
use xbee_uart::usart::setup::{brr_divisor, cr1_setting, InitWrite, ParitySelection, UartSetup, WordLength};
use xbee_uart::usart::status::{flush_done, needs_data_read, read_outcome, rx_poll, ReadOutcome, RxPoll, StatusFlags};

fn flags() -> StatusFlags {
    StatusFlags { pe: false, fe: false, ne: false, ore: false, rxne: false, tc: false, txe: false }
}

fn ready() -> StatusFlags {
    StatusFlags { rxne: true, ..flags() }
}

#[test]
fn default_config() {
    let c = Config::default();
    assert_eq!(c.baudrate, 115200);
    assert_eq!(c.data_bits, DataBits::DataBits8);
    assert_eq!(c.stop_bits, StopBits::STOP1);
    assert_eq!(c.parity, Parity::ParityNone);
}

#[test]
fn cr1_follows_parity() {
    let mut c = Config::default();
    let w = cr1_setting(&c);
    assert!(w.ue && w.te && w.re);
    assert_eq!(w.m0, WordLength::Bit8);
    assert!(!w.pce);
    assert_eq!(w.ps, ParitySelection::Even);
    c.parity = Parity::ParityEven;
    let w = cr1_setting(&c);
    assert_eq!(w.m0, WordLength::Bit9);
    assert!(w.pce);
    assert_eq!(w.ps, ParitySelection::Even);
    c.parity = Parity::ParityOdd;
    c.data_bits = DataBits::DataBits9;
    c.stop_bits = StopBits::STOP2;
    let w = cr1_setting(&c);
    assert_eq!(w.m0, WordLength::Bit9);
    assert!(w.pce);
    assert_eq!(w.ps, ParitySelection::Odd);
}

#[test]
fn baud_divisor_rounds_to_nearest() {
    // (8_000_000 + 57_600) / 115_200 = 69
    assert_eq!(brr_divisor::<UsartPeripheral>(8_000_000, 115_200), 69);
    assert_eq!(brr_divisor::<LpuartPeripheral>(8_000_000, 115_200), 69 * 255);
    // 16_000_000 / 9600 = 1666.67, rounds up to 1667
    assert_eq!(brr_divisor::<UsartPeripheral>(16_000_000, 9_600), 1667);
    // exactly half rounds up: (5 + 1) / 2 = 3
    assert_eq!(brr_divisor::<UsartPeripheral>(5, 2), 3);
}

#[test]
fn setup_combines_divisor_and_cr1() {
    let mut c = Config::default();
    c.parity = Parity::ParityOdd;
    let s = UartSetup::new::<UsartPeripheral>(8_000_000, &c);
    assert_eq!(s.brr, 69);
    assert_eq!(s.cr1, cr1_setting(&c));
    assert_eq!(s.cr2, 0);
    assert_eq!(s.cr3, 0);
}

#[test]
fn setup_example_sixteen_megahertz_odd_parity() {
    let mut c = Config::default();
    c.parity = Parity::ParityOdd;
    let s = UartSetup::new::<UsartPeripheral>(16_000_000, &c);
    assert_eq!(s.brr, 139);
    assert!(s.cr1.ue && s.cr1.te && s.cr1.re && s.cr1.pce);
    assert_eq!(s.cr1.m0, WordLength::Bit9);
    assert_eq!(s.cr1.ps, ParitySelection::Odd);
    assert_eq!((s.cr2, s.cr3), (0, 0));
    assert_eq!(
        s.writes(),
        vec![InitWrite::Cr2(0), InitWrite::Cr3(0), InitWrite::Brr(139), InitWrite::Cr1(s.cr1)]
    );
}

#[test]
fn setup_ignores_data_and_stop_bits() {
    let a = Config::default();
    let mut b = Config::default();
    b.data_bits = DataBits::DataBits9;
    b.stop_bits = StopBits::STOP0P5;
    assert_eq!(
        UartSetup::new::<LpuartPeripheral>(4_000_000, &a),
        UartSetup::new::<LpuartPeripheral>(4_000_000, &b)
    );
}

#[test]
fn error_kinds() {
    assert_eq!(Error::Framing.kind(), SerialErrorKind::FrameFormat);
    assert_eq!(Error::Noise.kind(), SerialErrorKind::Noise);
    assert_eq!(Error::Overrun.kind(), SerialErrorKind::Overrun);
    assert_eq!(Error::Parity.kind(), SerialErrorKind::Parity);
}

#[test]
fn nonblocking_read_outcomes() {
    let fe = rx_poll(&StatusFlags { fe: true, rxne: true, ..flags() });
    assert!(needs_data_read(&fe));
    assert_eq!(read_outcome(fe, 0x55), ReadOutcome::Failed(Error::Framing));
    let r = rx_poll(&ready());
    assert!(needs_data_read(&r));
    assert_eq!(read_outcome(r, 0x55), ReadOutcome::Byte(0x55));
    let e = rx_poll(&flags());
    assert!(!needs_data_read(&e));
    assert_eq!(read_outcome(e, 0), ReadOutcome::WouldBlock);
}

// Repeated non-blocking reads over the same scripted peripheral.
fn nonblocking_loop(len: usize, statuses: &[StatusFlags], bytes: &[u8]) -> (Result<(), Error>, Vec<u8>, usize, usize) {
    let mut buf = vec![0xEE; len];
    let (mut si, mut bi) = (0, 0);
    for i in 0..len {
        loop {
            let p = rx_poll(&statuses[si]);
            si += 1;
            let d = if needs_data_read(&p) {
                bi += 1;
                bytes[bi - 1]
            } else {
                0
            };
            match read_outcome(p, d) {
                ReadOutcome::Byte(b) => {
                    buf[i] = b;
                    break;
                }
                ReadOutcome::WouldBlock => continue,
                ReadOutcome::Failed(e) => return (Err(e), buf, si, bi),
            }
        }
    }
    (Ok(()), buf, si, bi)
}

#[test]
fn blocking_read_matches_nonblocking_reads() {
    let noise = StatusFlags { ne: true, ..flags() };
    let scripts: Vec<Vec<StatusFlags>> = vec![
        vec![flags(), ready(), ready(), flags(), flags(), ready()],
        vec![ready(), flags(), noise, ready()],
        vec![noise],
    ];
    for st in scripts {
        let bytes = [1, 2, 3, 4, 5, 6];
        assert_eq!(drive_read(3, &st, &bytes), nonblocking_loop(3, &st, &bytes));
    }
}

#[test]
fn register_selection() {
    assert_eq!(tdr(UsartVersion::V1), Register::Dr);
    assert_eq!(rdr(UsartVersion::V1), Register::Dr);
    assert_eq!(sr(UsartVersion::V1), Register::Sr);
    assert_eq!(tdr(UsartVersion::V2), Register::Tdr);
    assert_eq!(rdr(UsartVersion::V2), Register::Rdr);
    assert_eq!(sr(UsartVersion::V2), Register::Isr);
    assert_eq!(clear_interrupt_flags(UsartVersion::V1, 0x2F), None);
    assert_eq!(
        clear_interrupt_flags(UsartVersion::V2, 0x2F),
        Some(RegisterWrite { register: Register::Icr, value: 0x2F })
    );
}

#[test]
fn rx_poll_priority() {
    let all = StatusFlags { pe: true, fe: true, ne: true, ore: true, rxne: true, tc: true, txe: true };
    assert_eq!(rx_poll(&all), RxPoll::Failed(Error::Parity));
    assert_eq!(rx_poll(&StatusFlags { pe: false, ..all }), RxPoll::Failed(Error::Framing));
    assert_eq!(rx_poll(&StatusFlags { pe: false, fe: false, ..all }), RxPoll::Failed(Error::Noise));
    assert_eq!(
        rx_poll(&StatusFlags { pe: false, fe: false, ne: false, ..all }),
        RxPoll::Failed(Error::Overrun)
    );
    assert_eq!(rx_poll(&ready()), RxPoll::Ready);
    assert_eq!(rx_poll(&flags()), RxPoll::Empty);
    assert_eq!(rx_poll(&StatusFlags { txe: true, tc: true, ..flags() }), RxPoll::Empty);
}

#[test]
fn flush_waits_for_transmission_complete() {
    assert!(!flush_done(&StatusFlags { txe: true, ..flags() }));
    assert!(flush_done(&StatusFlags { tc: true, ..flags() }));
}

// Drives a blocking read against a scripted peripheral: statuses are handed
// out in turn, and every data read takes the next byte.
fn drive_read(len: usize, statuses: &[StatusFlags], bytes: &[u8]) -> (Result<(), Error>, Vec<u8>, usize, usize) {
    let mut m = BlockingRead::new(vec![0xEE; len]);
    let mut act = m.action();
    let (mut si, mut bi) = (0, 0);
    loop {
        match act {
            RxAction::ReadStatus => {
                let (n, a) = m.step(RxEvent::Status(statuses[si]));
                si += 1;
                m = n;
                act = a;
            }
            RxAction::ReadData => {
                let (n, a) = m.step(RxEvent::Data(bytes[bi]));
                bi += 1;
                m = n;
                act = a;
            }
            RxAction::Finish(r) => return (r, m.into_buffer(), si, bi),
        }
    }
}

#[test]
fn blocking_read_fills_buffer() {
    let (r, buf, si, bi) = drive_read(3, &[ready(), flags(), flags(), ready(), ready()], &[1, 2, 3]);
    assert_eq!(r, Ok(()));
    assert_eq!(buf, vec![1, 2, 3]);
    assert_eq!((si, bi), (5, 3));
}

#[test]
fn blocking_read_empty_buffer_is_done() {
    let (r, buf, si, bi) = drive_read(0, &[], &[]);
    assert_eq!(r, Ok(()));
    assert!(buf.is_empty());
    assert_eq!((si, bi), (0, 0));
}

#[test]
fn blocking_read_error_discards_and_stops() {
    let overrun = StatusFlags { ore: true, rxne: true, ..flags() };
    let (r, buf, si, bi) = drive_read(4, &[ready(), overrun], &[0x11, 0x22]);
    assert_eq!(r, Err(Error::Overrun));
    // the first byte was stored, the discarded byte was not
    assert_eq!(buf, vec![0x11, 0xEE, 0xEE, 0xEE]);
    assert_eq!((si, bi), (2, 2));
    let parity = StatusFlags { pe: true, ..flags() };
    let (r, buf, _, _) = drive_read(2, &[parity], &[0x33]);
    assert_eq!(r, Err(Error::Parity));
    assert_eq!(buf, vec![0xEE, 0xEE]);
}

#[test]
fn blocking_read_ignores_unasked_events() {
    let m = BlockingRead::new(vec![0; 1]);
    let (m, a) = m.step(RxEvent::Data(9));
    assert!(matches!(a, RxAction::ReadStatus));
    let (m, a) = m.step(RxEvent::Status(ready()));
    assert!(matches!(a, RxAction::ReadData));
    let (m, a) = m.step(RxEvent::Status(flags()));
    assert!(matches!(a, RxAction::ReadData));
    let (m, a) = m.step(RxEvent::Data(7));
    assert!(matches!(a, RxAction::Finish(Ok(()))));
    let (m, a) = m.step(RxEvent::Data(8));
    assert!(matches!(a, RxAction::Finish(Ok(()))));
    assert_eq!(m.into_buffer(), vec![7]);
}

#[test]
fn blocking_write_sends_bytes_in_order() {
    let data = vec![0xA, 0xB, 0xC];
    let mut m = BlockingWrite::new(&data);
    let mut act = m.action();
    let busy = flags();
    let empty = StatusFlags { txe: true, ..flags() };
    let script = [busy, empty, empty, busy, busy, empty];
    let mut si = 0;
    let mut wire = Vec::new();
    loop {
        match act {
            TxAction::ReadStatus => {
                let (n, a) = m.step(TxEvent::Status(script[si]));
                si += 1;
                m = n;
                act = a;
            }
            TxAction::WriteData(b) => {
                wire.push(b);
                let (n, a) = m.step(TxEvent::Written);
                m = n;
                act = a;
            }
            TxAction::Finish => break,
        }
    }
    assert_eq!(wire, data);
    assert_eq!(si, script.len());
}

#[test]
fn blocking_write_empty_is_done() {
    let m = BlockingWrite::new(&[]);
    assert_eq!(m.action(), TxAction::Finish);
}
