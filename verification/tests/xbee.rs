use xbee_uart::xbee::api::{parse_transmit_request_64, transmit_request_64};
use xbee_uart::xbee::checksum::verify_checksum;
use xbee_uart::xbee::error::{ErrorKind, ParseError};
use xbee_uart::xbee::frame::{frame_data, skip_to_next_frame};
use xbee_uart::xbee::frames::ApiFrame;

// A reference parser built from nom's streaming combinators; its checksum
// adds without overflowing.
fn nom_frame(input: &[u8]) -> nom::IResult<&[u8], &[u8]> {
    let (input, _) = nom::bytes::streaming::tag([0x7Eu8])(input)?;
    let (input, length) = nom::number::streaming::be_u16(input)?;
    let (input, data) = nom::bytes::streaming::take(length)(input)?;
    let (input, _) = nom::combinator::verify(nom::number::streaming::u8, |c: &u8| {
        let s = data.iter().fold(0u8, |x, y| x.wrapping_add(*y)) as u16 + *c as u16;
        s == 0xFF
    })(input)?;
    Ok((input, data))
}

fn nom_tx64(input: &[u8]) -> nom::IResult<&[u8], (u8, u64, u8, &[u8])> {
    let (input, _) = nom::bytes::complete::tag([0x00u8])(input)?;
    let (input, frame_id) = nom::number::complete::be_u8(input)?;
    let (input, dest) = nom::number::complete::be_u64(input)?;
    let (input, options) = nom::number::complete::be_u8(input)?;
    let (payload, _) = nom::combinator::verify(nom::combinator::rest_len, |x: &usize| *x <= 256)(input)?;
    Ok((&[], (frame_id, dest, options, payload)))
}

fn same_as_nom<T: PartialEq + std::fmt::Debug>(
    input: &[u8],
    ours: Result<T, ParseError>,
    theirs: Result<T, nom::Err<nom::error::Error<&[u8]>>>,
) {
    match (ours, theirs) {
        (Ok(a), Ok(b)) => assert_eq!(a, b),
        (Err(ParseError::Incomplete { needed }), Err(nom::Err::Incomplete(n))) => {
            assert_eq!(nom::Needed::new(needed), n)
        }
        (Err(ParseError::Error { offset, kind }), Err(nom::Err::Error(e))) => {
            assert_eq!(&input[offset..], e.input);
            let k = match kind {
                ErrorKind::Tag => nom::error::ErrorKind::Tag,
                ErrorKind::Verify => nom::error::ErrorKind::Verify,
                ErrorKind::Eof => nom::error::ErrorKind::Eof,
            };
            assert_eq!(k, e.code);
        }
        (a, b) => panic!("differs: {:?} vs {:?}", a, b),
    }
}

struct Lcg(u64);

impl Lcg {
    fn next(&mut self) -> u64 {
        self.0 = self.0.wrapping_mul(6364136223846793005).wrapping_add(1442695040888963407);
        self.0 >> 33
    }
}

fn tx_fields(input: &[u8]) -> Result<(usize, (u8, u64, u8, Vec<u8>)), ParseError> {
    parse_transmit_request_64(input)
        .map(|r| (0, (r.frame_id, r.dest_addr, r.options, r.payload().to_vec())))
}

#[test]
fn checksum_accepts_complement_of_low_byte() {
    assert!(verify_checksum(&[0x01, 0x02], 0xFC));
    assert!(!verify_checksum(&[0x01, 0x02], 0xFB));
    assert!(verify_checksum(&[], 0xFF));
    assert!(!verify_checksum(&[], 0x00));
    // the sum wraps: 0xFF + 0xFF has low byte 0xFE
    assert!(verify_checksum(&[0xFF, 0xFF], 0x01));
    // a sum past 0xFF with the checksum is rejected, not a panic
    assert!(!verify_checksum(&[0x80], 0xFF));
}

#[test]
fn checksum_has_exactly_one_value() {
    let data = [0x08, 0x01, 0x4E, 0x49];
    let ok: Vec<u8> = (0..=255u8).filter(|c| verify_checksum(&data, *c)).collect();
    assert_eq!(ok, vec![0x5F]);
}

#[test]
fn frame_data_takes_a_frame() {
    let input = [0x7E, 0x00, 0x04, 0x08, 0x01, 0x4E, 0x49, 0x5F];
    let (rest, data) = frame_data(&input).unwrap();
    assert_eq!(data, &[0x08, 0x01, 0x4E, 0x49]);
    assert!(rest.is_empty());
}

#[test]
fn frame_data_returns_trailing_bytes() {
    let input = [0x7E, 0x00, 0x02, 0x10, 0x20, 0xCF, 0x7E, 0x00];
    let (rest, data) = frame_data(&input).unwrap();
    assert_eq!(data, &[0x10, 0x20]);
    assert_eq!(rest, &[0x7E, 0x00]);
}

#[test]
fn frame_data_empty_frame() {
    let input = [0x7E, 0x00, 0x00, 0xFF];
    let (rest, data) = frame_data(&input).unwrap();
    assert!(data.is_empty());
    assert!(rest.is_empty());
}

#[test]
fn frame_data_incomplete() {
    assert_eq!(frame_data(&[]), Err(ParseError::Incomplete { needed: 1 }));
    assert_eq!(frame_data(&[0x7E]), Err(ParseError::Incomplete { needed: 2 }));
    assert_eq!(frame_data(&[0x7E, 0x00]), Err(ParseError::Incomplete { needed: 1 }));
    assert_eq!(frame_data(&[0x7E, 0x00, 0x04, 0x08]), Err(ParseError::Incomplete { needed: 3 }));
    assert_eq!(
        frame_data(&[0x7E, 0x00, 0x04, 0x08, 0x01, 0x4E, 0x49]),
        Err(ParseError::Incomplete { needed: 1 })
    );
    assert_eq!(frame_data(&[0x7E, 0x01, 0x00]), Err(ParseError::Incomplete { needed: 256 }));
}

#[test]
fn frame_data_rejects_bad_start() {
    assert_eq!(
        frame_data(&[0x7D, 0x00, 0x00, 0xFF]),
        Err(ParseError::Error { offset: 0, kind: ErrorKind::Tag })
    );
}

#[test]
fn frame_data_rejects_bad_checksum() {
    assert_eq!(
        frame_data(&[0x7E, 0x00, 0x04, 0x08, 0x01, 0x4E, 0x49, 0x60, 0x01]),
        Err(ParseError::Error { offset: 7, kind: ErrorKind::Verify })
    );
}

#[test]
fn frame_roundtrip_for_many_payloads() {
    let mut rng = Lcg(7);
    for n in [0usize, 1, 2, 255, 256, 300, 1000] {
        let data: Vec<u8> = (0..n).map(|_| rng.next() as u8).collect();
        let sum = data.iter().fold(0u8, |a, b| a.wrapping_add(*b));
        let mut enc = vec![0x7E, (n / 256) as u8, (n % 256) as u8];
        enc.extend_from_slice(&data);
        enc.push(0xFF - sum);
        enc.extend_from_slice(&[1, 2, 3]);
        let (rest, got) = frame_data(&enc).unwrap();
        assert_eq!(got, &data[..]);
        assert_eq!(rest, &[1, 2, 3]);
    }
}

#[test]
fn frame_decision_stays_with_more_bytes() {
    let input = [0x7E, 0x00, 0x01, 0x42, 0xBD];
    let longer = [0x7E, 0x00, 0x01, 0x42, 0xBD, 0x99, 0x98];
    assert_eq!(frame_data(&input).unwrap().1, frame_data(&longer).unwrap().1);
    assert_eq!(frame_data(&longer).unwrap().0, &[0x99, 0x98]);
    let bad = [0x7E, 0x00, 0x01, 0x42, 0xBC];
    let bad_longer = [0x7E, 0x00, 0x01, 0x42, 0xBC, 0x7E];
    assert_eq!(frame_data(&bad), frame_data(&bad_longer));
}

#[test]
fn frame_incomplete_counts_down() {
    // 3 more bytes needed; adding 2 leaves 1
    assert_eq!(frame_data(&[0x7E, 0x00, 0x03]), Err(ParseError::Incomplete { needed: 3 }));
    assert_eq!(
        frame_data(&[0x7E, 0x00, 0x03, 0x01, 0x02]),
        Err(ParseError::Incomplete { needed: 1 })
    );
}

#[test]
fn frame_data_agrees_with_nom() {
    let mut rng = Lcg(12345);
    for _ in 0..20000 {
        let len = (rng.next() % 12) as usize;
        let mut input: Vec<u8> = (0..len).map(|_| (rng.next() % 8) as u8).collect();
        if len > 0 && rng.next() % 4 != 0 {
            input[0] = 0x7E;
        }
        if len > 1 && rng.next() % 2 == 0 {
            input[1] = 0;
        }
        if len > 3 + (input.get(2).copied().unwrap_or(0) as usize) && input[1] == 0 {
            let n = input[2] as usize;
            if rng.next() % 2 == 0 {
                let sum = input[3..3 + n].iter().fold(0u8, |a, b| a.wrapping_add(*b));
                input[3 + n] = 0xFF - sum;
            }
        }
        same_as_nom(&input, frame_data(&input), nom_frame(&input));
    }
}

#[test]
fn transmit_request_64_parses_fields() {
    let input = [0x00, 0x01, 0x00, 0x13, 0xA2, 0x00, 0x40, 0x0A, 0x01, 0x27, 0x00, 0x54, 0x78];
    let r = parse_transmit_request_64(&input).unwrap();
    assert_eq!(r.frame_id, 0x01);
    assert_eq!(r.dest_addr, 0x0013_A200_400A_0127);
    assert_eq!(r.options, 0x00);
    assert_eq!(r.payload(), &[0x54, 0x78]);
    assert_eq!(r.data.as_slice(), &[0x54, 0x78]);
}

fn frame_parse_error(input: &[u8]) -> ParseError {
    match transmit_request_64(input) {
        Ok((_, ApiFrame::Transmit64Request(_))) => panic!("frame data was accepted"),
        Err(e) => e,
    }
}

#[test]
fn transmit_request_64_reports_rejections() {
    assert_eq!(frame_parse_error(&[0x90]), ParseError::Error { offset: 0, kind: ErrorKind::Tag });
    assert_eq!(frame_parse_error(&[0x00, 0x01, 2]), ParseError::Error { offset: 2, kind: ErrorKind::Eof });
    let mut long = vec![0u8; 11 + 257];
    long[0] = 0x00;
    assert_eq!(frame_parse_error(&long), ParseError::Error { offset: 11, kind: ErrorKind::Verify });
}

#[test]
fn transmit_request_64_errors() {
    let tag = Err(ParseError::Error { offset: 0, kind: ErrorKind::Tag });
    assert_eq!(tx_fields(&[]), tag);
    assert_eq!(tx_fields(&[0x01, 0x02]), tag);
    assert_eq!(tx_fields(&[0x00]), Err(ParseError::Error { offset: 1, kind: ErrorKind::Eof }));
    assert_eq!(tx_fields(&[0x00, 0x05, 1, 2, 3]), Err(ParseError::Error { offset: 2, kind: ErrorKind::Eof }));
    assert_eq!(
        tx_fields(&[0x00, 0x05, 1, 2, 3, 4, 5, 6, 7, 8]),
        Err(ParseError::Error { offset: 10, kind: ErrorKind::Eof })
    );
}

#[test]
fn transmit_request_64_payload_limit() {
    let mut input = vec![0x00, 0x07, 0xFF, 0xFF, 0xFF, 0xFF, 0xFF, 0xFF, 0xFF, 0xFF, 0x02];
    assert_eq!(tx_fields(&input), Ok((0, (0x07, u64::MAX, 0x02, vec![]))));
    input.extend((0..256).map(|i| i as u8));
    let expected: Vec<u8> = (0..256).map(|i| i as u8).collect();
    assert_eq!(tx_fields(&input), Ok((0, (0x07, u64::MAX, 0x02, expected))));
    input.push(0xAA);
    assert_eq!(tx_fields(&input), Err(ParseError::Error { offset: 11, kind: ErrorKind::Verify }));
}

#[test]
fn transmit_request_64_agrees_with_nom() {
    let mut rng = Lcg(99);
    for _ in 0..5000 {
        let len = (rng.next() % 300) as usize;
        let mut input: Vec<u8> = (0..len).map(|_| rng.next() as u8).collect();
        if len > 0 && rng.next() % 5 != 0 {
            input[0] = 0x00;
        }
        let ours = tx_fields(&input).map(|(n, f)| (n, f));
        let theirs = nom_tx64(&input).map(|(rest, (a, b, c, d))| (rest.len(), (a, b, c, d.to_vec())));
        same_as_nom(&input, ours, theirs);
    }
}

#[test]
fn skip_to_next_frame_keeps_next_delimiter() {
    let bad = [0x7E, 0x00, 0x01, 0x42, 0x00, 0x13, 0x7E, 0x00, 0x01, 0x42, 0xBD];
    assert!(matches!(frame_data(&bad), Err(ParseError::Error { kind: ErrorKind::Verify, .. })));
    let rest = skip_to_next_frame(&bad);
    assert_eq!(rest, &bad[6..]);
    assert_eq!(frame_data(rest).unwrap().1, &[0x42]);
    assert_eq!(skip_to_next_frame(&[0x10, 0x7E, 0x01]), &[0x7E, 0x01]);
    assert!(skip_to_next_frame(&[0x7E, 0x01, 0x02]).is_empty());
    assert!(skip_to_next_frame(&[]).is_empty());
}
