//! Parsing the frame data of an API frame into an `ApiFrame`.
use vstd::prelude::*;
use vstd::slice::slice_subrange;
use crate::xbee::error::{ErrorKind, ParseError};
use crate::xbee::frames::{ApiFrame, Transmit64Request};
use crate::xbee::payload::{payload_contents, payload_extend, payload_new};

verus! {

/// The frame type byte of a 64-bit transmit request.
pub const FRAME_TYPE_TRANSMIT_64: u8 = 0x00;

/// The largest payload of a 64-bit transmit request.
pub const MAX_TRANSMIT_64_PAYLOAD: usize = 256;

/// `256` to the power `n`.
pub open spec fn pow256(n: nat) -> nat
    decreases n,
{
    if n == 0 {
        1
    } else {
        256 * pow256((n - 1) as nat)
    }
}

/// The number that the bytes `s` spell in big-endian order.
pub open spec fn be_value(s: Seq<u8>) -> nat
    decreases s.len(),
{
    if s.len() == 0 {
        0
    } else {
        be_value(s.drop_last()) * 256 + s.last() as nat
    }
}

/// The `n` bytes that spell `v` modulo `256^n` in big-endian order.
pub open spec fn be_bytes(v: nat, n: nat) -> Seq<u8>
    decreases n,
{
    if n == 0 {
        Seq::empty()
    } else {
        be_bytes(v / 256, (n - 1) as nat).push((v % 256) as u8)
    }
}

/// The fields of a 64-bit transmit request: frame id, destination address,
/// options and payload.
pub type Transmit64Fields = (u8, u64, u8, Seq<u8>);

/// The fields that a request holds.
pub open spec fn transmit_64_fields(r: Transmit64Request) -> Transmit64Fields {
    (r.frame_id, r.dest_addr, r.options, payload_contents(r.data))
}

/// What parsing the frame data `s` of a 64-bit transmit request gives: the
/// fields of the request, or why the frame data is rejected.
pub open spec fn spec_transmit_request_64(s: Seq<u8>) -> Result<Transmit64Fields, ParseError> {
    if s.len() == 0 || s[0] != FRAME_TYPE_TRANSMIT_64 {
        Err(ParseError::Error { offset: 0, kind: ErrorKind::Tag })
    } else if s.len() < 2 {
        Err(ParseError::Error { offset: 1, kind: ErrorKind::Eof })
    } else if s.len() < 10 {
        Err(ParseError::Error { offset: 2, kind: ErrorKind::Eof })
    } else if s.len() < 11 {
        Err(ParseError::Error { offset: 10, kind: ErrorKind::Eof })
    } else if s.len() - 11 > MAX_TRANSMIT_64_PAYLOAD {
        Err(ParseError::Error { offset: 11, kind: ErrorKind::Verify })
    } else {
        Ok((s[1], be_value(s.subrange(2, 10)) as u64, s[10], s.skip(11)))
    }
}

/// The bytes of `s` in big-endian order spell a number below `256^len`.
pub proof fn lemma_be_value_bound(s: Seq<u8>)
    ensures
        be_value(s) < pow256(s.len()),
    decreases s.len(),
{
    if s.len() > 0 {
        lemma_be_value_bound(s.drop_last());
    }
}

/// Powers of 256 grow with the exponent.
pub proof fn lemma_pow256_monotonic(a: nat, b: nat)
    requires
        a <= b,
    ensures
        pow256(a) <= pow256(b),
    decreases b,
{
    if a < b {
        lemma_pow256_monotonic(a, (b - 1) as nat);
    }
}

/// Reading back the `n` big-endian bytes of `v` gives `v` modulo `256^n`.
pub proof fn lemma_be_roundtrip(v: nat, n: nat)
    ensures
        be_bytes(v, n).len() == n,
        be_value(be_bytes(v, n)) == v % pow256(n),
    decreases n,
{
    if n > 0 {
        lemma_be_roundtrip(v / 256, (n - 1) as nat);
        let p = pow256((n - 1) as nat);
        lemma_pow256_monotonic(0, (n - 1) as nat);
        assert(be_bytes(v, n).drop_last() =~= be_bytes(v / 256, (n - 1) as nat));
        vstd::arithmetic::div_mod::lemma_mod_breakdown(v as int, 256, p as int);
    }
}

/// Parses the frame data of a 64-bit transmit request: the frame type `0x00`,
/// the frame id, the big-endian 64-bit destination address, the options byte
/// and a payload of at most 256 bytes that runs to the end of the input,
/// copied into the request's payload buffer.
pub fn parse_transmit_request_64(input: &[u8]) -> (res: Result<Transmit64Request, ParseError>)
    ensures
        match res {
            Ok(r) => spec_transmit_request_64(input@) == Ok::<_, ParseError>(transmit_64_fields(r)),
            Err(e) => spec_transmit_request_64(input@) == Err::<Transmit64Fields, _>(e),
        },
{
    let len = input.len();
    if len == 0 || input[0] != FRAME_TYPE_TRANSMIT_64 {
        return Err(ParseError::Error { offset: 0, kind: ErrorKind::Tag });
    }
    if len < 2 {
        return Err(ParseError::Error { offset: 1, kind: ErrorKind::Eof });
    }
    let frame_id = input[1];
    if len < 10 {
        return Err(ParseError::Error { offset: 2, kind: ErrorKind::Eof });
    }
    let mut dest_addr: u64 = 0;
    let mut i: usize = 2;
    proof {
        reveal_with_fuel(pow256, 9);
        assert(pow256(8) == 0x1_0000_0000_0000_0000);
        assert(input@.subrange(2, 2) =~= Seq::<u8>::empty());
    }
    while i < 10
        invariant
            2 <= i <= 10,
            len == input@.len(),
            len >= 10,
            dest_addr == be_value(input@.subrange(2, i as int)),
            pow256(8) == 0x1_0000_0000_0000_0000,
        decreases 10 - i,
    {
        let ghost prefix = input@.subrange(2, i as int);
        proof {
            lemma_be_value_bound(prefix);
            lemma_pow256_monotonic((i - 1) as nat, 8);
            assert(input@.subrange(2, i + 1).drop_last() =~= prefix);
        }
        dest_addr = dest_addr * 256 + (input[i] as u64);
        i = i + 1;
    }
    if len < 11 {
        return Err(ParseError::Error { offset: 10, kind: ErrorKind::Eof });
    }
    let options = input[10];
    let payload = slice_subrange(input, 11, len);
    if payload.len() > MAX_TRANSMIT_64_PAYLOAD {
        return Err(ParseError::Error { offset: 11, kind: ErrorKind::Verify });
    }
    let mut data = payload_new();
    payload_extend(&mut data, payload);
    assert(payload_contents(data) =~= input@.skip(11));
    Ok(Transmit64Request { frame_id, dest_addr, options, data })
}

/// The `ApiFrame` parser for 64-bit transmit requests. It reports why frame
/// data is rejected, exactly as `parse_transmit_request_64` does. Turning an
/// accepted request into an `ApiFrame` is not provided: frame data that
/// parses is ruled out by `requires` (take the request's fields from
/// `parse_transmit_request_64`).
pub fn transmit_request_64(input: &[u8]) -> (res: Result<(&[u8], ApiFrame), ParseError>)
    requires
        spec_transmit_request_64(input@) is Err,
    ensures
        match res {
            Ok(_) => false,
            Err(e) => spec_transmit_request_64(input@) == Err::<Transmit64Fields, _>(e),
        },
{
    match parse_transmit_request_64(input) {
        Ok(_) => {
            assert(false);
            Err(ParseError::Error { offset: 0, kind: ErrorKind::Tag })
        },
        Err(e) => Err(e),
    }
}

/// The frame data of a 64-bit transmit request written out.
pub open spec fn spec_encode_transmit_64(
    frame_id: u8,
    dest_addr: u64,
    options: u8,
    payload: Seq<u8>,
) -> Seq<u8> {
    seq![FRAME_TYPE_TRANSMIT_64, frame_id] + be_bytes(dest_addr as nat, 8) + seq![options]
        + payload
}

/// A 64-bit transmit request written out with a payload of at most 256
/// bytes is parsed back into exactly its fields.
pub proof fn lemma_transmit_64_roundtrip(
    frame_id: u8,
    dest_addr: u64,
    options: u8,
    payload: Seq<u8>,
)
    requires
        payload.len() <= MAX_TRANSMIT_64_PAYLOAD,
    ensures
        spec_transmit_request_64(spec_encode_transmit_64(frame_id, dest_addr, options, payload))
            == Ok::<_, ParseError>((frame_id, dest_addr, options, payload)),
{
    let s = spec_encode_transmit_64(frame_id, dest_addr, options, payload);
    lemma_be_roundtrip(dest_addr as nat, 8);
    reveal_with_fuel(pow256, 9);
    assert(s.subrange(2, 10) =~= be_bytes(dest_addr as nat, 8));
    assert(pow256(8) == 0x1_0000_0000_0000_0000);
    vstd::arithmetic::div_mod::lemma_small_mod(dest_addr as nat, pow256(8));
    assert(be_value(s.subrange(2, 10)) as u64 == dest_addr);
    assert(s[10] == options);
    assert(s.skip(11) =~= payload);
}

/// Whatever `parse_transmit_request_64` accepts is a request written out: the input
/// is the encoding of the fields it returns.
pub proof fn lemma_transmit_64_sound(s: Seq<u8>)
    ensures
        spec_transmit_request_64(s) matches Ok((frame_id, dest_addr, options, payload)) ==> s
            == spec_encode_transmit_64(frame_id, dest_addr, options, payload),
{
    if let Ok((frame_id, dest_addr, options, payload)) = spec_transmit_request_64(s) {
        let b = s.subrange(2, 10);
        lemma_be_value_bound(b);
        reveal_with_fuel(pow256, 9);
        lemma_be_roundtrip(be_value(b), 8);
        lemma_be_bytes_of_value(b);
        assert(s =~= spec_encode_transmit_64(frame_id, dest_addr, options, payload));
    }
}

/// Writing out the number that bytes spell gives back those bytes.
pub proof fn lemma_be_bytes_of_value(s: Seq<u8>)
    ensures
        be_bytes(be_value(s), s.len()) == s,
    decreases s.len(),
{
    if s.len() > 0 {
        let p = s.drop_last();
        lemma_be_bytes_of_value(p);
        let v = be_value(s);
        assert(v / 256 == be_value(p));
        assert(v % 256 == s.last() as nat);
        assert(be_bytes(v, s.len()) =~= s);
    }
}

} // verus!
