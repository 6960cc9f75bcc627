//! Recognising one XBee API frame at the start of a byte stream.
use vstd::prelude::*;
use vstd::slice::slice_subrange;
use crate::xbee::checksum::{
    byte_sum, checksum_ok, lemma_checksum_total, lemma_checksum_unique, spec_checksum, verify_checksum,
};
use crate::xbee::error::{ErrorKind, ParseError};

verus! {

/// The start delimiter of every API frame.
pub const START_DELIMITER: u8 = 0x7E;

/// The big-endian length field of a frame that starts `s`.
pub open spec fn frame_length(s: Seq<u8>) -> int
    recommends
        s.len() >= 3,
{
    s[1] as int * 256 + s[2] as int
}

/// What `frame_data` gives for the stream `s`: the rest of the stream after
/// the frame and the frame data, or why no frame could be taken.
pub open spec fn spec_frame_data(s: Seq<u8>) -> Result<(Seq<u8>, Seq<u8>), ParseError> {
    if s.len() == 0 {
        Err(ParseError::Incomplete { needed: 1 })
    } else if s[0] != START_DELIMITER {
        Err(ParseError::Error { offset: 0, kind: ErrorKind::Tag })
    } else if s.len() < 3 {
        Err(ParseError::Incomplete { needed: (3 - s.len()) as usize })
    } else if s.len() < 3 + frame_length(s) {
        Err(ParseError::Incomplete { needed: (3 + frame_length(s) - s.len()) as usize })
    } else if s.len() == 3 + frame_length(s) {
        Err(ParseError::Incomplete { needed: 1 })
    } else if !checksum_ok(
        s.subrange(3, 3 + frame_length(s)),
        s[3 + frame_length(s)],
    ) {
        Err(ParseError::Error { offset: (3 + frame_length(s)) as usize, kind: ErrorKind::Verify })
    } else {
        Ok((s.skip(4 + frame_length(s)), s.subrange(3, 3 + frame_length(s))))
    }
}

/// The views of what `frame_data` returns.
pub open spec fn frame_result_view(res: Result<(&[u8], &[u8]), ParseError>) -> Result<
    (Seq<u8>, Seq<u8>),
    ParseError,
> {
    match res {
        Ok((rest, data)) => Ok((rest@, data@)),
        Err(e) => Err(e),
    }
}

/// Takes one API frame from the start of a byte stream that may still be
/// arriving: the start delimiter, the big-endian length `n`, `n` bytes of
/// frame data and a checksum byte that must be valid. On success returns the
/// rest of the stream and the frame data.
pub fn frame_data(input: &[u8]) -> (res: Result<(&[u8], &[u8]), ParseError>)
    ensures
        frame_result_view(res) == spec_frame_data(input@),
{
    let len = input.len();
    if len == 0 {
        return Err(ParseError::Incomplete { needed: 1 });
    }
    if input[0] != START_DELIMITER {
        return Err(ParseError::Error { offset: 0, kind: ErrorKind::Tag });
    }
    if len < 3 {
        return Err(ParseError::Incomplete { needed: 3 - len });
    }
    let n: usize = (input[1] as usize) * 256 + (input[2] as usize);
    assert(n == frame_length(input@));
    if len < 3 + n {
        return Err(ParseError::Incomplete { needed: 3 + n - len });
    }
    if len == 3 + n {
        return Err(ParseError::Incomplete { needed: 1 });
    }
    let data = slice_subrange(input, 3, 3 + n);
    let checksum = input[3 + n];
    if !verify_checksum(data, checksum) {
        return Err(ParseError::Error { offset: 3 + n, kind: ErrorKind::Verify });
    }
    let rest = slice_subrange(input, 4 + n, len);
    assert(rest@ =~= input@.skip(4 + n));
    Ok((rest, data))
}

/// The bytes of one API frame that carries `data`.
pub open spec fn spec_encode_frame(data: Seq<u8>) -> Seq<u8> {
    seq![START_DELIMITER, (data.len() / 256) as u8, (data.len() % 256) as u8] + data + seq![
        spec_checksum(data),
    ]
}

/// A frame written out in full and followed by any further bytes is taken
/// from the stream: `frame_data` returns its data and exactly those further
/// bytes.
pub proof fn lemma_frame_roundtrip(data: Seq<u8>, rest: Seq<u8>)
    requires
        data.len() <= 0xFFFF,
    ensures
        spec_frame_data(spec_encode_frame(data) + rest) == Ok::<_, ParseError>((rest, data)),
{
    let s = spec_encode_frame(data) + rest;
    let n = data.len() as int;
    assert(s[1] as int == n / 256);
    assert(s[2] as int == n % 256);
    assert(frame_length(s) == n);
    assert(s.subrange(3, 3 + n) =~= data);
    assert(s[3 + n] == spec_checksum(data));
    lemma_checksum_unique(data, spec_checksum(data));
    assert(s.skip(4 + n) =~= rest);
}

/// Whatever `frame_data` takes from a stream is a whole frame: the stream is
/// that frame written out, followed by the rest that was returned.
pub proof fn lemma_frame_sound(s: Seq<u8>)
    ensures
        spec_frame_data(s) matches Ok((rest, data)) ==> data.len() <= 0xFFFF && s
            == spec_encode_frame(data) + rest,
{
    if let Ok((rest, data)) = spec_frame_data(s) {
        let n = frame_length(s);
        assert(data.len() == n);
        lemma_checksum_unique(data, s[3 + n]);
        assert(s =~= spec_encode_frame(data) + rest);
    }
}

/// Once `frame_data` has decided, more bytes arriving change nothing: a frame
/// taken stays the same frame with the new bytes added to the rest, and a
/// rejected stream stays rejected for the same reason.
pub proof fn lemma_frame_decision_stable(s: Seq<u8>, t: Seq<u8>)
    ensures
        spec_frame_data(s) matches Ok((rest, data)) ==> spec_frame_data(s + t) == Ok::<
            _,
            ParseError,
        >((rest + t, data)),
        spec_frame_data(s) matches Err(ParseError::Error { offset, kind }) ==> spec_frame_data(
            s + t,
        ) == Err::<(Seq<u8>, Seq<u8>), _>(ParseError::Error { offset, kind }),
{
    let u = s + t;
    if s.len() > 0 {
        assert(u[0] == s[0]);
    }
    if s.len() >= 3 {
        assert(u[1] == s[1] && u[2] == s[2]);
        let n = frame_length(s);
        if s.len() > 3 + n {
            assert(u.subrange(3, 3 + n) =~= s.subrange(3, 3 + n));
            assert(u[3 + n] == s[3 + n]);
            assert(u.skip(4 + n) =~= s.skip(4 + n) + t);
        }
    }
}

/// When `frame_data` asks for `needed` more bytes, fewer than that many
/// further bytes still leave it undecided, now asking for the difference.
pub proof fn lemma_frame_incomplete(s: Seq<u8>, t: Seq<u8>, needed: usize)
    requires
        spec_frame_data(s) == Err::<(Seq<u8>, Seq<u8>), _>(ParseError::Incomplete { needed }),
        0 < t.len() < needed,
    ensures
        spec_frame_data(s + t) == Err::<(Seq<u8>, Seq<u8>), _>(
            ParseError::Incomplete { needed: (needed - t.len()) as usize },
        ),
{
    let u = s + t;
    assert(u[0] == s[0]);
    if s.len() >= 3 {
        assert(u[1] == s[1] && u[2] == s[2]);
    } else if s.len() == 2 {
        assert(u[1] == s[1]);
    }
}

/// The position of the first start delimiter in `s` at or after `i`, or the
/// length of `s` if there is none.
pub open spec fn first_delimiter_from(s: Seq<u8>, i: int) -> int
    decreases s.len() - i,
{
    if i >= s.len() {
        s.len() as int
    } else if s[i] == START_DELIMITER {
        i
    } else {
        first_delimiter_from(s, i + 1)
    }
}

/// `first_delimiter_from` finds the first delimiter: none lies between the
/// starting point and the position found, and there is one at that position
/// unless it is the end.
pub proof fn lemma_first_delimiter(s: Seq<u8>, i: int)
    requires
        0 <= i,
    ensures
        ({
            let c = first_delimiter_from(s, i);
            &&& (i <= s.len() ==> i <= c) && c <= s.len()
            &&& (c < s.len() ==> s[c] == START_DELIMITER)
            &&& forall|j: int| i <= j < c ==> s[j] != START_DELIMITER
        }),
    decreases s.len() - i,
{
    if i < s.len() && s[i] != START_DELIMITER {
        lemma_first_delimiter(s, i + 1);
    }
}

/// After a stream was rejected (a wrong first byte or a bad checksum), the
/// bytes from which to look for the next frame: everything from the next
/// start delimiter after the first byte on, or nothing if there is none.
pub fn skip_to_next_frame(input: &[u8]) -> (rest: &[u8])
    ensures
        rest@ == input@.skip(first_delimiter_from(input@, 1)),
        rest@.len() == 0 || rest@[0] == START_DELIMITER,
        input@.len() > 0 ==> rest@.len() < input@.len(),
        forall|j: int|
            1 <= j < input@.len() - rest@.len() ==> input@[j] != START_DELIMITER,
{
    let len = input.len();
    proof {
        lemma_first_delimiter(input@, 1);
    }
    if len == 0 {
        return slice_subrange(input, 0, 0);
    }
    let mut i: usize = 1;
    while i < len && input[i] != START_DELIMITER
        invariant
            1 <= i <= len,
            len == input@.len(),
            first_delimiter_from(input@, i as int) == first_delimiter_from(input@, 1),
        decreases len - i,
    {
        i = i + 1;
    }
    let rest = slice_subrange(input, i, len);
    assert(rest@ =~= input@.skip(i as int));
    rest
}

/// Once a stream holds a whole frame (the delimiter, the two length bytes,
/// the `n` bytes the length announces and the checksum byte), `frame_data`
/// decides: it takes the frame exactly when the data bytes and the checksum
/// byte add up to `0xFF` modulo 256, returning the data and everything after
/// the checksum byte, and otherwise rejects the stream at the checksum byte.
pub proof fn lemma_frame_whole_frame_decides(s: Seq<u8>)
    requires
        s.len() >= 3,
        s[0] == 0x7E,
        s.len() >= 4 + (s[1] as int * 256 + s[2] as int),
    ensures
        ({
            let n = s[1] as int * 256 + s[2] as int;
            let data = s.subrange(3, 3 + n);
            let c = s[3 + n];
            &&& (byte_sum(data) + c) % 256 == 0xFF ==> spec_frame_data(s) == Ok::<_, ParseError>(
                (s.skip(4 + n), data),
            )
            &&& (byte_sum(data) + c) % 256 != 0xFF ==> spec_frame_data(s) == Err::<
                (Seq<u8>, Seq<u8>),
                _,
            >(ParseError::Error { offset: (3 + n) as usize, kind: ErrorKind::Verify })
            &&& !(spec_frame_data(s) is Err && spec_frame_data(s)->Err_0 is Incomplete)
        }),
{
    let n = s[1] as int * 256 + s[2] as int;
    lemma_checksum_total(s.subrange(3, 3 + n), s[3 + n]);
}

/// `frame_data` asks for more bytes only while the stream is shorter than the
/// frame it announces: fewer than the three header bytes, or fewer than the
/// header, the announced data and the checksum byte.
pub proof fn lemma_frame_incomplete_only_when_short(s: Seq<u8>)
    ensures
        spec_frame_data(s) matches Err(ParseError::Incomplete { needed }) ==> {
            &&& needed >= 1
            &&& (s.len() < 3 || s.len() < 4 + (s[1] as int * 256 + s[2] as int))
            &&& (s.len() == 0 || s[0] == 0x7E)
        },
{
}

} // verus!
