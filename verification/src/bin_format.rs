//! Binary codec: each record is one self-delimited frame consisting of a
//! four-byte magic header, a big-endian payload length, the fixed fields, and
//! a length-prefixed UTF-8 description.

use vstd::prelude::*;

verus! {

use vstd::utf8::{encode_utf8, decode_utf8, valid_utf8, encode_utf8_valid_utf8,
    encode_utf8_decode_utf8};
use crate::{Record, RecordV, RecordType, RecordStatus};
use crate::error::{YpbankError, ErrorV};
use crate::strutil::string_from_utf8;

/// Big-endian byte rendering of a 64-bit value.
pub open spec fn u64_be(x: u64) -> Seq<u8> {
    seq![
        (x >> 56) as u8,
        (x >> 48) as u8,
        (x >> 40) as u8,
        (x >> 32) as u8,
        (x >> 24) as u8,
        (x >> 16) as u8,
        (x >> 8) as u8,
        x as u8,
    ]
}

/// Big-endian byte rendering of a 32-bit value.
pub open spec fn u32_be(x: u32) -> Seq<u8> {
    seq![(x >> 24) as u8, (x >> 16) as u8, (x >> 8) as u8, x as u8]
}

/// The 64-bit value read back from eight big-endian bytes.
pub open spec fn u64_from_be(s: Seq<u8>) -> u64
    recommends
        s.len() == 8,
{
    (s[0] as u64) << 56 | (s[1] as u64) << 48 | (s[2] as u64) << 40 | (s[3] as u64) << 32 | (
    s[4] as u64) << 24 | (s[5] as u64) << 16 | (s[6] as u64) << 8 | (s[7] as u64)
}

/// The 32-bit value read back from four big-endian bytes.
pub open spec fn u32_from_be(s: Seq<u8>) -> u32
    recommends
        s.len() == 4,
{
    (s[0] as u32) << 24 | (s[1] as u32) << 16 | (s[2] as u32) << 8 | (s[3] as u32)
}

/// Reading back the big-endian rendering of a 64-bit value recovers it.
pub proof fn lemma_u64_be_round_trip(x: u64)
    ensures
        u64_from_be(u64_be(x)) == x,
{
    assert((((x >> 56) as u8) as u64) << 56 | (((x >> 48) as u8) as u64) << 48 | (((x
        >> 40) as u8) as u64) << 40 | (((x >> 32) as u8) as u64) << 32 | (((x
        >> 24) as u8) as u64) << 24 | (((x >> 16) as u8) as u64) << 16 | (((x
        >> 8) as u8) as u64) << 8 | ((x as u8) as u64) == x) by (bit_vector);
}

/// Reading back the big-endian rendering of a 32-bit value recovers it.
pub proof fn lemma_u32_be_round_trip(x: u32)
    ensures
        u32_from_be(u32_be(x)) == x,
{
    assert((((x >> 24) as u8) as u32) << 24 | (((x >> 16) as u8) as u32) << 16 | (((x
        >> 8) as u8) as u32) << 8 | ((x as u8) as u32) == x) by (bit_vector);
}

/// The magic bytes that open every binary frame.
pub open spec fn header_bytes() -> Seq<u8> {
    seq![89u8, 80u8, 66u8, 78u8]
}

/// Wire tag of a record type.
pub open spec fn type_tag(t: RecordType) -> u8 {
    match t {
        RecordType::Deposit { .. } => 0,
        RecordType::Transfer { .. } => 1,
        RecordType::Withdrawal { .. } => 2,
    }
}

/// The record type encoded by a wire tag and the two flat user id fields.
pub open spec fn type_from_tag(tag: u8, from_user_id: u64, to_user_id: u64) -> RecordType
    recommends
        tag == 0 || tag == 1 || tag == 2,
{
    if tag == 0 {
        RecordType::Deposit { to_user_id }
    } else if tag == 1 {
        RecordType::Transfer { from_user_id, to_user_id }
    } else {
        RecordType::Withdrawal { from_user_id }
    }
}

/// The flat source user id of a record type; zero where not applicable.
pub open spec fn from_uid(t: RecordType) -> u64 {
    match t {
        RecordType::Deposit { .. } => 0,
        RecordType::Transfer { from_user_id, .. } => from_user_id,
        RecordType::Withdrawal { from_user_id } => from_user_id,
    }
}

/// The flat destination user id of a record type; zero where not applicable.
pub open spec fn to_uid(t: RecordType) -> u64 {
    match t {
        RecordType::Deposit { to_user_id } => to_user_id,
        RecordType::Transfer { to_user_id, .. } => to_user_id,
        RecordType::Withdrawal { .. } => 0,
    }
}

/// Wire tag of a status.
pub open spec fn status_tag(st: RecordStatus) -> u8 {
    match st {
        RecordStatus::Success => 0,
        RecordStatus::Failure => 1,
        RecordStatus::Pending => 2,
    }
}

/// The status encoded by a wire tag.
pub open spec fn status_from_tag(tag: u8) -> RecordStatus
    recommends
        tag == 0 || tag == 1 || tag == 2,
{
    if tag == 0 {
        RecordStatus::Success
    } else if tag == 1 {
        RecordStatus::Failure
    } else {
        RecordStatus::Pending
    }
}

/// Whether a record fits in one binary frame: its description's UTF-8 bytes
/// together with the fixed fields must fit the 32-bit payload length.
pub open spec fn bin_encodable(r: RecordV) -> bool {
    46 + encode_utf8(r.description).len() <= u32::MAX
}

/// The frame encoding one record.
pub open spec fn spec_bin_record(r: RecordV) -> Seq<u8> {
    let desc = encode_utf8(r.description);
    header_bytes() + u32_be((46 + desc.len()) as u32) + u64_be(r.id) + seq![
        type_tag(r.record_type),
    ] + u64_be(from_uid(r.record_type)) + u64_be(to_uid(r.record_type)) + u64_be(r.amount)
        + u64_be(r.timestamp) + seq![status_tag(r.status)] + u32_be(desc.len() as u32) + desc
}

/// The binary encoding of a record sequence: frames back to back.
pub open spec fn spec_bin_encode(rs: Seq<RecordV>) -> Seq<u8>
    decreases rs.len(),
{
    if rs.len() == 0 {
        Seq::empty()
    } else {
        spec_bin_record(rs[0]) + spec_bin_encode(rs.drop_first())
    }
}

/// The message carried by a binary read error for truncated input.
pub open spec fn read_err_msg() -> Seq<char> {
    "unexpected end of input"@
}

/// What decoding a byte stream in the binary format yields. A clean end of
/// input at a record boundary terminates decoding; a full header that is not
/// the magic value, an out-of-range tag, or an invalid UTF-8 description fail
/// with an unexpected-value error; any truncation, stray trailing bytes
/// included, fails with a read error.
pub open spec fn spec_bin_decode(bytes: Seq<u8>) -> Result<Seq<RecordV>, ErrorV>
    decreases bytes.len(),
{
    if bytes.len() == 0 {
        Ok(Seq::empty())
    } else if bytes.len() < 4 {
        Err(ErrorV::BinaryReadError(read_err_msg()))
    } else if bytes.subrange(0, 4) != header_bytes() {
        Err(ErrorV::BinaryUnexpectedValue)
    } else if bytes.len() < 54 {
        Err(ErrorV::BinaryReadError(read_err_msg()))
    } else {
        let dlen = u32_from_be(bytes.subrange(50, 54)) as int;
        if bytes.len() < 54 + dlen {
            Err(ErrorV::BinaryReadError(read_err_msg()))
        } else {
            let tag = bytes[16];
            let st = bytes[49];
            let desc_bytes = bytes.subrange(54, 54 + dlen);
            if !(tag == 0 || tag == 1 || tag == 2) {
                Err(ErrorV::BinaryUnexpectedValue)
            } else if !(st == 0 || st == 1 || st == 2) {
                Err(ErrorV::BinaryUnexpectedValue)
            } else if !valid_utf8(desc_bytes) {
                Err(ErrorV::BinaryUnexpectedValue)
            } else {
                let r = RecordV {
                    id: u64_from_be(bytes.subrange(8, 16)),
                    record_type: type_from_tag(
                        tag,
                        u64_from_be(bytes.subrange(17, 25)),
                        u64_from_be(bytes.subrange(25, 33)),
                    ),
                    amount: u64_from_be(bytes.subrange(33, 41)),
                    timestamp: u64_from_be(bytes.subrange(41, 49)),
                    status: status_from_tag(st),
                    description: decode_utf8(desc_bytes),
                };
                match spec_bin_decode(bytes.skip(54 + dlen)) {
                    Ok(rest) => Ok(seq![r] + rest),
                    Err(e) => Err(e),
                }
            }
        }
    }
}

/// Append the big-endian bytes of a 64-bit value to a buffer.
fn push_u64_be(buf: &mut Vec<u8>, x: u64)
    ensures
        final(buf)@ == old(buf)@ + u64_be(x),
{
    buf.push((x >> 56) as u8);
    buf.push((x >> 48) as u8);
    buf.push((x >> 40) as u8);
    buf.push((x >> 32) as u8);
    buf.push((x >> 24) as u8);
    buf.push((x >> 16) as u8);
    buf.push((x >> 8) as u8);
    buf.push(x as u8);
    proof {
        assert(buf@ =~= old(buf)@ + u64_be(x));
    }
}

/// Append the big-endian bytes of a 32-bit value to a buffer.
fn push_u32_be(buf: &mut Vec<u8>, x: u32)
    ensures
        final(buf)@ == old(buf)@ + u32_be(x),
{
    buf.push((x >> 24) as u8);
    buf.push((x >> 16) as u8);
    buf.push((x >> 8) as u8);
    buf.push(x as u8);
    proof {
        assert(buf@ =~= old(buf)@ + u32_be(x));
    }
}

/// Read a big-endian 64-bit value from the buffer at the given offset.
fn read_u64_be(buf: &Vec<u8>, at: usize) -> (r: u64)
    requires
        at + 8 <= buf@.len(),
    ensures
        r == u64_from_be(buf@.subrange(at as int, at + 8)),
{
    let n = buf.len();
    assert(at + 8 <= n);
    let r = (buf[at] as u64) << 56 | (buf[at + 1] as u64) << 48 | (buf[at + 2] as u64) << 40 | (
    buf[at + 3] as u64) << 32 | (buf[at + 4] as u64) << 24 | (buf[at + 5] as u64) << 16 | (buf[at
        + 6] as u64) << 8 | (buf[at + 7] as u64);
    proof {
        let s = buf@.subrange(at as int, at + 8);
        assert(s[0] == buf@[at as int]);
        assert(s[1] == buf@[at + 1]);
        assert(s[2] == buf@[at + 2]);
        assert(s[3] == buf@[at + 3]);
        assert(s[4] == buf@[at + 4]);
        assert(s[5] == buf@[at + 5]);
        assert(s[6] == buf@[at + 6]);
        assert(s[7] == buf@[at + 7]);
    }
    r
}

/// Read a big-endian 32-bit value from the buffer at the given offset.
fn read_u32_be(buf: &Vec<u8>, at: usize) -> (r: u32)
    requires
        at + 4 <= buf@.len(),
    ensures
        r == u32_from_be(buf@.subrange(at as int, at + 4)),
{
    let n = buf.len();
    assert(at + 4 <= n);
    let r = (buf[at] as u32) << 24 | (buf[at + 1] as u32) << 16 | (buf[at + 2] as u32) << 8 | (
    buf[at + 3] as u32);
    proof {
        let s = buf@.subrange(at as int, at + 4);
        assert(s[0] == buf@[at as int]);
        assert(s[1] == buf@[at + 1]);
        assert(s[2] == buf@[at + 2]);
        assert(s[3] == buf@[at + 3]);
    }
    r
}

/// Reader for the binary format.
pub struct BinRecordReader;

/// Writer for the binary format.
pub struct BinRecordWriter;

impl BinRecordReader {
    /// Create a new binary reader.
    pub fn new() -> (r: Self) {
        BinRecordReader
    }

    /// Decode all records from the given bytes, exactly as
    /// [`spec_bin_decode`] describes.
    #[verifier::rlimit(60)]
    pub fn read_all(&self, input: &Vec<u8>) -> (r: Result<Vec<Record>, YpbankError>)
        ensures
            r matches Ok(v) ==> spec_bin_decode(input@) matches Ok(s) && v.deep_view() == s,
            r matches Err(e) ==> spec_bin_decode(input@) matches Err(se) && e@ == se,
    {
        let len = input.len();
        let mut recs: Vec<Record> = Vec::new();
        let mut idx: usize = 0;
        proof {
            assert(input@.skip(0) =~= input@);
            assert(recs.deep_view() =~= Seq::<RecordV>::empty());
            if let Ok(rest) = spec_bin_decode(input@) {
                assert(recs.deep_view() + rest =~= rest);
            }
        }
        loop
            invariant
                idx <= len,
                len == input@.len(),
                spec_bin_decode(input@) == (match spec_bin_decode(input@.skip(idx as int)) {
                    Ok(rest) => Ok::<Seq<RecordV>, ErrorV>(recs.deep_view() + rest),
                    Err(e) => Err(e),
                }),
            decreases len - idx,
        {
            let ghost rem = input@.skip(idx as int);
            if len - idx == 0 {
                proof {
                    assert(spec_bin_decode(rem) == Ok::<Seq<RecordV>, ErrorV>(Seq::empty()));
                    assert(recs.deep_view() + Seq::<RecordV>::empty() =~= recs.deep_view());
                }
                return Ok(recs);
            }
            if len - idx < 4 {
                return Err(YpbankError::BinaryReadError("unexpected end of input".to_owned()));
            }
            proof {
                assert(rem[0] == input@[idx as int]);
                assert(rem[1] == input@[idx + 1]);
                assert(rem[2] == input@[idx + 2]);
                assert(rem[3] == input@[idx + 3]);
            }
            if !(input[idx] == 89 && input[idx + 1] == 80 && input[idx + 2] == 66 && input[idx + 3]
                == 78) {
                proof {
                    assert(rem.subrange(0, 4) != header_bytes());
                }
                return Err(YpbankError::BinaryUnexpectedValue);
            }
            proof {
                assert(rem.subrange(0, 4) =~= header_bytes());
            }
            let (rec, next) = match parse_frame(input, idx) {
                Ok(p) => p,
                Err(e) => {
                    return Err(e);
                },
            };
            let ghost old_recs = recs.deep_view();
            recs.push(rec);
            proof {
                assert(recs.deep_view() =~= old_recs.push(rec.deep_view()));
                if let Ok(rest) = spec_bin_decode(input@.skip(next as int)) {
                    assert(old_recs + (seq![rec.deep_view()] + rest) =~= recs.deep_view() + rest);
                }
            }
            idx = next;
        }
    }
}

/// Parse the single frame that begins at the given offset; the magic header
/// must already have been checked. Returns the record and the offset just
/// past the frame.
#[verifier::rlimit(100)]
fn parse_frame(input: &Vec<u8>, idx: usize) -> (r: Result<(Record, usize), YpbankError>)
    requires
        idx + 4 <= input@.len(),
        input@.skip(idx as int).subrange(0, 4) == header_bytes(),
    ensures
        r matches Ok(p) ==> ({
            &&& idx < p.1 <= input@.len()
            &&& spec_bin_decode(input@.skip(idx as int)) == (match spec_bin_decode(
                input@.skip(p.1 as int),
            ) {
                Ok(rest) => Ok::<Seq<RecordV>, ErrorV>(seq![p.0.deep_view()] + rest),
                Err(e) => Err::<Seq<RecordV>, ErrorV>(e),
            })
        }),
        r matches Err(e) ==> spec_bin_decode(input@.skip(idx as int)) matches Err(se) && e@ == se,
{
    let len = input.len();
    let ghost rem = input@.skip(idx as int);
    proof {
        assert(forall|k: int| 0 <= k < rem.len() ==> rem[k] == input@[idx + k]);
    }
    if len - idx < 54 {
        return Err(YpbankError::BinaryReadError("unexpected end of input".to_owned()));
    }
    let dlen = read_u32_be(input, idx + 50);
    proof {
        assert(input@.subrange(idx + 50, idx + 54) =~= rem.subrange(50, 54));
    }
    if (len - idx - 54) < dlen as usize {
        return Err(YpbankError::BinaryReadError("unexpected end of input".to_owned()));
    }
    let tag = input[idx + 16];
    if tag > 2 {
        return Err(YpbankError::BinaryUnexpectedValue);
    }
    let st = input[idx + 49];
    if st > 2 {
        return Err(YpbankError::BinaryUnexpectedValue);
    }
    let mut desc_bytes: Vec<u8> = Vec::new();
    let mut k: usize = 0;
    while k < dlen as usize
        invariant
            0 <= k <= dlen as usize,
            idx + 54 + dlen as usize <= len,
            len == input@.len(),
            desc_bytes@ =~= input@.subrange(idx + 54, idx + 54 + k),
        decreases dlen as usize - k,
    {
        desc_bytes.push(input[idx + 54 + k]);
        k = k + 1;
        proof {
            assert(desc_bytes@ =~= input@.subrange(idx + 54, idx + 54 + k));
        }
    }
    let ghost spec_desc = rem.subrange(54, 54 + dlen as int);
    proof {
        assert(desc_bytes@ =~= spec_desc);
    }
    let description = match string_from_utf8(desc_bytes) {
        Some(s) => s,
        None => {
            return Err(YpbankError::BinaryUnexpectedValue);
        },
    };
    let id = read_u64_be(input, idx + 8);
    let from_user_id = read_u64_be(input, idx + 17);
    let to_user_id = read_u64_be(input, idx + 25);
    let amount = read_u64_be(input, idx + 33);
    let timestamp = read_u64_be(input, idx + 41);
    proof {
        assert(input@.subrange(idx + 8, idx + 16) =~= rem.subrange(8, 16));
        assert(input@.subrange(idx + 17, idx + 25) =~= rem.subrange(17, 25));
        assert(input@.subrange(idx + 25, idx + 33) =~= rem.subrange(25, 33));
        assert(input@.subrange(idx + 33, idx + 41) =~= rem.subrange(33, 41));
        assert(input@.subrange(idx + 41, idx + 49) =~= rem.subrange(41, 49));
        assert(rem[16] == input@[idx + 16]);
        assert(rem[49] == input@[idx + 49]);
    }
    let record_type = if tag == 0 {
        RecordType::Deposit { to_user_id }
    } else if tag == 1 {
        RecordType::Transfer { from_user_id, to_user_id }
    } else {
        RecordType::Withdrawal { from_user_id }
    };
    let status = if st == 0 {
        RecordStatus::Success
    } else if st == 1 {
        RecordStatus::Failure
    } else {
        RecordStatus::Pending
    };
    let rec = Record { id, record_type, amount, timestamp, status, description };
    let next = idx + 54 + dlen as usize;
    proof {
        let frame_len = 54 + u32_from_be(rem.subrange(50, 54)) as int;
        let spec_rec = RecordV {
            id: u64_from_be(rem.subrange(8, 16)),
            record_type: type_from_tag(
                rem[16],
                u64_from_be(rem.subrange(17, 25)),
                u64_from_be(rem.subrange(25, 33)),
            ),
            amount: u64_from_be(rem.subrange(33, 41)),
            timestamp: u64_from_be(rem.subrange(41, 49)),
            status: status_from_tag(rem[49]),
            description: decode_utf8(spec_desc),
        };
        assert(rec.deep_view() =~= spec_rec);
        assert(rem.skip(frame_len) =~= input@.skip(next as int));
        assert(spec_bin_decode(rem) == (match spec_bin_decode(rem.skip(frame_len)) {
            Ok(rest) => Ok::<Seq<RecordV>, ErrorV>(seq![spec_rec] + rest),
            Err(e) => Err(e),
        }));
    }
    Ok((rec, next))
}

/// The binary encoding of a sequence extended by one record appends that
/// record's frame.
#[verifier::rlimit(50)]
pub proof fn lemma_bin_encode_snoc(rs: Seq<RecordV>, r: RecordV)
    ensures
        spec_bin_encode(rs.push(r)) == spec_bin_encode(rs) + spec_bin_record(r),
    decreases rs.len(),
{
    if rs.len() == 0 {
        assert(rs.push(r)[0] == r);
        assert(rs.push(r).drop_first() =~= Seq::<RecordV>::empty());
        assert(spec_bin_encode(Seq::<RecordV>::empty()) == Seq::<u8>::empty());
        assert(spec_bin_encode(rs.push(r)) =~= spec_bin_record(r) + Seq::<u8>::empty());
        assert(spec_bin_record(r) + Seq::<u8>::empty() =~= spec_bin_record(r));
        assert(spec_bin_encode(rs) + spec_bin_record(r) =~= spec_bin_record(r));
    } else {
        lemma_bin_encode_snoc(rs.drop_first(), r);
        assert(rs.push(r)[0] == rs[0]);
        assert(rs.push(r).drop_first() =~= rs.drop_first().push(r));
        assert(spec_bin_encode(rs.push(r)) == spec_bin_record(rs[0]) + spec_bin_encode(
            rs.drop_first().push(r),
        ));
        assert(spec_bin_record(rs[0]) + (spec_bin_encode(rs.drop_first()) + spec_bin_record(r))
            =~= (spec_bin_record(rs[0]) + spec_bin_encode(rs.drop_first())) + spec_bin_record(r));
    }
}

impl BinRecordWriter {
    /// Create a new binary writer.
    pub fn new() -> (r: Self) {
        BinRecordWriter
    }

    /// Encode all records into the binary format. Succeeds exactly when every
    /// description fits the 32-bit payload length of its frame.
    #[verifier::rlimit(80)]
    pub fn write_all(&self, records: &Vec<Record>) -> (r: Result<Vec<u8>, YpbankError>)
        ensures
            r is Ok <==> (forall|i: int|
                0 <= i < records.deep_view().len() ==> bin_encodable(
                    #[trigger] records.deep_view()[i],
                )),
            r matches Ok(bytes) ==> bytes@ == spec_bin_encode(records.deep_view()),
            r matches Err(e) ==> e@ == ErrorV::BinaryDescriptionTooLong,
    {
        let mut buf: Vec<u8> = Vec::new();
        let mut i: usize = 0;
        let n = records.len();
        while i < n
            invariant
                0 <= i <= n,
                n == records@.len(),
                buf@ == spec_bin_encode(records.deep_view().take(i as int)),
                forall|k: int|
                    0 <= k < i ==> bin_encodable(#[trigger] records.deep_view()[k]),
            decreases n - i,
        {
            let record = &records[i];
            let mut desc_bytes = record.description.as_str().as_bytes_vec();
            let dlen = desc_bytes.len();
            if dlen > (u32::MAX as usize) - 46 {
                assert(!bin_encodable(records.deep_view()[i as int]));
                return Err(YpbankError::BinaryDescriptionTooLong);
            }
            let ghost buf0 = buf@;
            buf.push(89);
            buf.push(80);
            buf.push(66);
            buf.push(78);
            proof {
                assert(buf@ =~= buf0 + header_bytes());
            }
            push_u32_be(&mut buf, 46 + dlen as u32);
            let (from_user_id, to_user_id, tag): (u64, u64, u8) = match record.record_type {
                RecordType::Deposit { to_user_id } => (0u64, to_user_id, 0u8),
                RecordType::Transfer { from_user_id, to_user_id } => (
                    from_user_id,
                    to_user_id,
                    1u8,
                ),
                RecordType::Withdrawal { from_user_id } => (from_user_id, 0u64, 2u8),
            };
            push_u64_be(&mut buf, record.id);
            buf.push(tag);
            push_u64_be(&mut buf, from_user_id);
            push_u64_be(&mut buf, to_user_id);
            push_u64_be(&mut buf, record.amount);
            push_u64_be(&mut buf, record.timestamp);
            let stag: u8 = match record.status {
                RecordStatus::Success => 0,
                RecordStatus::Failure => 1,
                RecordStatus::Pending => 2,
            };
            buf.push(stag);
            push_u32_be(&mut buf, dlen as u32);
            buf.append(&mut desc_bytes);
            proof {
                let rv = records.deep_view()[i as int];
                assert(rv == record.deep_view());
                assert(tag == type_tag(rv.record_type));
                assert(from_user_id == from_uid(rv.record_type));
                assert(to_user_id == to_uid(rv.record_type));
                assert(stag == status_tag(rv.status));
                assert(encode_utf8(rv.description).len() == dlen);
                assert(bin_encodable(rv));
                assert(buf@ =~= buf0 + spec_bin_record(rv));
                lemma_bin_encode_snoc(records.deep_view().take(i as int), rv);
                assert(records.deep_view().take(i + 1) =~= records.deep_view().take(
                    i as int,
                ).push(rv));
            }
            i = i + 1;
        }
        proof {
            assert(records.deep_view().take(n as int) =~= records.deep_view());
        }
        Ok(buf)
    }
}


/// Structure of a single frame: where each field of the record stands in the
/// frame's bytes.
#[verifier::rlimit(100)]
proof fn lemma_bin_record_parts(r: RecordV)
    ensures
        spec_bin_record(r).len() == 54 + encode_utf8(r.description).len(),
        spec_bin_record(r).subrange(0, 4) == header_bytes(),
        spec_bin_record(r).subrange(8, 16) == u64_be(r.id),
        spec_bin_record(r)[16] == type_tag(r.record_type),
        spec_bin_record(r).subrange(17, 25) == u64_be(from_uid(r.record_type)),
        spec_bin_record(r).subrange(25, 33) == u64_be(to_uid(r.record_type)),
        spec_bin_record(r).subrange(33, 41) == u64_be(r.amount),
        spec_bin_record(r).subrange(41, 49) == u64_be(r.timestamp),
        spec_bin_record(r)[49] == status_tag(r.status),
        spec_bin_record(r).subrange(50, 54) == u32_be(encode_utf8(r.description).len() as u32),
        spec_bin_record(r).subrange(54, spec_bin_record(r).len() as int) == encode_utf8(
            r.description,
        ),
{
    let f = spec_bin_record(r);
    let desc = encode_utf8(r.description);
    assert(f.len() == 54 + desc.len());
    assert(f.subrange(0, 4) =~= header_bytes());
    assert(f.subrange(8, 16) =~= u64_be(r.id));
    assert(f.subrange(17, 25) =~= u64_be(from_uid(r.record_type)));
    assert(f.subrange(25, 33) =~= u64_be(to_uid(r.record_type)));
    assert(f.subrange(33, 41) =~= u64_be(r.amount));
    assert(f.subrange(41, 49) =~= u64_be(r.timestamp));
    assert(f.subrange(50, 54) =~= u32_be(desc.len() as u32));
    assert(f.subrange(54, f.len() as int) =~= desc);
}

/// Decoding a well-formed frame followed by more bytes yields that frame's
/// record and then whatever the rest decodes to.
#[verifier::rlimit(100)]
proof fn lemma_bin_decode_frame_of_record(r: RecordV, rest: Seq<u8>)
    requires
        bin_encodable(r),
    ensures
        spec_bin_decode(spec_bin_record(r) + rest) == (match spec_bin_decode(rest) {
            Ok(t) => Ok::<Seq<RecordV>, ErrorV>(seq![r] + t),
            Err(e) => Err::<Seq<RecordV>, ErrorV>(e),
        }),
{
    let f = spec_bin_record(r);
    let bytes = f + rest;
    let desc = encode_utf8(r.description);
    lemma_bin_record_parts(r);
    assert(bytes.len() == 54 + desc.len() + rest.len());
    assert(bytes.subrange(0, 4) =~= f.subrange(0, 4));
    assert(bytes.subrange(50, 54) =~= f.subrange(50, 54));
    lemma_u32_be_round_trip(desc.len() as u32);
    let dlen = u32_from_be(bytes.subrange(50, 54)) as int;
    assert(dlen == desc.len());
    assert(bytes.len() >= 54 + dlen);
    assert(bytes[16] == f[16]);
    assert(bytes[49] == f[49]);
    assert(type_tag(r.record_type) == 0 || type_tag(r.record_type) == 1 || type_tag(
        r.record_type,
    ) == 2);
    assert(status_tag(r.status) == 0 || status_tag(r.status) == 1 || status_tag(r.status) == 2);
    assert(bytes.subrange(54, 54 + dlen) =~= f.subrange(54, f.len() as int));
    encode_utf8_valid_utf8(r.description);
    encode_utf8_decode_utf8(r.description);
    assert(bytes.subrange(8, 16) =~= f.subrange(8, 16));
    assert(bytes.subrange(17, 25) =~= f.subrange(17, 25));
    assert(bytes.subrange(25, 33) =~= f.subrange(25, 33));
    assert(bytes.subrange(33, 41) =~= f.subrange(33, 41));
    assert(bytes.subrange(41, 49) =~= f.subrange(41, 49));
    lemma_u64_be_round_trip(r.id);
    lemma_u64_be_round_trip(from_uid(r.record_type));
    lemma_u64_be_round_trip(to_uid(r.record_type));
    lemma_u64_be_round_trip(r.amount);
    lemma_u64_be_round_trip(r.timestamp);
    let spec_rec = RecordV {
        id: u64_from_be(bytes.subrange(8, 16)),
        record_type: type_from_tag(
            bytes[16],
            u64_from_be(bytes.subrange(17, 25)),
            u64_from_be(bytes.subrange(25, 33)),
        ),
        amount: u64_from_be(bytes.subrange(33, 41)),
        timestamp: u64_from_be(bytes.subrange(41, 49)),
        status: status_from_tag(bytes[49]),
        description: decode_utf8(bytes.subrange(54, 54 + dlen)),
    };
    assert(type_from_tag(
        type_tag(r.record_type),
        from_uid(r.record_type),
        to_uid(r.record_type),
    ) == r.record_type);
    assert(status_from_tag(status_tag(r.status)) == r.status);
    assert(spec_rec =~= r);
    assert(bytes.skip(54 + dlen) =~= rest);
}

/// Round-trip law of the binary codec: decoding an encoded record sequence
/// yields exactly that sequence, for every sequence whose descriptions fit
/// one frame each.
#[verifier::rlimit(100)]
#[verifier::spinoff_prover]
pub proof fn lemma_bin_round_trip(rs: Seq<RecordV>)
    requires
        forall|i: int| 0 <= i < rs.len() ==> bin_encodable(#[trigger] rs[i]),
    ensures
        spec_bin_decode(spec_bin_encode(rs)) == Ok::<Seq<RecordV>, ErrorV>(rs),
    decreases rs.len(),
{
    if rs.len() == 0 {
        assert(spec_bin_encode(rs) == Seq::<u8>::empty());
        assert(spec_bin_decode(spec_bin_encode(rs)) == Ok::<Seq<RecordV>, ErrorV>(
            Seq::<RecordV>::empty(),
        ));
        assert(rs =~= Seq::<RecordV>::empty());
    } else {
        assert(forall|i: int|
            0 <= i < rs.drop_first().len() ==> bin_encodable(#[trigger] rs.drop_first()[i]));
        lemma_bin_round_trip(rs.drop_first());
        lemma_bin_decode_frame_of_record(rs[0], spec_bin_encode(rs.drop_first()));
        assert(seq![rs[0]] + rs.drop_first() =~= rs);
    }
}


/// Empty input is a valid, empty record set for the binary format.
pub proof fn lemma_bin_decode_empty()
    ensures
        spec_bin_decode(Seq::empty()) == Ok::<Seq<RecordV>, ErrorV>(Seq::<RecordV>::empty()),
{
}

} // verus!
