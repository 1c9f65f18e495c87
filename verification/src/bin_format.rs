//! The binary format: each record is the magic `YPBN`, the size of its body
//! as a big-endian `u32`, and the body.

use vstd::prelude::*;
use vstd::utf8::*;
use crate::errors::{ParseError, ParseFailure};
use crate::fields::{record_result_view, records_result_view, then_records};
use crate::numbers::{
    byte_to_string, decimal, i64_be_bytes, i64_from_be, push_u32_be, push_u32_le, push_u64_be,
    read_u32_be, read_u64_be, u32_be_bytes, u32_from_be, u32_le_bytes, u64_be_bytes, u64_from_be,
    le_reads_as_be, lemma_u64_be_roundtrip, lemma_i64_be_roundtrip, lemma_u32_be_roundtrip,
    lemma_u32_le_read_be,
};
use crate::record::{RecordView, TransactionRecord, TransactionStatus, TransactionType};
use crate::text::utf8_str;

verus! {

/// The four bytes that open every record.
pub const MAGIC: [u8; 4] = [0x59, 0x50, 0x42, 0x4E];

pub open spec fn magic() -> Seq<u8> {
    seq![0x59u8, 0x50u8, 0x42u8, 0x4Eu8]
}

/// Whether `b` starts with the magic at `pos`.
fn magic_at(b: &[u8], pos: usize) -> (res: bool)
    requires
        pos + 4 <= b@.len(),
    ensures
        res == (b@.subrange(pos as int, pos + 4) == magic()),
{
    let res = b[pos] == MAGIC[0] && b[pos + 1] == MAGIC[1] && b[pos + 2] == MAGIC[2] && b[pos
        + 3] == MAGIC[3];
    assert(res ==> b@.subrange(pos as int, pos + 4) =~= magic());
    res
}


/// The length of a record body without its description.
pub const FIXED_BODY_SIZE: usize = 46;

/// What parsing the body of a record gives. The body holds the identifier
/// (8 bytes), the kind (1), sender (8), receiver (8), amount (8), timestamp
/// (8), state (1), the description's length (4, big-endian) and the
/// description; bytes after the description are ignored.
pub open spec fn spec_parse_body(b: Seq<u8>) -> Result<RecordView, ParseFailure> {
    if b.len() < 46 {
        Err(ParseFailure::InvalidLine)
    } else {
        let desc_len = u32_from_be(b.subrange(42, 46)) as int;
        if 46 + desc_len > b.len() {
            Err(ParseFailure::InvalidLine)
        } else {
            let d = b.subrange(46, 46 + desc_len);
            if !valid_utf8(d) {
                Err(ParseFailure::InvalidDescription)
            } else {
                match TransactionType::spec_from_code(b[8]) {
                    None => Err(ParseFailure::BadEnum(decimal(b[8] as nat))),
                    Some(tx_type) => match TransactionStatus::spec_from_code(b[41]) {
                        None => Err(ParseFailure::BadEnum(decimal(b[41] as nat))),
                        Some(status) => Ok(
                            RecordView {
                                tx_id: u64_from_be(b.subrange(0, 8)),
                                tx_type,
                                from_user_id: u64_from_be(b.subrange(9, 17)),
                                to_user_id: u64_from_be(b.subrange(17, 25)),
                                amount: i64_from_be(b.subrange(25, 33)),
                                timestamp: u64_from_be(b.subrange(33, 41)),
                                status,
                                description: decode_utf8(d),
                            },
                        ),
                    },
                }
            }
        }
    }
}

/// What reading the next record of binary content gives: `None` when fewer
/// than four bytes are left, else the record and the number of bytes that
/// it takes.
pub open spec fn spec_parse_record(b: Seq<u8>) -> Result<Option<(RecordView, int)>, ParseFailure> {
    if b.len() < 4 {
        Ok(None)
    } else if b.subrange(0, 4) != magic() {
        Err(ParseFailure::InvalidMagic)
    } else if b.len() < 8 {
        Err(ParseFailure::InvalidLine)
    } else {
        let size = u32_from_be(b.subrange(4, 8)) as int;
        if 8 + size > b.len() {
            Err(ParseFailure::InvalidLine)
        } else {
            match spec_parse_body(b.subrange(8, 8 + size)) {
                Err(e) => Err(e),
                Ok(r) => Ok(Some((r, 8 + size))),
            }
        }
    }
}

/// What parsing binary content gives: its records one after the other
/// until fewer than four bytes are left, or the first error.
#[verifier::opaque]
pub open spec fn spec_parse_bin(b: Seq<u8>) -> Result<Seq<RecordView>, ParseFailure>
    decreases b.len(),
{
    if b.len() < 4 {
        Ok(seq![])
    } else if b.subrange(0, 4) != magic() {
        Err(ParseFailure::InvalidMagic)
    } else if b.len() < 8 {
        Err(ParseFailure::InvalidLine)
    } else {
        let size = u32_from_be(b.subrange(4, 8)) as int;
        if 8 + size > b.len() {
            Err(ParseFailure::InvalidLine)
        } else {
            match spec_parse_body(b.subrange(8, 8 + size)) {
                Err(e) => Err(e),
                Ok(r) => then_records(seq![r], spec_parse_bin(b.skip(8 + size))),
            }
        }
    }
}

/// Parses the body of a record, as `spec_parse_body` says.
pub fn parse_bin_record_body(body: &[u8]) -> (res: Result<TransactionRecord, ParseError>)
    ensures
        record_result_view(res) == spec_parse_body(body@),
{
    let n = body.len();
    if n < FIXED_BODY_SIZE {
        return Err(ParseError::InvalidLine);
    }
    let tx_id = read_u64_be(body, 0);
    let tx_type_byte = body[8];
    let from_user_id = read_u64_be(body, 9);
    let to_user_id = read_u64_be(body, 17);
    let amount = read_u64_be(body, 25) as i64;
    let timestamp = read_u64_be(body, 33);
    let status_byte = body[41];
    let desc_len = read_u32_be(body, 42) as usize;
    if desc_len > n - FIXED_BODY_SIZE {
        return Err(ParseError::InvalidLine);
    }
    let desc_bytes = vstd::slice::slice_subrange(body, FIXED_BODY_SIZE, FIXED_BODY_SIZE + desc_len);
    let description = match utf8_str(desc_bytes) {
        Some(s) => s.to_owned(),
        None => {
            return Err(ParseError::InvalidDescription);
        },
    };
    let tx_type = match TransactionType::from_code(tx_type_byte) {
        Some(t) => t,
        None => {
            return Err(ParseError::ParseEnumError(byte_to_string(tx_type_byte)));
        },
    };
    let status = match TransactionStatus::from_code(status_byte) {
        Some(s) => s,
        None => {
            return Err(ParseError::ParseEnumError(byte_to_string(status_byte)));
        },
    };
    Ok(TransactionRecord {
        tx_id,
        tx_type,
        from_user_id,
        to_user_id,
        amount,
        timestamp,
        status,
        description,
    })
}

/// Reads the record that starts at `pos`, as `spec_parse_record` says of the
/// content from `pos` on; a record comes with the position after it.
pub fn parse_bin_record(content: &[u8], pos: usize) -> (res: Result<
    Option<(TransactionRecord, usize)>,
    ParseError,
>)
    requires
        pos <= content@.len(),
    ensures
        match res {
            Ok(None) => spec_parse_record(content@.skip(pos as int)) == Ok::<
                Option<(RecordView, int)>,
                ParseFailure,
            >(None),
            Ok(Some((r, next))) => spec_parse_record(content@.skip(pos as int)) == Ok::<
                Option<(RecordView, int)>,
                ParseFailure,
            >(Some((r@, next - pos))),
            Err(e) => spec_parse_record(content@.skip(pos as int)) == Err::<
                Option<(RecordView, int)>,
                ParseFailure,
            >(e@),
        },
{
    let ghost b = content@.skip(pos as int);
    let left = content.len() - pos;
    if left < 4 {
        return Ok(None);
    }
    assert(b.subrange(0, 4) =~= content@.subrange(pos as int, pos + 4));
    if !magic_at(content, pos) {
        return Err(ParseError::InvalidMagic);
    }
    if left < 8 {
        return Err(ParseError::InvalidLine);
    }
    assert(b.subrange(4, 8) =~= content@.subrange(pos + 4, pos + 8));
    let size = read_u32_be(content, pos + 4) as usize;
    if size > left - 8 {
        return Err(ParseError::InvalidLine);
    }
    let body = vstd::slice::slice_subrange(content, pos + 8, pos + 8 + size);
    assert(body@ =~= b.subrange(8, 8 + size));
    match parse_bin_record_body(body) {
        Ok(r) => Ok(Some((r, pos + 8 + size))),
        Err(e) => Err(e),
    }
}

/// Parses binary content, as `spec_parse_bin` says.
pub fn parse_bin_to_transaction(content: &[u8]) -> (res: Result<
    Vec<TransactionRecord>,
    ParseError,
>)
    ensures
        records_result_view(res) == spec_parse_bin(content@),
{
    let mut records: Vec<TransactionRecord> = Vec::new();
    let mut pos: usize = 0;
    assert(content@.skip(0) =~= content@);
    reveal(spec_parse_bin);
    loop
        invariant
            pos <= content@.len(),
            spec_parse_bin(content@) == then_records(
                records@.map_values(|r: TransactionRecord| r@),
                spec_parse_bin(content@.skip(pos as int)),
            ),
        decreases content@.len() - pos,
    {
        let ghost before = records@.map_values(|r: TransactionRecord| r@);
        let ghost b = content@.skip(pos as int);
        reveal(spec_parse_bin);
        match parse_bin_record(content, pos) {
            Ok(Some((r, next))) => {
                proof {
                    assert(b.skip(next - pos) =~= content@.skip(next as int));
                    match spec_parse_bin(content@.skip(next as int)) {
                        Ok(rs) => {
                            assert(before + (seq![r@] + rs) =~= before + seq![r@] + rs);
                        },
                        Err(_) => {},
                    }
                }
                records.push(r);
                assert(records@.map_values(|r: TransactionRecord| r@) =~= before + seq![r@]);
                pos = next;
            },
            Ok(None) => {
                assert(before + Seq::<RecordView>::empty() =~= before);
                return Ok(records);
            },
            Err(e) => {
                return Err(e);
            },
        }
    }
}

/// The bytes of a description.
pub open spec fn description_bytes(r: RecordView) -> Seq<u8> {
    encode_utf8(r.description)
}

/// A record can be written when the size of its body fits the `u32` that
/// holds it.
pub open spec fn writable(r: RecordView) -> bool {
    description_bytes(r).len() + 46 <= u32::MAX
}

/// The bytes of one record. The size of the body is written big-endian, the
/// length of the description little-endian.
#[verifier::opaque]
pub open spec fn record_bytes(r: RecordView) -> Seq<u8> {
    let d = description_bytes(r);
    magic() + u32_be_bytes((46 + d.len()) as u32) + u64_be_bytes(r.tx_id) + seq![
        r.tx_type.spec_code(),
    ] + u64_be_bytes(r.from_user_id) + u64_be_bytes(r.to_user_id) + i64_be_bytes(r.amount)
        + u64_be_bytes(r.timestamp) + seq![r.status.spec_code()] + u32_le_bytes(d.len() as u32)
        + d
}

/// The bytes of records one after the other.
pub open spec fn bin_bytes(rs: Seq<RecordView>) -> Seq<u8>
    decreases rs.len(),
{
    if rs.len() == 0 {
        seq![]
    } else {
        bin_bytes(rs.drop_last()) + record_bytes(rs.last())
    }
}

/// The size of the body of a record with this description.
pub fn calculate_body_size(description: &String) -> (size: u32)
    requires
        encode_utf8(description@).len() + 46 <= u32::MAX,
    ensures
        size == 46 + encode_utf8(description@).len(),
{
    let n = description.as_str().as_bytes().len();
    46 + n as u32
}

fn push_bytes(out: &mut Vec<u8>, bytes: &[u8])
    ensures
        final(out)@ == old(out)@ + bytes@,
{
    let n = bytes.len();
    let mut i: usize = 0;
    while i < n
        invariant
            n == bytes@.len(),
            i <= n,
            out@ == old(out)@ + bytes@.subrange(0, i as int),
        decreases n - i,
    {
        out.push(bytes[i]);
        i = i + 1;
        assert(out@ =~= old(out)@ + bytes@.subrange(0, i as int));
    }
    assert(bytes@.subrange(0, n as int) =~= bytes@);
}

fn push_record(out: &mut Vec<u8>, r: &TransactionRecord)
    requires
        writable(r@),
    ensures
        final(out)@ == old(out)@ + record_bytes(r@),
{
    let ghost base = out@;
    reveal(record_bytes);
    out.push(MAGIC[0]);
    out.push(MAGIC[1]);
    out.push(MAGIC[2]);
    out.push(MAGIC[3]);
    let body_size = calculate_body_size(&r.description);
    push_u32_be(out, body_size);
    push_u64_be(out, r.tx_id);
    out.push(r.tx_type.code());
    push_u64_be(out, r.from_user_id);
    push_u64_be(out, r.to_user_id);
    push_u64_be(out, r.amount as u64);
    push_u64_be(out, r.timestamp);
    out.push(r.status.code());
    let desc_bytes = r.description.as_str().as_bytes();
    push_u32_le(out, desc_bytes.len() as u32);
    push_bytes(out, desc_bytes);
    assert(out@ =~= base + record_bytes(r@));
}

/// Writes records in the binary format, one after the other.
pub fn write_bin(transactions: Vec<TransactionRecord>) -> (out: Vec<u8>)
    requires
        forall|i: int| 0 <= i < transactions@.len() ==> writable(#[trigger] transactions@[i]@),
    ensures
        out@ == bin_bytes(transactions@.map_values(|r: TransactionRecord| r@)),
{
    let mut out: Vec<u8> = Vec::new();
    let n = transactions.len();
    let mut i: usize = 0;
    let ghost rs = transactions@.map_values(|r: TransactionRecord| r@);
    while i < n
        invariant
            n == transactions@.len(),
            rs == transactions@.map_values(|r: TransactionRecord| r@),
            forall|j: int| 0 <= j < transactions@.len() ==> writable(#[trigger] transactions@[j]@),
            i <= n,
            out@ == bin_bytes(rs.subrange(0, i as int)),
        decreases n - i,
    {
        push_record(&mut out, &transactions[i]);
        proof {
            let next = rs.subrange(0, i + 1);
            assert(next.drop_last() =~= rs.subrange(0, i as int));
        }
        i = i + 1;
    }
    assert(rs.subrange(0, n as int) =~= rs);
    out
}

/// Records written one after the other are the first record's bytes followed
/// by the bytes of the others.
proof fn lemma_bin_bytes_first(rs: Seq<RecordView>)
    requires
        rs.len() > 0,
    ensures
        bin_bytes(rs) == record_bytes(rs[0]) + bin_bytes(rs.drop_first()),
    decreases rs.len(),
{
    if rs.len() == 1 {
        assert(rs.drop_last() =~= Seq::<RecordView>::empty());
        assert(rs.drop_first() =~= Seq::<RecordView>::empty());
        assert(bin_bytes(rs) =~= record_bytes(rs[0]) + bin_bytes(rs.drop_first()));
    } else {
        lemma_bin_bytes_first(rs.drop_last());
        assert(rs.drop_last().drop_first() =~= rs.drop_first().drop_last());
        assert(rs.drop_first().last() == rs.last());
        assert(rs.drop_last()[0] == rs[0]);
        assert(bin_bytes(rs) =~= record_bytes(rs[0]) + bin_bytes(rs.drop_first()));
    }
}

/// Reading the body that writing a record produced gives the record back.
#[verifier::rlimit(60)]
proof fn lemma_parse_written_body(r: RecordView)
    requires
        writable(r),
        le_reads_as_be(description_bytes(r).len() as u32),
    ensures
        spec_parse_body(record_bytes(r).subrange(8, 54 + description_bytes(r).len() as int)) == Ok::<
            RecordView,
            ParseFailure,
        >(r),
{
    let d = description_bytes(r);
    let len = d.len() as int;
    let bytes = record_bytes(r);
    reveal(record_bytes);
    let body = bytes.subrange(8, 54 + len);
    assert(body.len() == 46 + len);
    assert(body.subrange(0, 8) =~= u64_be_bytes(r.tx_id));
    assert(body[8] == r.tx_type.spec_code());
    assert(body.subrange(9, 17) =~= u64_be_bytes(r.from_user_id));
    assert(body.subrange(17, 25) =~= u64_be_bytes(r.to_user_id));
    assert(body.subrange(25, 33) =~= i64_be_bytes(r.amount));
    assert(body.subrange(33, 41) =~= u64_be_bytes(r.timestamp));
    assert(body[41] == r.status.spec_code());
    assert(body.subrange(42, 46) =~= u32_le_bytes(len as u32));
    assert(body.subrange(46, 46 + len) =~= d);
    lemma_u64_be_roundtrip(r.tx_id);
    lemma_u64_be_roundtrip(r.from_user_id);
    lemma_u64_be_roundtrip(r.to_user_id);
    lemma_i64_be_roundtrip(r.amount);
    lemma_u64_be_roundtrip(r.timestamp);
    lemma_u32_le_read_be(len as u32);
    encode_utf8_valid_utf8(r.description);
    encode_utf8_decode_utf8(r.description);
    assert(TransactionType::spec_from_code(r.tx_type.spec_code()) == Some(r.tx_type));
    assert(TransactionStatus::spec_from_code(r.status.spec_code()) == Some(r.status));
}

/// Reading content that starts with a written record gives that record,
/// followed by what the rest of the content gives.
#[verifier::rlimit(60)]
proof fn lemma_parse_written_record(r: RecordView, rest: Seq<u8>)
    requires
        reads_back(r),
    ensures
        spec_parse_bin(record_bytes(r) + rest) == then_records(seq![r], spec_parse_bin(rest)),
{
    let d = description_bytes(r);
    let len = d.len() as int;
    let bytes = record_bytes(r);
    let x = bytes + rest;
    reveal(spec_parse_bin);
    reveal(record_bytes);
    assert(bytes.len() == 54 + len);
    assert(x.subrange(0, 4) =~= magic());
    assert(x.subrange(4, 8) =~= u32_be_bytes((46 + len) as u32));
    lemma_u32_be_roundtrip((46 + len) as u32);
    assert(x.subrange(8, 54 + len) =~= bytes.subrange(8, 54 + len));
    lemma_parse_written_body(r);
    assert(x.skip(54 + len) =~= rest);
}

/// A written record reads back: its body size fits a `u32`, and its
/// description length reads the same in both byte orders.
pub open spec fn reads_back(r: RecordView) -> bool {
    writable(r) && le_reads_as_be(description_bytes(r).len() as u32)
}

/// Writing records in the binary format and reading the bytes back gives the
/// same records, field for field, for records whose body size fits a `u32`
/// and whose description length reads the same in both byte orders. The
/// writer puts the description length down little-endian and the reader
/// takes it big-endian, so other lengths do not read back.
pub proof fn law_bin_roundtrip(rs: Seq<RecordView>)
    requires
        forall|i: int| 0 <= i < rs.len() ==> #[trigger] reads_back(rs[i]),
    ensures
        spec_parse_bin(bin_bytes(rs)) == Ok::<Seq<RecordView>, ParseFailure>(rs),
    decreases rs.len(),
{
    if rs.len() == 0 {
        reveal(spec_parse_bin);
        assert(bin_bytes(rs) =~= Seq::<u8>::empty());
        assert(rs =~= Seq::<RecordView>::empty());
    } else {
        let tail = rs.drop_first();
        assert forall|i: int| 0 <= i < tail.len() implies #[trigger] reads_back(tail[i]) by {
            assert(tail[i] == rs[i + 1]);
        }
        law_bin_roundtrip(tail);
        let head = rs[0];
        assert(reads_back(head));
        assert(spec_parse_bin(bin_bytes(rs)) == then_records(seq![head], spec_parse_bin(bin_bytes(tail)))) by {
            lemma_bin_bytes_first(rs);
            lemma_parse_written_record(head, bin_bytes(tail));
        }
        assert(seq![head] + tail =~= rs);
    }
}

/// Where the fields of a record stand in its written bytes: the magic
/// `59 50 42 4E` first, the kind byte at 16 (0 deposit, 1 withdrawal,
/// 2 transfer), the state byte at 49 (0 success, 1 failure, 2 pending), and
/// the whole description's bytes last, after the 54 bytes of fixed fields.
pub proof fn law_bin_record_layout(r: RecordView)
    requires
        writable(r),
    ensures
        record_bytes(r).len() == 54 + encode_utf8(r.description).len(),
        record_bytes(r).subrange(0, 4) == seq![0x59u8, 0x50u8, 0x42u8, 0x4Eu8],
        record_bytes(r)[16] == match r.tx_type {
            TransactionType::DEPOSIT => 0u8,
            TransactionType::WITHDRAWAL => 1u8,
            TransactionType::TRANSFER => 2u8,
        },
        record_bytes(r)[49] == match r.status {
            TransactionStatus::SUCCESS => 0u8,
            TransactionStatus::FAILURE => 1u8,
            TransactionStatus::PENDING => 2u8,
        },
        record_bytes(r).subrange(8, 16) == u64_be_bytes(r.tx_id),
        record_bytes(r).subrange(54, record_bytes(r).len() as int) == encode_utf8(r.description),
{
    reveal(record_bytes);
    let b = record_bytes(r);
    assert(b.subrange(0, 4) =~= seq![0x59u8, 0x50u8, 0x42u8, 0x4Eu8]);
    assert(b.subrange(8, 16) =~= u64_be_bytes(r.tx_id));
    assert(b.subrange(54, b.len() as int) =~= encode_utf8(r.description));
}

} // verus!
