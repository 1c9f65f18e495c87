//! The CSV format: one record per line, eight comma-separated fields.

use vstd::prelude::*;
use vstd::utf8::*;
use crate::errors::{ParseError, ParseFailure};
use crate::fields::{
    build_record, field_view, record_from_fields, record_result_view, records_result_view,
    then_records,
};
use crate::numbers::{
    lemma_parse_decimal_i64, lemma_parse_decimal_u64,
    ascii_bytes, decimal, is_digit, lemma_ascii_encoding, lemma_decimal_facts, push_decimal,
    push_signed_decimal, signed_decimal,
};
use crate::record::{RecordView, TransactionRecord, TransactionStatus, TransactionType};
use crate::text::{
    is_white_space, lemma_first_index_of, strip_cr, split_lines, split_on, split_pieces, str_chars,
    text_lines, trim, trim_bounds,
};

verus! {

/// The fields of a CSV line: the pieces of the trimmed line between commas.
pub open spec fn csv_pieces(line: Seq<char>) -> Seq<Seq<char>> {
    split_on(trim(line), ',')
}

/// The first eight pieces of a CSV line, each missing one as `None`.
pub open spec fn csv_fields(line: Seq<char>) -> Seq<Option<Seq<char>>> {
    let p = csv_pieces(line);
    Seq::new(8, |k: int| if k < p.len() { Some(p[k]) } else { None })
}

/// What parsing one CSV line gives.
pub open spec fn spec_parse_line(line: Seq<char>) -> Result<RecordView, ParseFailure> {
    record_from_fields(csv_fields(line))
}

/// Whether a line of CSV content holds a record: it is not empty and starts
/// with a decimal digit. Other lines are passed over.
pub open spec fn is_record_line(line: Seq<char>) -> bool {
    line.len() > 0 && is_digit(line[0])
}

/// What parsing the lines of CSV content gives: the records of its record
/// lines in order, or the error of the first record line that does not parse.
pub open spec fn csv_records(lines: Seq<Seq<char>>) -> Result<Seq<RecordView>, ParseFailure>
    decreases lines.len(),
{
    if lines.len() == 0 {
        Ok(seq![])
    } else if !is_record_line(lines[0]) {
        csv_records(lines.drop_first())
    } else {
        match spec_parse_line(lines[0]) {
            Err(e) => Err(e),
            Ok(r) => then_records(seq![r], csv_records(lines.drop_first())),
        }
    }
}

/// Parses one CSV line: the line is trimmed and split at commas, and the
/// first eight pieces are the identifier, kind, sender, receiver, amount,
/// timestamp, state and description; further pieces are ignored.
pub fn parse_line(line: String) -> (res: Result<TransactionRecord, ParseError>)
    ensures
        record_result_view(res) == spec_parse_line(line@),
{
    let cs = str_chars(line.as_str());
    let (lo, hi) = trim_bounds(&cs);
    let pieces = split_pieces(line.as_str(), &cs, lo, hi, ',');
    let ghost p = pieces@.map_values(|s: String| s@);
    assert(p == csv_pieces(line@));
    let mut fields: Vec<Option<&String>> = Vec::new();
    let mut k: usize = 0;
    while k < 8
        invariant
            k <= 8,
            fields@.len() == k,
            p == pieces@.map_values(|s: String| s@),
            p == csv_pieces(line@),
            forall|i: int|
                0 <= i < k ==> #[trigger] field_view(fields@[i]) == csv_fields(line@)[i],
        decreases 8 - k,
    {
        if k < pieces.len() {
            fields.push(Some(&pieces[k]));
            assert(p[k as int] == pieces@[k as int]@);
        } else {
            fields.push(None);
        }
        assert(field_view(fields@[k as int]) == csv_fields(line@)[k as int]);
        k = k + 1;
    }
    assert(fields@.map_values(|f: Option<&String>| field_view(f)) =~= csv_fields(line@));
    build_record(&fields)
}

/// Parses CSV content: its lines are read as `BufRead::lines` reads them,
/// lines that are empty or do not start with a digit are passed over, and
/// every other line must parse as a record.
pub fn parse_csv_to_transactions(content: &[u8]) -> (res: Result<
    Vec<TransactionRecord>,
    ParseError,
>)
    ensures
        records_result_view(res) == csv_records(text_lines(content@)),
{
    let lines = split_lines(content);
    let ghost ls = lines@.map_values(|s: String| s@);
    let mut records: Vec<TransactionRecord> = Vec::new();
    let mut i: usize = 0;
    let n = lines.len();
    assert(ls.skip(0) =~= ls);
    while i < n
        invariant
            n == lines@.len(),
            i <= n,
            ls == lines@.map_values(|s: String| s@),
            ls == text_lines(content@),
            csv_records(ls) == then_records(
                records@.map_values(|r: TransactionRecord| r@),
                csv_records(ls.skip(i as int)),
            ),
        decreases n - i,
    {
        let ghost before = records@.map_values(|r: TransactionRecord| r@);
        assert(ls.skip(i as int).drop_first() =~= ls.skip(i + 1));
        assert(ls.skip(i as int)[0] == lines@[i as int]@);
        let line = &lines[i];
        let cs = str_chars(line.as_str());
        if cs.len() > 0 && '0' <= cs[0] && cs[0] <= '9' {
            let record = parse_line(line.clone());
            match record {
                Ok(r) => {
                    records.push(r);
                    assert(records@.map_values(|r: TransactionRecord| r@) =~= before + seq![r@]);
                    proof {
                        let rest = csv_records(ls.skip(i + 1));
                        match rest {
                            Ok(rs) => {
                                assert(before + (seq![r@] + rs) =~= before + seq![r@] + rs);
                            },
                            Err(_) => {},
                        }
                    }
                },
                Err(e) => {
                    return Err(e);
                },
            }
        }
        i = i + 1;
    }
    proof {
        assert(ls.skip(n as int) =~= Seq::<Seq<char>>::empty());
        assert(records@.map_values(|r: TransactionRecord| r@) + Seq::<RecordView>::empty()
            =~= records@.map_values(|r: TransactionRecord| r@));
    }
    Ok(records)
}

/// The CSV line of a record, without its line end.
pub open spec fn csv_record_text(r: RecordView) -> Seq<char> {
    decimal(r.tx_id as nat) + seq![','] + r.tx_type.spec_name() + seq![','] + decimal(
        r.from_user_id as nat,
    ) + seq![','] + decimal(r.to_user_id as nat) + seq![','] + signed_decimal(r.amount as int)
        + seq![','] + decimal(r.timestamp as nat) + seq![','] + r.status.spec_name() + seq![',']
        + r.description
}

/// The CSV line of a record, with its line end.
pub open spec fn csv_line(r: RecordView) -> Seq<char> {
    csv_record_text(r) + seq!['\n']
}

/// The CSV text of records, one line each.
pub open spec fn csv_text(rs: Seq<RecordView>) -> Seq<char>
    decreases rs.len(),
{
    if rs.len() == 0 {
        seq![]
    } else {
        csv_text(rs.drop_last()) + csv_line(rs.last())
    }
}

/// The UTF-8 encoding of two texts one after the other is the encoding of
/// the first followed by that of the second.
pub proof fn lemma_encode_concat(a: Seq<char>, b: Seq<char>)
    ensures
        encode_utf8(a + b) == encode_utf8(a) + encode_utf8(b),
    decreases a.len(),
{
    if a.len() == 0 {
        assert(a + b =~= b);
    } else {
        lemma_encode_concat(a.drop_first(), b);
        assert((a + b).drop_first() =~= a.drop_first() + b);
        assert(encode_utf8(a) + encode_utf8(b) =~= encode_scalar(a[0] as u32) + (encode_utf8(
            a.drop_first(),
        ) + encode_utf8(b)));
    }
}

fn push_text(out: &mut Vec<u8>, s: &str)
    ensures
        final(out)@ == old(out)@ + encode_utf8(s@),
{
    let bytes = s.as_bytes();
    let n = bytes.len();
    let mut i: usize = 0;
    while i < n
        invariant
            n == bytes@.len(),
            bytes@ == encode_utf8(s@),
            i <= n,
            out@ == old(out)@ + bytes@.subrange(0, i as int),
        decreases n - i,
    {
        out.push(bytes[i]);
        i = i + 1;
        assert(out@ =~= old(out)@ + bytes@.subrange(0, i as int));
    }
    assert(bytes@.subrange(0, n as int) =~= bytes@);
}

fn push_ascii(out: &mut Vec<u8>, c: char)
    requires
        c <= '\u{7f}',
    ensures
        final(out)@ == old(out)@ + encode_utf8(seq![c]),
{
    out.push(c as u8);
    proof {
        lemma_ascii_encoding(seq![c]);
        assert(ascii_bytes(seq![c]) =~= seq![c as u8]);
    }
    assert(out@ =~= old(out)@ + encode_utf8(seq![c]));
}

fn push_unsigned(out: &mut Vec<u8>, v: u64)
    ensures
        final(out)@ == old(out)@ + encode_utf8(decimal(v as nat)),
{
    push_decimal(out, v);
    proof {
        lemma_decimal_facts(v as nat);
        lemma_ascii_encoding(decimal(v as nat));
    }
}

fn push_signed(out: &mut Vec<u8>, v: i64)
    ensures
        final(out)@ == old(out)@ + encode_utf8(signed_decimal(v as int)),
{
    push_signed_decimal(out, v);
    proof {
        let m = if v < 0 {
            (0 - v) as nat
        } else {
            v as nat
        };
        lemma_decimal_facts(m);
        let s = signed_decimal(v as int);
        if v < 0 {
            assert(is_ascii_chars(s)) by {
                assert forall|i: int| 0 <= i < s.len() implies '\0' <= #[trigger] s[i] <= '\u{7f}' by {
                    if i > 0 {
                        assert(s[i] == decimal(m)[i - 1]);
                    }
                }
            }
        }
        lemma_ascii_encoding(s);
    }
}

/// Appends `piece` after bytes that encode `prefix`.
proof fn lemma_extend(base: Seq<u8>, prefix: Seq<char>, piece: Seq<char>, out: Seq<u8>)
    requires
        out == base + encode_utf8(prefix) + encode_utf8(piece),
    ensures
        out == base + encode_utf8(prefix + piece),
{
    lemma_encode_concat(prefix, piece);
    assert(base + encode_utf8(prefix) + encode_utf8(piece) =~= base + (encode_utf8(prefix)
        + encode_utf8(piece)));
}

fn push_unsigned_field(out: &mut Vec<u8>, v: u64, Ghost(base): Ghost<Seq<u8>>, Ghost(prefix): Ghost<Seq<char>>)
    requires
        old(out)@ == base + encode_utf8(prefix),
    ensures
        final(out)@ == base + encode_utf8(prefix + decimal(v as nat) + seq![',']),
{
    push_unsigned(out, v);
    proof {
        lemma_extend(base, prefix, decimal(v as nat), out@);
    }
    push_ascii(out, ',');
    proof {
        lemma_extend(base, prefix + decimal(v as nat), seq![','], out@);
    }
}

fn push_signed_field(out: &mut Vec<u8>, v: i64, Ghost(base): Ghost<Seq<u8>>, Ghost(prefix): Ghost<Seq<char>>)
    requires
        old(out)@ == base + encode_utf8(prefix),
    ensures
        final(out)@ == base + encode_utf8(prefix + signed_decimal(v as int) + seq![',']),
{
    push_signed(out, v);
    proof {
        lemma_extend(base, prefix, signed_decimal(v as int), out@);
    }
    push_ascii(out, ',');
    proof {
        lemma_extend(base, prefix + signed_decimal(v as int), seq![','], out@);
    }
}

fn push_text_field(out: &mut Vec<u8>, s: &str, last: char, Ghost(base): Ghost<Seq<u8>>, Ghost(prefix): Ghost<Seq<char>>)
    requires
        old(out)@ == base + encode_utf8(prefix),
        last <= '\u{7f}',
    ensures
        final(out)@ == base + encode_utf8(prefix + s@ + seq![last]),
{
    push_text(out, s);
    proof {
        lemma_extend(base, prefix, s@, out@);
    }
    push_ascii(out, last);
    proof {
        lemma_extend(base, prefix + s@, seq![last], out@);
    }
}

/// Appends the CSV line of a record.
fn push_csv_line(out: &mut Vec<u8>, r: &TransactionRecord)
    ensures
        final(out)@ == old(out)@ + encode_utf8(csv_line(r@)),
{
    let ghost base = out@;
    let ghost a0: Seq<char> = Seq::empty();
    assert(out@ =~= base + encode_utf8(a0));
    push_unsigned_field(out, r.tx_id, Ghost(base), Ghost(a0));
    let ghost a1 = a0 + decimal(r.tx_id as nat) + seq![','];
    push_text_field(out, r.tx_type.as_str(), ',', Ghost(base), Ghost(a1));
    let ghost a2 = a1 + r.tx_type.spec_name() + seq![','];
    push_unsigned_field(out, r.from_user_id, Ghost(base), Ghost(a2));
    let ghost a3 = a2 + decimal(r.from_user_id as nat) + seq![','];
    push_unsigned_field(out, r.to_user_id, Ghost(base), Ghost(a3));
    let ghost a4 = a3 + decimal(r.to_user_id as nat) + seq![','];
    push_signed_field(out, r.amount, Ghost(base), Ghost(a4));
    let ghost a5 = a4 + signed_decimal(r.amount as int) + seq![','];
    push_unsigned_field(out, r.timestamp, Ghost(base), Ghost(a5));
    let ghost a6 = a5 + decimal(r.timestamp as nat) + seq![','];
    push_text_field(out, r.status.as_str(), ',', Ghost(base), Ghost(a6));
    let ghost a7 = a6 + r.status.spec_name() + seq![','];
    push_text_field(out, r.description.as_str(), '\n', Ghost(base), Ghost(a7));
    let ghost a8 = a7 + r.description@ + seq!['\n'];
    assert(a8 =~= csv_line(r@));
}

/// Writes records as CSV text: per record one line with its eight fields
/// separated by commas, kinds and states by name, numbers in decimal.
pub fn write_csv(transactions: Vec<TransactionRecord>) -> (out: Vec<u8>)
    ensures
        out@ == encode_utf8(csv_text(transactions@.map_values(|r: TransactionRecord| r@))),
{
    let mut out: Vec<u8> = Vec::new();
    let n = transactions.len();
    let mut i: usize = 0;
    let ghost rs = transactions@.map_values(|r: TransactionRecord| r@);
    while i < n
        invariant
            n == transactions@.len(),
            rs == transactions@.map_values(|r: TransactionRecord| r@),
            i <= n,
            out@ == encode_utf8(csv_text(rs.subrange(0, i as int))),
        decreases n - i,
    {
        push_csv_line(&mut out, &transactions[i]);
        proof {
            let prev = rs.subrange(0, i as int);
            let next = rs.subrange(0, i + 1);
            assert(next.drop_last() =~= prev);
            lemma_encode_concat(csv_text(prev), csv_line(rs[i as int]));
        }
        i = i + 1;
    }
    assert(rs.subrange(0, n as int) =~= rs);
    out
}

/// An ASCII byte occurs in the UTF-8 encoding of a character only as the
/// encoding of that very character.
proof fn lemma_scalar_ascii_byte(c: char, x: u8, j: int)
    requires
        x < 128,
        0 <= j < encode_scalar(c as u32).len(),
        encode_scalar(c as u32)[j] == x,
    ensures
        c as u32 == x as u32,
{
    let v = c as u32;
    char_is_scalar(c);
    if has_width_1_encoding(v) {
        assert(v == x as u32) by (bit_vector)
            requires
                (v & 0x7F) as u8 == x,
                v <= 0x7F,
        ;
    } else {
        let b = encode_scalar(v)[j];
        assert(b >= 0x80) by {
            if has_width_2_encoding(v) {
                assert((0xC0u8 | ((v >> 6) & 0x1F) as u8) >= 0x80u8) by (bit_vector);
                assert((0x80u8 | (v & 0x3F) as u8) >= 0x80u8) by (bit_vector);
            } else if has_width_3_encoding(v) {
                assert((0xE0u8 | ((v >> 12) & 0x0F) as u8) >= 0x80u8) by (bit_vector);
                assert((0x80u8 | ((v >> 6) & 0x3F) as u8) >= 0x80u8) by (bit_vector);
                assert((0x80u8 | (v & 0x3F) as u8) >= 0x80u8) by (bit_vector);
            } else {
                assert((0xF0u8 | ((v >> 18) & 0x7) as u8) >= 0x80u8) by (bit_vector);
                assert((0x80u8 | ((v >> 12) & 0x3F) as u8) >= 0x80u8) by (bit_vector);
                assert((0x80u8 | ((v >> 6) & 0x3F) as u8) >= 0x80u8) by (bit_vector);
                assert((0x80u8 | (v & 0x3F) as u8) >= 0x80u8) by (bit_vector);
            }
        }
    }
}

/// An ASCII byte does not occur in the encoding of a text that does not
/// hold its character.
proof fn lemma_no_ascii_byte(s: Seq<char>, x: u8)
    requires
        x < 128,
        forall|i: int| 0 <= i < s.len() ==> (#[trigger] s[i]) as u32 != x as u32,
    ensures
        forall|j: int| 0 <= j < encode_utf8(s).len() ==> (#[trigger] encode_utf8(s)[j]) != x,
    decreases s.len(),
{
    if s.len() > 0 {
        let rest = s.drop_first();
        assert forall|i: int| 0 <= i < rest.len() implies (#[trigger] rest[i]) as u32 != x as u32 by {
            assert(rest[i] == s[i + 1]);
        }
        lemma_no_ascii_byte(rest, x);
        let e = encode_utf8(s);
        let first = encode_scalar(s[0] as u32);
        assert forall|j: int| 0 <= j < e.len() implies (#[trigger] e[j]) != x by {
            if j < first.len() {
                if e[j] == x {
                    lemma_scalar_ascii_byte(s[0], x, j);
                }
            } else {
                assert(e[j] == encode_utf8(rest)[j - first.len()]);
            }
        }
    }
}

/// The last byte of the encoding of a text is the last byte of its last
/// character's encoding.
proof fn lemma_last_byte(s: Seq<char>)
    requires
        s.len() > 0,
    ensures
        encode_utf8(s).len() > 0,
        encode_utf8(s).last() == encode_scalar(s.last() as u32).last(),
        encode_scalar(s.last() as u32).len() > 0,
{
    let init = s.drop_last();
    let one = seq![s.last()];
    assert(init + one =~= s);
    lemma_encode_concat(init, one);
    assert(one.drop_first() =~= Seq::<char>::empty());
    assert(encode_utf8(Seq::<char>::empty()) =~= Seq::<u8>::empty());
    assert(one[0] == s.last());
    assert(encode_utf8(one) =~= encode_scalar(s.last() as u32) + encode_utf8(one.drop_first()));
    assert(encode_utf8(one) =~= encode_scalar(s.last() as u32));
    char_is_scalar(s.last());
}

/// A text without the separator is a single piece.
proof fn lemma_split_whole(a: Seq<char>, sep: char)
    requires
        !a.contains(sep),
    ensures
        split_on(a, sep) == seq![a],
{
    lemma_first_index_of(a, sep, 0, a.len() as int);
}

/// A piece without the separator, the separator, and the rest split into
/// that piece followed by the pieces of the rest.
proof fn lemma_split_first(a: Seq<char>, b: Seq<char>, sep: char)
    requires
        !a.contains(sep),
    ensures
        split_on(a + seq![sep] + b, sep) == seq![a] + split_on(b, sep),
{
    let t = a + seq![sep] + b;
    assert forall|m: int| 0 <= m < a.len() implies t[m] != sep by {
        assert(t[m] == a[m]);
    }
    lemma_first_index_of(t, sep, 0, a.len() as int);
    assert(t.take(a.len() as int) =~= a);
    assert(t.skip(a.len() as int + 1) =~= b);
}

/// A text that neither starts nor ends with white space is its own trim.
proof fn lemma_trim_unchanged(s: Seq<char>)
    requires
        s.len() > 0,
        !is_white_space(s[0]),
        !is_white_space(s.last()),
    ensures
        trim(s) == s,
{
}

/// A description that the CSV format carries unchanged: no comma, no line
/// end, and no white space at its end.
pub open spec fn csv_safe(description: Seq<char>) -> bool {
    &&& !description.contains(',')
    &&& !description.contains('\n')
    &&& (description.len() > 0 ==> !is_white_space(description.last()))
}

pub proof fn lemma_type_name(t: TransactionType)
    ensures
        TransactionType::spec_from_name(t.spec_name()) == Some(t),
        !t.spec_name().contains(','),
        !t.spec_name().contains('\n'),
        t.spec_name().len() > 0,
        !is_white_space(t.spec_name().last()),
{
    reveal_strlit("DEPOSIT");
    reveal_strlit("WITHDRAWAL");
    reveal_strlit("TRANSFER");
    let n = t.spec_name();
    assert(n.len() > 0);
    assert(!n.contains(','));
    assert(!n.contains('\n'));
    assert("DEPOSIT"@ != "WITHDRAWAL"@) by {
        assert("DEPOSIT"@.len() != "WITHDRAWAL"@.len());
    }
    assert("DEPOSIT"@ != "TRANSFER"@) by {
        assert("DEPOSIT"@[0] != "TRANSFER"@[0]);
    }
    assert("WITHDRAWAL"@ != "TRANSFER"@) by {
        assert("WITHDRAWAL"@.len() != "TRANSFER"@.len());
    }
}

pub proof fn lemma_status_name(t: TransactionStatus)
    ensures
        TransactionStatus::spec_from_name(t.spec_name()) == Some(t),
        !t.spec_name().contains(','),
        !t.spec_name().contains('\n'),
{
    reveal_strlit("SUCCESS");
    reveal_strlit("FAILURE");
    reveal_strlit("PENDING");
    let n = t.spec_name();
    assert(!n.contains(','));
    assert(!n.contains('\n'));
    assert("SUCCESS"@ != "FAILURE"@) by {
        assert("SUCCESS"@[0] != "FAILURE"@[0]);
    }
    assert("SUCCESS"@ != "PENDING"@) by {
        assert("SUCCESS"@[0] != "PENDING"@[0]);
    }
    assert("FAILURE"@ != "PENDING"@) by {
        assert("FAILURE"@[0] != "PENDING"@[0]);
    }
}

proof fn lemma_decimal_plain(n: nat)
    ensures
        !decimal(n).contains(','),
        !decimal(n).contains('\n'),
{
    lemma_decimal_facts(n);
}

proof fn lemma_signed_decimal_plain(v: int)
    ensures
        !signed_decimal(v).contains(','),
        !signed_decimal(v).contains('\n'),
{
    if v < 0 {
        let m = (0 - v) as nat;
        lemma_decimal_facts(m);
        let s = signed_decimal(v);
        assert forall|i: int| 0 <= i < s.len() implies s[i] != ',' && s[i] != '\n' by {
            if i > 0 {
                assert(s[i] == decimal(m)[i - 1]);
            }
        }
    } else {
        lemma_decimal_facts(v as nat);
    }
}

/// The line of a record, without its end, parses back to the record.
#[verifier::rlimit(40)]
proof fn lemma_parse_record_text(r: RecordView)
    requires
        csv_safe(r.description),
    ensures
        is_record_line(csv_record_text(r)),
        spec_parse_line(csv_record_text(r)) == Ok::<RecordView, ParseFailure>(r),
        !csv_record_text(r).contains('\n'),
        !is_white_space(csv_record_text(r).last()),
{
    let p1 = decimal(r.tx_id as nat);
    let p2 = r.tx_type.spec_name();
    let p3 = decimal(r.from_user_id as nat);
    let p4 = decimal(r.to_user_id as nat);
    let p5 = signed_decimal(r.amount as int);
    let p6 = decimal(r.timestamp as nat);
    let p7 = r.status.spec_name();
    let p8 = r.description;
    let c = seq![','];
    let line = csv_record_text(r);
    lemma_decimal_facts(r.tx_id as nat);
    lemma_decimal_plain(r.from_user_id as nat);
    lemma_decimal_plain(r.to_user_id as nat);
    lemma_decimal_plain(r.timestamp as nat);
    lemma_decimal_plain(r.tx_id as nat);
    lemma_signed_decimal_plain(r.amount as int);
    lemma_type_name(r.tx_type);
    lemma_status_name(r.status);
    lemma_parse_decimal_u64(r.tx_id);
    lemma_parse_decimal_u64(r.from_user_id);
    lemma_parse_decimal_u64(r.to_user_id);
    lemma_parse_decimal_u64(r.timestamp);
    lemma_parse_decimal_i64(r.amount);
    let t8 = p8;
    let t7 = p7 + c + t8;
    let t6 = p6 + c + t7;
    let t5 = p5 + c + t6;
    let t4 = p4 + c + t5;
    let t3 = p3 + c + t4;
    let t2 = p2 + c + t3;
    let t1 = p1 + c + t2;
    assert(line =~= t1);
    lemma_split_whole(t8, ',');
    lemma_split_first(p7, t8, ',');
    lemma_split_first(p6, t7, ',');
    lemma_split_first(p5, t6, ',');
    lemma_split_first(p4, t5, ',');
    lemma_split_first(p3, t4, ',');
    lemma_split_first(p2, t3, ',');
    lemma_split_first(p1, t2, ',');
    let pieces = seq![p1, p2, p3, p4, p5, p6, p7, p8];
    assert(split_on(line, ',') =~= pieces);
    assert(line[0] == p1[0]);
    assert(is_digit(line[0]));
    if p8.len() > 0 {
        assert(line.last() == p8.last());
    } else {
        assert(line.last() == ',');
    }
    lemma_trim_unchanged(line);
    assert(csv_pieces(line) == pieces);
    assert(csv_fields(line) =~= seq![
        Some(p1),
        Some(p2),
        Some(p3),
        Some(p4),
        Some(p5),
        Some(p6),
        Some(p7),
        Some(p8),
    ]);
    assert(!line.contains('\n')) by {
        assert forall|i: int| 0 <= i < line.len() implies line[i] != '\n' by {
            assert(t1 == line);
            if i < p1.len() {
                assert(line[i] == p1[i]);
            }
        }
    }
}

/// Characters with the same code are the same.
proof fn lemma_same_code(c: char, d: char)
    requires
        c as u32 == d as u32,
    ensures
        c == d,
{
    char_u32_cast(c, c as u32);
    char_u32_cast(d, d as u32);
}

/// The encoding of a line without line ends, a line end and more content
/// splits into that line and the lines of the rest.
proof fn lemma_lines_of_line(body: Seq<char>, rest: Seq<u8>)
    requires
        body.len() > 0,
        !body.contains('\n'),
        body.last() != '\r',
    ensures
        text_lines(encode_utf8(body) + seq![10u8] + rest) == seq![body] + text_lines(rest),
{
    let e = encode_utf8(body);
    let b = e + seq![10u8] + rest;
    assert forall|i: int| 0 <= i < body.len() implies (#[trigger] body[i]) as u32 != 10u8 as u32 by {
        assert(body[i] != '\n');
        if body[i] as u32 == 10u8 as u32 {
            lemma_same_code(body[i], '\n');
        }
    }
    lemma_no_ascii_byte(body, 10u8);
    assert forall|m: int| 0 <= m < e.len() implies b[m] != 10u8 by {
        assert(b[m] == e[m]);
    }
    assert(b[e.len() as int] == 10u8);
    lemma_first_index_of(b, 10u8, 0, e.len() as int);
    assert(b.take(e.len() as int) =~= e);
    lemma_last_byte(body);
    let last = encode_scalar(body.last() as u32);
    if e.last() == 13u8 {
        lemma_scalar_ascii_byte(body.last(), 13u8, last.len() - 1);
        lemma_same_code(body.last(), '\r');
    }
    assert(strip_cr(e) == e);
    encode_utf8_valid_utf8(body);
    encode_utf8_decode_utf8(body);
    assert(b.skip(e.len() as int + 1) =~= rest);
}

/// The CSV text of records is the first record's line followed by the text
/// of the others.
proof fn lemma_csv_text_first(rs: Seq<RecordView>)
    requires
        rs.len() > 0,
    ensures
        csv_text(rs) == csv_line(rs[0]) + csv_text(rs.drop_first()),
    decreases rs.len(),
{
    if rs.len() == 1 {
        assert(rs.drop_last() =~= Seq::<RecordView>::empty());
        assert(rs.drop_first() =~= Seq::<RecordView>::empty());
        assert(csv_text(rs) =~= csv_line(rs[0]) + csv_text(rs.drop_first()));
    } else {
        lemma_csv_text_first(rs.drop_last());
        assert(rs.drop_last().drop_first() =~= rs.drop_first().drop_last());
        assert(rs.drop_first().last() == rs.last());
        assert(rs.drop_last()[0] == rs[0]);
        assert(csv_text(rs) =~= csv_line(rs[0]) + csv_text(rs.drop_first()));
    }
}

/// Writing records as CSV and parsing the bytes back gives the same records,
/// field for field, when no description holds a comma or a line end or
/// ends in white space (those would split or lose characters).
pub proof fn law_csv_roundtrip(rs: Seq<RecordView>)
    requires
        forall|i: int| 0 <= i < rs.len() ==> csv_safe(#[trigger] rs[i].description),
    ensures
        csv_records(text_lines(encode_utf8(csv_text(rs)))) == Ok::<
            Seq<RecordView>,
            ParseFailure,
        >(rs),
    decreases rs.len(),
{
    if rs.len() == 0 {
        assert(csv_text(rs) =~= Seq::<char>::empty());
        assert(encode_utf8(Seq::<char>::empty()) =~= Seq::<u8>::empty());
        assert(rs =~= Seq::<RecordView>::empty());
    } else {
        let r = rs[0];
        let tail = rs.drop_first();
        assert forall|i: int| 0 <= i < tail.len() implies csv_safe(#[trigger] tail[i].description) by {
            assert(tail[i] == rs[i + 1]);
        }
        law_csv_roundtrip(tail);
        assert(csv_safe(r.description));
        lemma_parse_record_text(r);
        let body = csv_record_text(r);
        let rest = encode_utf8(csv_text(tail));
        assert(encode_utf8(csv_text(rs)) == encode_utf8(body) + seq![10u8] + rest) by {
            lemma_csv_text_first(rs);
            lemma_encode_concat(csv_line(r), csv_text(tail));
            lemma_encode_concat(body, seq!['\n']);
            lemma_ascii_encoding(seq!['\n']);
            assert(ascii_bytes(seq!['\n']) =~= seq![10u8]);
        }
        assert(body.last() != '\r');
        lemma_lines_of_line(body, rest);
        let lines = seq![body] + text_lines(rest);
        assert(lines[0] == body);
        assert(lines.drop_first() =~= text_lines(rest));
        assert(seq![r] + tail =~= rs);
    }
}

/// Canonical CSV text (each line as the writer puts it: numbers in plain
/// decimal, kinds and states by name, descriptions without commas or line
/// ends and not ending in white space) parses, and writing what it parses to
/// gives the same text back.
pub proof fn law_csv_canonical_text(rs: Seq<RecordView>)
    requires
        forall|i: int| 0 <= i < rs.len() ==> csv_safe(#[trigger] rs[i].description),
    ensures
        csv_records(text_lines(encode_utf8(csv_text(rs)))) matches Ok(parsed) && encode_utf8(
            csv_text(parsed),
        ) == encode_utf8(csv_text(rs)),
{
    law_csv_roundtrip(rs);
}

/// The CSV line of every record, whatever its description, ends with a
/// comma, the whole description and the line end.
pub proof fn law_csv_line_ends_with_description(r: RecordView)
    ensures
        csv_line(r).len() >= r.description.len() + 2,
        csv_line(r).subrange(
            csv_line(r).len() - r.description.len() - 2,
            csv_line(r).len() as int,
        ) == seq![','] + r.description + seq!['\n'],
{
    let l = csv_line(r);
    let d = r.description;
    assert(l.subrange(l.len() - d.len() - 2, l.len() as int) =~= seq![','] + d + seq!['\n']);
}

} // verus!
