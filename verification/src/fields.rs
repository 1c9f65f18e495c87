//! Building a record from its eight textual fields, shared by the text
//! formats.

use vstd::prelude::*;
use crate::errors::{ParseError, ParseFailure};
use crate::numbers::{
    i64_parse_error, parse_i64, parse_u64, spec_parse_i64, spec_parse_u64, u64_parse_error,
};
use crate::record::{RecordView, TransactionRecord, TransactionStatus, TransactionType};

verus! {

/// The text of a field that may be missing.
pub open spec fn field_view(f: Option<&String>) -> Option<Seq<char>> {
    match f {
        Some(s) => Some(s@),
        None => None,
    }
}

/// A parse result as a mathematical value.
pub open spec fn record_result_view(res: Result<TransactionRecord, ParseError>) -> Result<
    RecordView,
    ParseFailure,
> {
    match res {
        Ok(r) => Ok(r@),
        Err(e) => Err(e@),
    }
}

pub open spec fn unsigned_field(f: Option<Seq<char>>) -> Result<u64, ParseFailure> {
    match f {
        None => Err(ParseFailure::InvalidLine),
        Some(s) => match spec_parse_u64(s) {
            Some(v) => Ok(v),
            None => Err(ParseFailure::BadInt(u64_parse_error(s))),
        },
    }
}

pub open spec fn signed_field(f: Option<Seq<char>>) -> Result<i64, ParseFailure> {
    match f {
        None => Err(ParseFailure::InvalidLine),
        Some(s) => match spec_parse_i64(s) {
            Some(v) => Ok(v),
            None => Err(ParseFailure::BadInt(i64_parse_error(s))),
        },
    }
}

pub open spec fn type_field(f: Option<Seq<char>>) -> Result<TransactionType, ParseFailure> {
    match f {
        None => Err(ParseFailure::InvalidLine),
        Some(s) => match TransactionType::spec_from_name(s) {
            Some(t) => Ok(t),
            None => Err(ParseFailure::BadEnum("Unknown TransactionType: "@ + s)),
        },
    }
}

pub open spec fn status_field(f: Option<Seq<char>>) -> Result<TransactionStatus, ParseFailure> {
    match f {
        None => Err(ParseFailure::InvalidLine),
        Some(s) => match TransactionStatus::spec_from_name(s) {
            Some(t) => Ok(t),
            None => Err(ParseFailure::BadEnum("Unknown TransactionStatus: "@ + s)),
        },
    }
}

pub open spec fn text_field(f: Option<Seq<char>>) -> Result<Seq<char>, ParseFailure> {
    match f {
        None => Err(ParseFailure::InvalidLine),
        Some(s) => Ok(s),
    }
}

/// The record written by the fields identifier, kind, sender, receiver,
/// amount, timestamp, state and description, read in that order: the first
/// field that is missing or does not read gives the error.
pub open spec fn record_from_fields(f: Seq<Option<Seq<char>>>) -> Result<RecordView, ParseFailure>
    recommends
        f.len() == 8,
{
    match unsigned_field(f[0]) {
        Err(e) => Err(e),
        Ok(tx_id) => match type_field(f[1]) {
            Err(e) => Err(e),
            Ok(tx_type) => match unsigned_field(f[2]) {
                Err(e) => Err(e),
                Ok(from_user_id) => match unsigned_field(f[3]) {
                    Err(e) => Err(e),
                    Ok(to_user_id) => match signed_field(f[4]) {
                        Err(e) => Err(e),
                        Ok(amount) => match unsigned_field(f[5]) {
                            Err(e) => Err(e),
                            Ok(timestamp) => match status_field(f[6]) {
                                Err(e) => Err(e),
                                Ok(status) => match text_field(f[7]) {
                                    Err(e) => Err(e),
                                    Ok(description) => Ok(
                                        RecordView {
                                            tx_id,
                                            tx_type,
                                            from_user_id,
                                            to_user_id,
                                            amount,
                                            timestamp,
                                            status,
                                            description,
                                        },
                                    ),
                                },
                            },
                        },
                    },
                },
            },
        },
    }
}

fn read_unsigned(f: Option<&String>) -> (res: Result<u64, ParseError>)
    ensures
        match res {
            Ok(v) => unsigned_field(field_view(f)) == Ok::<u64, ParseFailure>(v),
            Err(e) => unsigned_field(field_view(f)) == Err::<u64, ParseFailure>(e@),
        },
{
    match f {
        None => Err(ParseError::InvalidLine),
        Some(s) => match parse_u64(s.as_str()) {
            Ok(v) => Ok(v),
            Err(e) => Err(ParseError::ParseIntError(e)),
        },
    }
}

fn read_signed(f: Option<&String>) -> (res: Result<i64, ParseError>)
    ensures
        match res {
            Ok(v) => signed_field(field_view(f)) == Ok::<i64, ParseFailure>(v),
            Err(e) => signed_field(field_view(f)) == Err::<i64, ParseFailure>(e@),
        },
{
    match f {
        None => Err(ParseError::InvalidLine),
        Some(s) => match parse_i64(s.as_str()) {
            Ok(v) => Ok(v),
            Err(e) => Err(ParseError::ParseIntError(e)),
        },
    }
}

fn read_type(f: Option<&String>) -> (res: Result<TransactionType, ParseError>)
    ensures
        match res {
            Ok(v) => type_field(field_view(f)) == Ok::<TransactionType, ParseFailure>(v),
            Err(e) => type_field(field_view(f)) == Err::<TransactionType, ParseFailure>(e@),
        },
{
    match f {
        None => Err(ParseError::InvalidLine),
        Some(s) => match TransactionType::parse_name(s.as_str()) {
            Ok(v) => Ok(v),
            Err(m) => Err(ParseError::ParseEnumError(m)),
        },
    }
}

fn read_status(f: Option<&String>) -> (res: Result<TransactionStatus, ParseError>)
    ensures
        match res {
            Ok(v) => status_field(field_view(f)) == Ok::<TransactionStatus, ParseFailure>(v),
            Err(e) => status_field(field_view(f)) == Err::<TransactionStatus, ParseFailure>(e@),
        },
{
    match f {
        None => Err(ParseError::InvalidLine),
        Some(s) => match TransactionStatus::parse_name(s.as_str()) {
            Ok(v) => Ok(v),
            Err(m) => Err(ParseError::ParseEnumError(m)),
        },
    }
}

fn read_text(f: Option<&String>) -> (res: Result<String, ParseError>)
    ensures
        match res {
            Ok(v) => text_field(field_view(f)) == Ok::<Seq<char>, ParseFailure>(v@),
            Err(e) => text_field(field_view(f)) == Err::<Seq<char>, ParseFailure>(e@),
        },
{
    match f {
        None => Err(ParseError::InvalidLine),
        Some(s) => Ok(s.clone()),
    }
}

/// Records parsed so far, followed by what the rest of the content gives.
pub open spec fn then_records(
    acc: Seq<RecordView>,
    rest: Result<Seq<RecordView>, ParseFailure>,
) -> Result<Seq<RecordView>, ParseFailure> {
    match rest {
        Ok(rs) => Ok(acc + rs),
        Err(e) => Err(e),
    }
}

/// A parse result of many records as a mathematical value.
pub open spec fn records_result_view(res: Result<Vec<TransactionRecord>, ParseError>) -> Result<
    Seq<RecordView>,
    ParseFailure,
> {
    match res {
        Ok(v) => Ok(v@.map_values(|r: TransactionRecord| r@)),
        Err(e) => Err(e@),
    }
}

/// Builds a record from its eight fields, as `record_from_fields` says.
pub(crate) fn build_record(fields: &Vec<Option<&String>>) -> (res: Result<
    TransactionRecord,
    ParseError,
>)
    requires
        fields@.len() == 8,
    ensures
        record_result_view(res) == record_from_fields(fields@.map_values(|f: Option<&String>| field_view(f))),
{
    let tx_id = read_unsigned(fields[0])?;
    let tx_type = read_type(fields[1])?;
    let from_user_id = read_unsigned(fields[2])?;
    let to_user_id = read_unsigned(fields[3])?;
    let amount = read_signed(fields[4])?;
    let timestamp = read_unsigned(fields[5])?;
    let status = read_status(fields[6])?;
    let description = read_text(fields[7])?;
    Ok(TransactionRecord {
        tx_id,
        tx_type,
        from_user_id,
        to_user_id,
        amount,
        timestamp,
        status,
        description,
    })
}

} // verus!
