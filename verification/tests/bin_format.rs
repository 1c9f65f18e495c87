use parser::bin_format::{
    calculate_body_size, parse_bin_record, parse_bin_record_body, parse_bin_to_transaction,
    write_bin, MAGIC,
};
use parser::{ParseError, TransactionRecord, TransactionStatus, TransactionType};

#[test]
fn test_write_bin_to_transaction() {
    let valid_transaction = TransactionRecord {
        tx_id: 1000000000000019,
        tx_type: TransactionType::TRANSFER,
        from_user_id: 8969803948209661815,
        to_user_id: 8940414264323298111,
        amount: 2000,
        timestamp: 1633038000000,
        status: TransactionStatus::PENDING,
        description: "Record number 20".to_string(),
    };
    let records = vec![valid_transaction.clone()];
    let buffer = write_bin(records);
    let expected_len = 4 + 4 + calculate_body_size(&valid_transaction.description) as usize;
    assert_eq!(buffer.len(), expected_len);

    assert_eq!(&buffer[0..4], &MAGIC);

    let size_bytes = &buffer[4..8];
    let parsed_size = u32::from_be_bytes(size_bytes.try_into().unwrap());
    assert_eq!(parsed_size, calculate_body_size(&valid_transaction.description));

    let desc_str = String::from_utf8(buffer[(expected_len - 16)..].to_vec()).unwrap();
    assert_eq!(desc_str, valid_transaction.description);
}

fn record(description: &str) -> TransactionRecord {
    TransactionRecord {
        tx_id: 0x0102030405060708,
        tx_type: TransactionType::WITHDRAWAL,
        from_user_id: u64::MAX,
        to_user_id: 3,
        amount: -2,
        timestamp: 1633038000000,
        status: TransactionStatus::FAILURE,
        description: description.to_string(),
    }
}

#[test]
fn bin_body_size_counts_description_bytes() {
    assert_eq!(calculate_body_size(&"".to_string()), 46);
    assert_eq!(calculate_body_size(&"ж".to_string()), 48);
}

#[test]
fn bin_writes_exact_bytes() {
    let bytes = write_bin(vec![record("ab")]);
    let mut expected = vec![0x59, 0x50, 0x42, 0x4E, 0, 0, 0, 48];
    expected.extend_from_slice(&[1, 2, 3, 4, 5, 6, 7, 8, 1]);
    expected.extend_from_slice(&[0xff; 8]);
    expected.extend_from_slice(&[0, 0, 0, 0, 0, 0, 0, 3]);
    expected.extend_from_slice(&[0xff, 0xff, 0xff, 0xff, 0xff, 0xff, 0xff, 0xfe]);
    expected.extend_from_slice(&1633038000000u64.to_be_bytes());
    expected.push(1);
    expected.extend_from_slice(&[2, 0, 0, 0]);
    expected.extend_from_slice(b"ab");
    assert_eq!(bytes, expected);
}

#[test]
fn bin_roundtrip_with_empty_descriptions() {
    let records = vec![record(""), record("")];
    let bytes = write_bin(records.clone());
    let parsed = parse_bin_to_transaction(&bytes).unwrap();
    assert_eq!(parsed.len(), 2);
    for (a, b) in parsed.iter().zip(records.iter()) {
        assert_eq!(a.tx_id, b.tx_id);
        assert_eq!(a.tx_type, b.tx_type);
        assert_eq!(a.from_user_id, b.from_user_id);
        assert_eq!(a.to_user_id, b.to_user_id);
        assert_eq!(a.amount, b.amount);
        assert_eq!(a.timestamp, b.timestamp);
        assert_eq!(a.status, b.status);
        assert_eq!(a.description, b.description);
    }
}

#[test]
fn bin_description_length_is_read_big_endian() {
    // a written length of 16 is read back as 16 << 24, past the body's end
    let bytes = write_bin(vec![record("Record number 20")]);
    assert!(matches!(parse_bin_to_transaction(&bytes), Err(ParseError::InvalidLine)));
}

#[test]
fn bin_empty_and_short_content_gives_no_records() {
    assert!(parse_bin_to_transaction(&[]).unwrap().is_empty());
    assert!(parse_bin_to_transaction(&[0x59, 0x50, 0x42]).unwrap().is_empty());
    assert!(matches!(parse_bin_record(&[1, 2], 0), Ok(None)));
}

#[test]
fn bin_wrong_magic_is_refused() {
    assert!(matches!(parse_bin_to_transaction(&[0, 0, 0, 0, 0]), Err(ParseError::InvalidMagic)));
}

#[test]
fn bin_truncated_record_is_invalid_line() {
    assert!(matches!(parse_bin_to_transaction(&[0x59, 0x50, 0x42, 0x4E, 0]), Err(ParseError::InvalidLine)));
    let bytes = write_bin(vec![record("")]);
    assert!(matches!(parse_bin_to_transaction(&bytes[..bytes.len() - 1]), Err(ParseError::InvalidLine)));
}

fn body(type_byte: u8, status_byte: u8, desc: &[u8]) -> Vec<u8> {
    let mut b = vec![0u8; 8];
    b.push(type_byte);
    b.extend_from_slice(&[0u8; 32]);
    b.push(status_byte);
    b.extend_from_slice(&(desc.len() as u32).to_be_bytes());
    b.extend_from_slice(desc);
    b
}

#[test]
fn bin_body_errors_come_in_order() {
    assert!(matches!(parse_bin_record_body(&[0u8; 45]), Err(ParseError::InvalidLine)));
    assert!(matches!(parse_bin_record_body(&body(9, 9, b"\xff")), Err(ParseError::InvalidDescription)));
    match parse_bin_record_body(&body(7, 9, b"ok")) {
        Err(ParseError::ParseEnumError(m)) => assert_eq!(m, "7"),
        other => panic!("{:?}", other),
    }
    match parse_bin_record_body(&body(2, 255, b"ok")) {
        Err(ParseError::ParseEnumError(m)) => assert_eq!(m, "255"),
        other => panic!("{:?}", other),
    }
    let r = parse_bin_record_body(&body(2, 2, b"ok")).unwrap();
    assert_eq!(r.tx_type, TransactionType::TRANSFER);
    assert_eq!(r.status, TransactionStatus::PENDING);
    assert_eq!(r.description, "ok");
}

#[test]
fn bin_record_reports_position_after_it() {
    let bytes = write_bin(vec![record(""), record("")]);
    match parse_bin_record(&bytes, 0) {
        Ok(Some((r, next))) => {
            assert_eq!(r.tx_id, 0x0102030405060708);
            assert_eq!(next, 54);
        }
        other => panic!("{:?}", other),
    }
}
