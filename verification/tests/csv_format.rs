use parser::csv_format::{parse_csv_to_transactions, parse_line, write_csv};
use parser::{ParseError, TransactionRecord, TransactionStatus, TransactionType};

#[test]
fn test_parse_csv_line_success() {
    let test_line = String::from(
        r#"1000000000000019,TRANSFER,8969803948209661815,8940414264323298111,2000,1633038000000,PENDING,"Record number 20""#
    );
    let transaction = parse_line(test_line);

    assert!(transaction.is_ok());

    let valid_transaction = TransactionRecord {
        tx_id: 1000000000000019,
        tx_type: TransactionType::TRANSFER,
        from_user_id: 8969803948209661815,
        to_user_id: 8940414264323298111,
        amount: 2000,
        timestamp: 1633038000000,
        status: TransactionStatus::PENDING,
        description: "Record number 20".to_string(),
    };

    assert_eq!(transaction.unwrap(), valid_transaction);
}

#[test]
fn test_parse_csv_line_wrong_int() {
    let test_line = String::from(r#"abyr,abyr,abyr,valg"#);
    let transaction = parse_line(test_line);

    match transaction {
        Err(ParseError::ParseIntError(msg)) => {
            assert_eq!(msg.to_string(), "invalid digit found in string".to_string());
        }
        Err(other) => panic!("Ожидалась ParseIntError, получено: {:?}", other),
        Ok(_) => panic!("Ожидалась ошибка, но парсинг прошёл успешно"),
    }
}

#[test]
fn test_parse_csv_line_wrong_enum() {
    let test_line = String::from(
        r#"1000000000000019,ABYRVALG,8969803948209661815,8940414264323298111,2000,1633038000000,PENDING,"Record number 20""#
    );
    let transaction = parse_line(test_line);

    match transaction {
        Err(ParseError::ParseEnumError(msg)) => {
            assert_eq!(msg.to_string(), "Unknown TransactionType: ABYRVALG".to_string());
        }
        Err(other) => panic!("Ожидалась ParseEnumError, получено: {:?}", other),
        Ok(_) => panic!("Ожидалась ошибка, но парсинг прошёл успешно"),
    }
}

#[test]
fn parse_csv_to_transactions_success() {
    let fake_file = "1000000000000009,DEPOSIT,0,9223372036854775807,1000,1633037400000,FAILURE,\"Record number 10\"\n1000000000000994,TRANSFER,9223372036854775807,9223372036854775807,99500,1633096500000,PENDING,\"Record number 995\"\n";
    let records = parse_csv_to_transactions(fake_file.as_bytes()).unwrap();

    assert_eq!(records.len(), 2);
    assert_eq!(records[0].description, r#""Record number 10""#);
    assert_eq!(records[1].description, r#""Record number 995""#);
}

#[test]
fn parse_csv_to_transactions_wrong_line() {
    let fake_file = "1000000000000009,DEPOSIT,0,9223372036854775807,1000,1633037400000,FAILURE,\"Record number 10\"\n1000000000000994,TRANSFER,9223372036854775807";
    let records = parse_csv_to_transactions(fake_file.as_bytes());

    match records {
        Err(ParseError::InvalidLine) => {
            println!("Тест parse_csv_to_transactions_wrong_line прошёл успешно");
        }
        Err(other) => panic!("Ожидалась InvalidLine, получено: {:?}", other),
        Ok(_) => panic!("Ожидалась ошибка, но парсинг прошёл успешно"),
    }
}

#[test]
fn write_parsed_files_to_csv_success() {
    let fake_file = "1000000000000009,DEPOSIT,0,9223372036854775807,1000,1633037400000,FAILURE,\"Record number 10\"\n1000000000000994,TRANSFER,9223372036854775807,9223372036854775807,99500,1633096500000,PENDING,\"Record number 995\"\n";
    let records = parse_csv_to_transactions(fake_file.as_bytes()).unwrap();
    let buffer = write_csv(records);
    let output = String::from_utf8(buffer).unwrap();

    assert_eq!(output, fake_file);
}

fn record(tx_id: u64, amount: i64, description: &str) -> TransactionRecord {
    TransactionRecord {
        tx_id,
        tx_type: TransactionType::WITHDRAWAL,
        from_user_id: 7,
        to_user_id: 0,
        amount,
        timestamp: 1633038000000,
        status: TransactionStatus::SUCCESS,
        description: description.to_string(),
    }
}

#[test]
fn csv_roundtrip_keeps_every_field() {
    let records = vec![record(1, -42, "Кофе и булочка"), record(2, i64::MIN, ""), record(u64::MAX, i64::MAX, "  leading spaces")];
    let bytes = write_csv(records.clone());
    let parsed = parse_csv_to_transactions(&bytes).unwrap();
    assert_eq!(parsed.len(), records.len());
    for (a, b) in parsed.iter().zip(records.iter()) {
        assert_eq!(a.tx_id, b.tx_id);
        assert_eq!(a.tx_type, b.tx_type);
        assert_eq!(a.from_user_id, b.from_user_id);
        assert_eq!(a.to_user_id, b.to_user_id);
        assert_eq!(a.amount, b.amount);
        assert_eq!(a.timestamp, b.timestamp);
        assert_eq!(a.status, b.status);
        assert_eq!(a.description, b.description);
    }
}

#[test]
fn csv_writes_exact_line() {
    let bytes = write_csv(vec![record(5, -3, "x y")]);
    assert_eq!(String::from_utf8(bytes).unwrap(), "5,WITHDRAWAL,7,0,-3,1633038000000,SUCCESS,x y\n");
}

#[test]
fn csv_line_is_trimmed_and_extra_fields_are_ignored() {
    let line = "  \t12,DEPOSIT,+3,4,-5,6,FAILURE,text,more \u{3000}".to_string();
    let r = parse_line(line).unwrap();
    assert_eq!(r.tx_id, 12);
    assert_eq!(r.from_user_id, 3);
    assert_eq!(r.amount, -5);
    assert_eq!(r.description, "text");
}

#[test]
fn csv_missing_description_is_invalid_line() {
    let r = parse_line("1,DEPOSIT,2,3,4,5,SUCCESS".to_string());
    assert!(matches!(r, Err(ParseError::InvalidLine)));
}

#[test]
fn csv_wrong_status_names_it() {
    let r = parse_line("1,DEPOSIT,2,3,4,5,DONE,d".to_string());
    match r {
        Err(ParseError::ParseEnumError(m)) => assert_eq!(m, "Unknown TransactionStatus: DONE"),
        other => panic!("{:?}", other),
    }
}

#[test]
fn csv_overflowing_amount_is_int_error() {
    let r = parse_line("1,DEPOSIT,2,3,9223372036854775808,5,SUCCESS,d".to_string());
    assert!(matches!(r, Err(ParseError::ParseIntError(_))));
    let r = parse_line("1,DEPOSIT,-2,3,4,5,SUCCESS,d".to_string());
    assert!(matches!(r, Err(ParseError::ParseIntError(_))));
}

#[test]
fn csv_passes_over_lines_without_leading_digit() {
    let content = "header,line\n\n# note\r\n7,TRANSFER,1,2,3,4,PENDING,x\r\n";
    let records = parse_csv_to_transactions(content.as_bytes()).unwrap();
    assert_eq!(records.len(), 1);
    assert_eq!(records[0].tx_id, 7);
    assert_eq!(records[0].description, "x");
}

#[test]
fn csv_passes_over_lines_that_are_not_utf8() {
    let mut content = b"\xff\xfe,broken\n".to_vec();
    content.extend_from_slice(b"8,DEPOSIT,1,2,3,4,SUCCESS,ok");
    let records = parse_csv_to_transactions(&content).unwrap();
    assert_eq!(records.len(), 1);
    assert_eq!(records[0].tx_id, 8);
}

#[test]
fn csv_empty_content_gives_no_records() {
    assert!(parse_csv_to_transactions(b"").unwrap().is_empty());
    assert!(write_csv(Vec::new()).is_empty());
}
