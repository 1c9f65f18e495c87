use parser::txt_format::{parse_map, parse_txt_to_transactions, FieldMap};
use parser::{ParseError, TransactionRecord, TransactionStatus, TransactionType};

#[test]
fn test_parse_txt_map_success() {
    let mut map = FieldMap::new();
    map.insert("DESCRIPTION".to_string(), r#""Record number 2""#.to_string());
    map.insert("TIMESTAMP".to_string(), "1633036920000".to_string());
    map.insert("STATUS".to_string(), "PENDING".to_string());
    map.insert("AMOUNT".to_string(), "200".to_string());
    map.insert("TX_ID".to_string(), "1000000000000001".to_string());
    map.insert("TX_TYPE".to_string(), "TRANSFER".to_string());
    map.insert("FROM_USER_ID".to_string(), "9223372036854775807".to_string());
    map.insert("TO_USER_ID".to_string(), "9223372036854775807".to_string());
    let transaction = parse_map(&map);

    assert!(transaction.is_ok());

    let valid_transaction = TransactionRecord {
        tx_id: 1000000000000001,
        tx_type: TransactionType::TRANSFER,
        from_user_id: 9223372036854775807,
        to_user_id: 9223372036854775807,
        amount: 200,
        timestamp: 1633036920000,
        status: TransactionStatus::PENDING,
        description: "Record number 2".to_string(),
    };

    assert_eq!(transaction.unwrap(), valid_transaction);
}

#[test]
fn test_parse_txt_line_wrong_int() {
    let mut map = FieldMap::new();
    map.insert("DESCRIPTION".to_string(), r#""Record number 2""#.to_string());
    map.insert("TIMESTAMP".to_string(), "abyr".to_string());
    map.insert("STATUS".to_string(), "PENDING".to_string());
    map.insert("AMOUNT".to_string(), "abyr".to_string());
    map.insert("TX_ID".to_string(), "abyr".to_string());
    map.insert("TX_TYPE".to_string(), "TRANSFER".to_string());
    map.insert("FROM_USER_ID".to_string(), "abyr".to_string());
    map.insert("TO_USER_ID".to_string(), "valg".to_string());
    let transaction = parse_map(&map);

    match transaction {
        Err(ParseError::ParseIntError(msg)) => {
            assert_eq!(msg.to_string(), "invalid digit found in string".to_string());
        }
        Err(other) => panic!("Ожидалась ParseIntError, получено: {:?}", other),
        Ok(_) => panic!("Ожидалась ошибка, но парсинг прошёл успешно"),
    }
}

#[test]
fn test_parse_txt_line_wrong_enum() {
    let mut map = FieldMap::new();
    map.insert("DESCRIPTION".to_string(), r#""Record number 2""#.to_string());
    map.insert("TIMESTAMP".to_string(), "1633036920000".to_string());
    map.insert("STATUS".to_string(), "ABYRVALG".to_string());
    map.insert("AMOUNT".to_string(), "200".to_string());
    map.insert("TX_ID".to_string(), "1000000000000001".to_string());
    map.insert("TX_TYPE".to_string(), "ABYRVALG".to_string());
    map.insert("FROM_USER_ID".to_string(), "9223372036854775807".to_string());
    map.insert("TO_USER_ID".to_string(), "9223372036854775807".to_string());
    let transaction = parse_map(&map);

    match transaction {
        Err(ParseError::ParseEnumError(msg)) => {
            assert_eq!(msg.to_string(), "Unknown TransactionType: ABYRVALG".to_string());
        }
        Err(other) => panic!("Ожидалась ParseEnumError, получено: {:?}", other),
        Ok(_) => panic!("Ожидалась ошибка, но парсинг прошёл успешно"),
    }
}

#[test]
fn parse_txt_to_transactions_success() {
    let fake_file = "\n# Record 446 (TRANSFER)\nAMOUNT: 44600\nDESCRIPTION: \"Record number 446\"\nTX_TYPE: TRANSFER\nTX_ID: 1000000000000445\nTO_USER_ID: 9173880151496138473\nTIMESTAMP: 1633063560000\nSTATUS: PENDING\nFROM_USER_ID: 9223372036854775807\n\n# Record 447 (WITHDRAWAL)\nSTATUS: SUCCESS\nTIMESTAMP: 1633063620000\nAMOUNT: 44700\nFROM_USER_ID: 6899145982714634482\nTX_ID: 1000000000000446\nTX_TYPE: WITHDRAWAL\nTO_USER_ID: 0\nDESCRIPTION: \"Record number 447\"\n\n";
    let records = parse_txt_to_transactions(fake_file.as_bytes()).unwrap();

    assert_eq!(records.len(), 2);
    assert_eq!(records[0].description, r#""Record number 446""#);
    assert_eq!(records[1].description, r#""Record number 447""#);
}

#[test]
fn parse_txt_to_transactions_wrong_line() {
    let fake_file = "\n# Record 446 (TRANSFER)\nAMOUNT: 44600\nDESCRIPTION: \"Record number 446\"\nTX_TYPE: TRANSFER\nTX_ID: 1000000000000445\nTO_USER_ID: 9173880151496138473\nTIMESTAMP: 1633063560000\nSTATUS: PENDING\n\n# Record 447 (WITHDRAWAL)\nSTATUS: SUCCESS\nTIMESTAMP: 1633063620000\nAMOUNT: 44700\nFROM_USER_ID: 6899145982714634482\nTX_ID: 1000000000000446\nTX_TYPE: WITHDRAWAL\nTO_USER_ID: 0\nDESCRIPTION: \"Record number 447\"\n\n";
    let records = parse_txt_to_transactions(fake_file.as_bytes());

    match records {
        Err(ParseError::InvalidLine) => {
            println!("Тест parse_txt_to_transactions_wrong_line прошёл успешно");
        }
        Err(other) => panic!("Ожидалась InvalidLine, получено: {:?}", other),
        Ok(_) => panic!("Ожидалась ошибка, но парсинг прошёл успешно"),
    }
}

const BLOCK: &str = "# Record 1\nTX_ID: 1\nTX_TYPE: DEPOSIT\nFROM_USER_ID: 2\nTO_USER_ID: 3\nAMOUNT: -4\nTIMESTAMP: 5\nSTATUS: FAILURE\nDESCRIPTION: a: b\n";

#[test]
fn txt_block_without_closing_line_is_dropped() {
    let records = parse_txt_to_transactions(BLOCK.as_bytes()).unwrap();
    assert!(records.is_empty());
}

#[test]
fn txt_block_value_keeps_text_after_first_separator() {
    let content = format!("{}\n", BLOCK);
    let records = parse_txt_to_transactions(content.as_bytes()).unwrap();
    assert_eq!(records.len(), 1);
    assert_eq!(records[0].amount, -4);
    assert_eq!(records[0].description, "a: b");
}

#[test]
fn txt_later_value_of_a_key_wins_and_lines_are_trimmed() {
    let content = "# r\n  TX_ID: 9  \nTX_ID: 10\nTX_TYPE: TRANSFER\nFROM_USER_ID: 2\nTO_USER_ID: 3\nAMOUNT: 4\nTIMESTAMP: 5\nSTATUS: PENDING\nDESCRIPTION: d\nno separator here\n\n";
    let records = parse_txt_to_transactions(content.as_bytes()).unwrap();
    assert_eq!(records.len(), 1);
    assert_eq!(records[0].tx_id, 10);
}

#[test]
fn txt_lines_outside_a_block_are_ignored() {
    let content = "TX_ID: 1\n\nTX_ID: 2\n\n";
    assert!(parse_txt_to_transactions(content.as_bytes()).unwrap().is_empty());
}

#[test]
fn field_map_insert_returns_previous_value() {
    let mut map = FieldMap::new();
    assert!(map.is_empty());
    assert_eq!(map.insert("K".to_string(), "1".to_string()), None);
    assert_eq!(map.insert("K".to_string(), "2".to_string()), Some("1".to_string()));
    assert_eq!(map.get("K"), Some(&"2".to_string()));
    assert_eq!(map.get("L"), None);
    assert!(!map.is_empty());
    map.clear();
    assert!(map.is_empty());
}

#[test]
fn txt_missing_description_is_invalid_line() {
    let mut map = FieldMap::new();
    map.insert("TX_ID".to_string(), "1".to_string());
    map.insert("TX_TYPE".to_string(), "DEPOSIT".to_string());
    map.insert("FROM_USER_ID".to_string(), "1".to_string());
    map.insert("TO_USER_ID".to_string(), "1".to_string());
    map.insert("AMOUNT".to_string(), "1".to_string());
    map.insert("TIMESTAMP".to_string(), "1".to_string());
    map.insert("STATUS".to_string(), "SUCCESS".to_string());
    assert!(matches!(parse_map(&map), Err(ParseError::InvalidLine)));
}

#[test]
fn txt_outside_lines_do_not_change_the_parse() {
    let plain = format!("{}\n", BLOCK);
    let with_extra = format!("TX_ID: 99\nnote\n{}\nTX_ID: 77\n", BLOCK);
    let a = parse_txt_to_transactions(plain.as_bytes()).unwrap();
    let b = parse_txt_to_transactions(with_extra.as_bytes()).unwrap();
    assert_eq!(a.len(), 1);
    assert_eq!(b.len(), 1);
    assert_eq!(a[0].tx_id, b[0].tx_id);
    assert_eq!(a[0].description, b[0].description);
}
