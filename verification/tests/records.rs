use parser::compare::compare_vecs;
use parser::{
    FileFormat, InputError, ParseError, Parser, TransactionRecord, TransactionStatus,
    TransactionType,
};
use std::str::FromStr;

#[test]
fn test_transaction_record_partial_eq_trait() {
    let tr = TransactionRecord {
        tx_id: 0,
        tx_type: TransactionType::DEPOSIT,
        from_user_id: 0,
        to_user_id: 0,
        amount: 0,
        timestamp: 0,
        status: TransactionStatus::PENDING,
        description: "".to_string(),
    };
    let tr1 = TransactionRecord {
        tx_id: 0,
        tx_type: TransactionType::WITHDRAWAL,
        from_user_id: 12,
        to_user_id: 15,
        amount: 626,
        timestamp: 3435,
        status: TransactionStatus::SUCCESS,
        description: "".to_string(),
    };
    assert_eq!(tr, tr1);
}

fn record(tx_id: u64, amount: i64) -> TransactionRecord {
    TransactionRecord {
        tx_id,
        tx_type: TransactionType::DEPOSIT,
        from_user_id: 1,
        to_user_id: 2,
        amount,
        timestamp: 3,
        status: TransactionStatus::SUCCESS,
        description: "d".to_string(),
    }
}

#[test]
fn records_with_other_ids_differ() {
    assert_ne!(record(1, 5), record(2, 5));
}

#[test]
fn names_read_back() {
    for t in [TransactionType::DEPOSIT, TransactionType::WITHDRAWAL, TransactionType::TRANSFER] {
        assert_eq!(TransactionType::from_str(t.as_str()), Ok(t));
        assert_eq!(TransactionType::from_code(t.code()), Some(t));
    }
    for s in [TransactionStatus::SUCCESS, TransactionStatus::FAILURE, TransactionStatus::PENDING] {
        assert_eq!(TransactionStatus::from_str(s.as_str()), Ok(s));
        assert_eq!(TransactionStatus::from_code(s.code()), Some(s));
    }
    assert_eq!(TransactionType::from_str("deposit"), Err("Unknown TransactionType: deposit".to_string()));
    assert_eq!(TransactionStatus::parse_name(""), Err("Unknown TransactionStatus: ".to_string()));
    assert_eq!(TransactionType::from_code(3), None);
}

#[test]
fn compare_vecs_finds_records_missing_on_each_side() {
    let left = vec![record(1, 10), record(2, 20), record(2, 20), record(3, 30)];
    let right = vec![record(1, 10), record(2, 21), record(4, 40)];
    let [left_ids, right_ids] = compare_vecs(&left, &right);
    assert_eq!(left_ids.into_iter().collect::<Vec<_>>(), vec![2, 3]);
    assert_eq!(right_ids.into_iter().collect::<Vec<_>>(), vec![2, 4]);
}

#[test]
fn compare_vecs_of_equal_lists_is_empty() {
    let left = vec![record(1, 10), record(2, 20)];
    let right = vec![record(2, 20), record(1, 10)];
    let [l, r] = compare_vecs(&left, &right);
    assert!(l.is_empty() && r.is_empty());
}

#[test]
fn file_format_follows_the_first_dot() {
    let p = Parser::new();
    assert_eq!(p.file_format("records.txt").unwrap(), FileFormat::Txt);
    assert_eq!(p.file_format("records.csv").unwrap(), FileFormat::Csv);
    assert_eq!(p.file_format(".bin").unwrap(), FileFormat::Bin);
    match p.file_format("records.old.csv") {
        Err(InputError::InvalidFormat { expected }) => assert_eq!(expected, "txt, csv, bin"),
        other => panic!("{:?}", other),
    }
    match p.file_format("records") {
        Err(InputError::InvalidName(n)) => assert_eq!(n, "records"),
        other => panic!("{:?}", other),
    }
}

#[test]
fn content_is_written_as_csv_for_every_format() {
    let p = Parser::new();
    let a = p.content_for(FileFormat::Bin, vec![record(1, 2)]);
    let b = p.content_for(FileFormat::Csv, vec![record(1, 2)]);
    assert_eq!(a, b);
    assert_eq!(String::from_utf8(a).unwrap(), "1,DEPOSIT,1,2,2,3,SUCCESS,d\n");
    let parsed = p.parse_content(FileFormat::Csv, &b).unwrap();
    assert_eq!(parsed[0].amount, 2);
    assert!(p.parse_content(FileFormat::Txt, &b).unwrap().is_empty());
}

#[test]
fn error_messages() {
    assert_eq!(ParseError::InvalidLine.message(), "Ошибка парсинга строки");
    assert_eq!(ParseError::ParseEnumError("x".to_string()).message(), "Ошибка парсинга перечисления: x");
    let e = "a".parse::<u64>().unwrap_err();
    assert_eq!(ParseError::ParseIntError(e).message(), "Ошибка парсинга целочисленного значения: invalid digit found in string");
    assert_eq!(InputError::InvalidName("f".to_string()).message(), "Неверное имя файла: f");
    assert_eq!(
        InputError::InvalidFormat { expected: "txt, csv, bin".to_string() }.message(),
        "Неверное формат файла, ожидается: txt, csv, bin"
    );
}

#[test]
fn errors_convert_from_their_causes() {
    let e = "".parse::<u64>().unwrap_err();
    assert!(matches!(ParseError::from(e), ParseError::ParseIntError(_)));
    assert!(matches!(ParseError::from("m".to_string()), ParseError::ParseEnumError(_)));
}

#[test]
fn file_not_found_message_names_the_file() {
    assert_eq!(
        InputError::FileNotFound("x.csv".to_string()).message(),
        "Не удалось прочитать файл: x.csv"
    );
}

#[test]
fn byte_text_is_decimal() {
    assert_eq!(parser::numbers::byte_to_string(0), "0");
    assert_eq!(parser::numbers::byte_to_string(42), "42");
    assert_eq!(parser::numbers::byte_to_string(255), "255");
}

#[test]
fn split_lines_follows_line_reading() {
    let lines = parser::text::split_lines(b"a\r\nb\rc\n\nlast\r");
    assert_eq!(lines, vec!["a".to_string(), "b\rc".to_string(), "".to_string(), "last\r".to_string()]);
    assert!(parser::text::split_lines(b"").is_empty());
    assert_eq!(parser::text::split_lines(b"x\n"), vec!["x".to_string()]);
}
