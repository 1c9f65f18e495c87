//! The errors of reading input and of parsing records.

use vstd::prelude::*;
use vstd::string::StringExecFns;
use std::num::ParseIntError;
use crate::numbers::{int_error_message, int_error_text};

verus! {

/// Errors of choosing an input or output file.
#[derive(Debug)]
pub enum InputError {
    FileNotFound(String),
    InvalidName(String),
    InvalidFormat { expected: String },
}

/// Errors of parsing records.
#[derive(Debug)]
pub enum ParseError {
    InvalidLine,
    InvalidMagic,
    InvalidDescription,
    ParseIntError(ParseIntError),
    ParseEnumError(String),
}

/// What a parse error says, as a mathematical value: an integer error by
/// its message.
pub enum ParseFailure {
    InvalidLine,
    InvalidMagic,
    InvalidDescription,
    BadInt(Seq<char>),
    BadEnum(Seq<char>),
}

impl View for ParseError {
    type V = ParseFailure;

    open spec fn view(&self) -> ParseFailure {
        match self {
            ParseError::InvalidLine => ParseFailure::InvalidLine,
            ParseError::InvalidMagic => ParseFailure::InvalidMagic,
            ParseError::InvalidDescription => ParseFailure::InvalidDescription,
            ParseError::ParseIntError(e) => ParseFailure::BadInt(int_error_message(*e)),
            ParseError::ParseEnumError(s) => ParseFailure::BadEnum(s@),
        }
    }
}

impl InputError {
    /// The message that describes the error.
    pub fn message(&self) -> (res: String)
        ensures
            res@ == match self {
                InputError::FileNotFound(s) => "Не удалось прочитать файл: "@ + s@,
                InputError::InvalidName(s) => "Неверное имя файла: "@ + s@,
                InputError::InvalidFormat { expected } => "Неверное формат файла, ожидается: "@
                    + expected@,
            },
    {
        match self {
            InputError::FileNotFound(s) => {
                let mut m = "Не удалось прочитать файл: ".to_owned();
                m.append(s.as_str());
                m
            },
            InputError::InvalidName(s) => {
                let mut m = "Неверное имя файла: ".to_owned();
                m.append(s.as_str());
                m
            },
            InputError::InvalidFormat { expected } => {
                let mut m = "Неверное формат файла, ожидается: ".to_owned();
                m.append(expected.as_str());
                m
            },
        }
    }
}

impl ParseError {
    /// The message that describes the error; for an integer error it ends
    /// with that error's own message.
    pub fn message(&self) -> (res: String)
        ensures
            match self {
                ParseError::InvalidLine => res@ == "Ошибка парсинга строки"@,
                ParseError::InvalidMagic => res@ == "Ожидался MAGIC 'YPBN' в начале записи"@,
                ParseError::InvalidDescription => res@ == "Ошибка парсинга описания"@,
                ParseError::ParseIntError(e) => res@ == "Ошибка парсинга целочисленного значения: "@
                    + int_error_message(*e),
                ParseError::ParseEnumError(s) => res@ == "Ошибка парсинга перечисления: "@ + s@,
            },
    {
        match self {
            ParseError::InvalidLine => "Ошибка парсинга строки".to_owned(),
            ParseError::InvalidMagic => "Ожидался MAGIC 'YPBN' в начале записи".to_owned(),
            ParseError::InvalidDescription => "Ошибка парсинга описания".to_owned(),
            ParseError::ParseIntError(e) => {
                let t = int_error_text(e);
                let mut m = "Ошибка парсинга целочисленного значения: ".to_owned();
                m.append(t.as_str());
                m
            },
            ParseError::ParseEnumError(s) => {
                let mut m = "Ошибка парсинга перечисления: ".to_owned();
                m.append(s.as_str());
                m
            },
        }
    }
}

impl From<ParseIntError> for ParseError {
    fn from(err: ParseIntError) -> (res: ParseError) {
        ParseError::ParseIntError(err)
    }
}

impl vstd::std_specs::convert::FromSpecImpl<ParseIntError> for ParseError {
    open spec fn obeys_from_spec() -> bool {
        true
    }

    open spec fn from_spec(err: ParseIntError) -> ParseError {
        ParseError::ParseIntError(err)
    }
}

impl From<String> for ParseError {
    fn from(err: String) -> (res: ParseError) {
        ParseError::ParseEnumError(err)
    }
}

impl vstd::std_specs::convert::FromSpecImpl<String> for ParseError {
    open spec fn obeys_from_spec() -> bool {
        true
    }

    open spec fn from_spec(err: String) -> ParseError {
        ParseError::ParseEnumError(err)
    }
}

} // verus!
