//! Choosing a format by a file's name, and reading and writing content in it.

use vstd::prelude::*;
use vstd::utf8::encode_utf8;
use crate::bin_format::{
    bin_bytes, law_bin_roundtrip, parse_bin_to_transaction, reads_back, spec_parse_bin,
};
use crate::csv_format::{csv_records, csv_text, parse_csv_to_transactions, write_csv};
use crate::errors::{InputError, ParseError, ParseFailure};
use crate::fields::records_result_view;
use crate::record::{RecordView, TransactionRecord};
use crate::text::{first_index_of, lemma_first_index_of, same_text, str_chars, substring, text_lines};
use crate::txt_format::{parse_txt_to_transactions, txt_records};

verus! {

/// The formats that files are read in.
#[derive(Debug, Clone, Copy, PartialEq, Eq, Structural)]
pub enum FileFormat {
    Txt,
    Csv,
    Bin,
}

/// Reads and writes transactions in the format that a file's name gives.
pub struct Parser {}

/// The text after the first `.` of a file name, if it has one.
pub open spec fn extension(name: Seq<char>) -> Option<Seq<char>> {
    let k = first_index_of(name, '.', 0);
    if 0 <= k < name.len() {
        Some(name.skip(k + 1))
    } else {
        None
    }
}

/// The format an extension names.
pub open spec fn format_of_extension(ext: Seq<char>) -> Option<FileFormat> {
    if ext == "txt"@ {
        Some(FileFormat::Txt)
    } else if ext == "csv"@ {
        Some(FileFormat::Csv)
    } else if ext == "bin"@ {
        Some(FileFormat::Bin)
    } else {
        None
    }
}

/// What reading content in a format gives.
pub open spec fn spec_parse_content(format: FileFormat, content: Seq<u8>) -> Result<
    Seq<RecordView>,
    ParseFailure,
> {
    match format {
        FileFormat::Txt => txt_records(text_lines(content)),
        FileFormat::Csv => csv_records(text_lines(content)),
        FileFormat::Bin => spec_parse_bin(content),
    }
}

impl Parser {
    pub fn new() -> (p: Parser) {
        Parser {  }
    }

    /// The format of a file: its name must hold a `.`, and the text after
    /// the first one must be `txt`, `csv` or `bin`.
    pub fn file_format(&self, file_name: &str) -> (res: Result<FileFormat, InputError>)
        ensures
            match res {
                Ok(f) => extension(file_name@) matches Some(e) && format_of_extension(e) == Some(
                    f,
                ),
                Err(InputError::InvalidName(n)) => extension(file_name@) is None && n@
                    == file_name@,
                Err(InputError::InvalidFormat { expected }) => extension(file_name@) matches Some(
                    e,
                ) && format_of_extension(e) is None && expected@ == "txt, csv, bin"@,
                Err(InputError::FileNotFound(_)) => false,
            },
    {
        let cs = str_chars(file_name);
        let n = cs.len();
        let mut k: usize = 0;
        while k < n && cs[k] != '.'
            invariant
                n == cs@.len(),
                cs@ == file_name@,
                k <= n,
                forall|m: int| 0 <= m < k ==> cs@[m] != '.',
            decreases n - k,
        {
            k = k + 1;
        }
        proof {
            lemma_first_index_of(file_name@, '.', 0, k as int);
        }
        if k == n {
            return Err(InputError::InvalidName(file_name.to_owned()));
        }
        let ext = substring(file_name, k + 1, n);
        assert(ext@ == file_name@.skip(k + 1));
        if same_text(ext.as_str(), "txt") {
            Ok(FileFormat::Txt)
        } else if same_text(ext.as_str(), "csv") {
            Ok(FileFormat::Csv)
        } else if same_text(ext.as_str(), "bin") {
            Ok(FileFormat::Bin)
        } else {
            Err(InputError::InvalidFormat { expected: "txt, csv, bin".to_owned() })
        }
    }

    /// Reads transactions from content in a format.
    pub fn parse_content(&self, format: FileFormat, content: &[u8]) -> (res: Result<
        Vec<TransactionRecord>,
        ParseError,
    >)
        ensures
            records_result_view(res) == spec_parse_content(format, content@),
    {
        match format {
            FileFormat::Txt => parse_txt_to_transactions(content),
            FileFormat::Csv => parse_csv_to_transactions(content),
            FileFormat::Bin => parse_bin_to_transaction(content),
        }
    }

    /// The content written for transactions: CSV text, whatever the format
    /// of the file.
    pub fn content_for(&self, format: FileFormat, transactions: Vec<TransactionRecord>) -> (out:
        Vec<u8>)
        ensures
            out@ == encode_utf8(csv_text(transactions@.map_values(|r: TransactionRecord| r@))),
    {
        write_csv(transactions)
    }
}

/// A file whose name ends in `.bin` (its first `.` starting that ending) is
/// read by the binary reader: the bytes written for records that read back
/// in the binary format give those records again.
pub proof fn law_bin_file_reads_back(name: Seq<char>, rs: Seq<RecordView>)
    requires
        extension(name) == Some("bin"@),
        forall|i: int| 0 <= i < rs.len() ==> #[trigger] reads_back(rs[i]),
    ensures
        format_of_extension("bin"@) == Some(FileFormat::Bin),
        spec_parse_content(FileFormat::Bin, bin_bytes(rs)) == Ok::<Seq<RecordView>, ParseFailure>(rs),
{
    reveal_strlit("bin");
    reveal_strlit("txt");
    reveal_strlit("csv");
    assert("bin"@ != "txt"@) by {
        assert("bin"@[0] != "txt"@[0]);
    }
    assert("bin"@ != "csv"@) by {
        assert("bin"@[0] != "csv"@[0]);
    }
    law_bin_roundtrip(rs);
}

} // verus!
