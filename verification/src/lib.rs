//! Reading and writing bank transactions in a text, a CSV and a binary
//! format.

use vstd::prelude::*;

pub mod bin_format;
pub mod compare;
pub mod csv_format;
pub mod errors;
pub mod fields;
pub mod files;
pub mod numbers;
pub mod record;
pub mod text;
pub mod txt_format;

pub use errors::{InputError, ParseError};
pub use files::{FileFormat, Parser};
pub use record::{TransactionRecord, TransactionStatus, TransactionType};

verus! {

} // verus!
