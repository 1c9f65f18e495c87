//! The transaction record and its two enumerations.

use vstd::prelude::*;
use vstd::string::StringExecFns;
use crate::text::same_text;

verus! {

/// The kind of a transaction.
#[derive(Debug, Clone, Copy, PartialEq, Eq, Structural, Hash, PartialOrd, Ord)]
pub enum TransactionType {
    DEPOSIT,
    WITHDRAWAL,
    TRANSFER,
}

/// The final state of a transaction.
#[derive(Debug, Clone, Copy, PartialEq, Eq, Structural, Hash, PartialOrd, Ord)]
pub enum TransactionStatus {
    SUCCESS,
    FAILURE,
    PENDING,
}

/// One transaction.
#[derive(Debug, Clone, Hash, PartialOrd, Ord)]
pub struct TransactionRecord {
    pub tx_id: u64,
    pub tx_type: TransactionType,
    pub from_user_id: u64,
    pub to_user_id: u64,
    pub amount: i64,
    pub timestamp: u64,
    pub status: TransactionStatus,
    pub description: String,
}

/// The mathematical value of a transaction: its fields, the description as
/// its characters.
pub struct RecordView {
    pub tx_id: u64,
    pub tx_type: TransactionType,
    pub from_user_id: u64,
    pub to_user_id: u64,
    pub amount: i64,
    pub timestamp: u64,
    pub status: TransactionStatus,
    pub description: Seq<char>,
}

impl View for TransactionRecord {
    type V = RecordView;

    open spec fn view(&self) -> RecordView {
        RecordView {
            tx_id: self.tx_id,
            tx_type: self.tx_type,
            from_user_id: self.from_user_id,
            to_user_id: self.to_user_id,
            amount: self.amount,
            timestamp: self.timestamp,
            status: self.status,
            description: self.description@,
        }
    }
}

/// Two records are equal when their identifiers are.
impl PartialEq for TransactionRecord {
    fn eq(&self, other: &Self) -> (res: bool) {
        self.tx_id == other.tx_id
    }
}

impl vstd::std_specs::cmp::PartialEqSpecImpl for TransactionRecord {
    open spec fn obeys_eq_spec() -> bool {
        true
    }

    open spec fn eq_spec(&self, other: &Self) -> bool {
        self.tx_id == other.tx_id
    }
}

impl Eq for TransactionRecord {
}

impl TransactionType {
    /// The byte that stands for this kind in the binary format.
    pub open spec fn spec_code(self) -> u8 {
        match self {
            TransactionType::DEPOSIT => 0,
            TransactionType::WITHDRAWAL => 1,
            TransactionType::TRANSFER => 2,
        }
    }

    /// The kind that a byte of the binary format stands for.
    pub open spec fn spec_from_code(b: u8) -> Option<TransactionType> {
        if b == 0 {
            Some(TransactionType::DEPOSIT)
        } else if b == 1 {
            Some(TransactionType::WITHDRAWAL)
        } else if b == 2 {
            Some(TransactionType::TRANSFER)
        } else {
            None
        }
    }

    /// The name of the kind in the text formats.
    pub open spec fn spec_name(self) -> Seq<char> {
        match self {
            TransactionType::DEPOSIT => "DEPOSIT"@,
            TransactionType::WITHDRAWAL => "WITHDRAWAL"@,
            TransactionType::TRANSFER => "TRANSFER"@,
        }
    }

    /// The kind that a name stands for.
    pub open spec fn spec_from_name(s: Seq<char>) -> Option<TransactionType> {
        if s == "DEPOSIT"@ {
            Some(TransactionType::DEPOSIT)
        } else if s == "WITHDRAWAL"@ {
            Some(TransactionType::WITHDRAWAL)
        } else if s == "TRANSFER"@ {
            Some(TransactionType::TRANSFER)
        } else {
            None
        }
    }

    pub fn code(&self) -> (b: u8)
        ensures
            b == self.spec_code(),
    {
        match self {
            TransactionType::DEPOSIT => 0,
            TransactionType::WITHDRAWAL => 1,
            TransactionType::TRANSFER => 2,
        }
    }

    pub fn from_code(b: u8) -> (res: Option<TransactionType>)
        ensures
            res == Self::spec_from_code(b),
    {
        if b == 0 {
            Some(TransactionType::DEPOSIT)
        } else if b == 1 {
            Some(TransactionType::WITHDRAWAL)
        } else if b == 2 {
            Some(TransactionType::TRANSFER)
        } else {
            None
        }
    }

    pub fn as_str(&self) -> (s: &'static str)
        ensures
            s@ == self.spec_name(),
    {
        match self {
            TransactionType::DEPOSIT => "DEPOSIT",
            TransactionType::WITHDRAWAL => "WITHDRAWAL",
            TransactionType::TRANSFER => "TRANSFER",
        }
    }

    /// Reads a kind from its name; any other text is refused with a message
    /// that names it.
    pub fn parse_name(s: &str) -> (res: Result<TransactionType, String>)
        ensures
            match res {
                Ok(t) => Self::spec_from_name(s@) == Some(t),
                Err(m) => Self::spec_from_name(s@) is None && m@ == "Unknown TransactionType: "@
                    + s@,
            },
    {
        if same_text(s, "DEPOSIT") {
            Ok(TransactionType::DEPOSIT)
        } else if same_text(s, "WITHDRAWAL") {
            Ok(TransactionType::WITHDRAWAL)
        } else if same_text(s, "TRANSFER") {
            Ok(TransactionType::TRANSFER)
        } else {
            let mut m = "Unknown TransactionType: ".to_owned();
            m.append(s);
            Err(m)
        }
    }
}

impl TransactionStatus {
    /// The byte that stands for this state in the binary format.
    pub open spec fn spec_code(self) -> u8 {
        match self {
            TransactionStatus::SUCCESS => 0,
            TransactionStatus::FAILURE => 1,
            TransactionStatus::PENDING => 2,
        }
    }

    /// The state that a byte of the binary format stands for.
    pub open spec fn spec_from_code(b: u8) -> Option<TransactionStatus> {
        if b == 0 {
            Some(TransactionStatus::SUCCESS)
        } else if b == 1 {
            Some(TransactionStatus::FAILURE)
        } else if b == 2 {
            Some(TransactionStatus::PENDING)
        } else {
            None
        }
    }

    /// The name of the state in the text formats.
    pub open spec fn spec_name(self) -> Seq<char> {
        match self {
            TransactionStatus::SUCCESS => "SUCCESS"@,
            TransactionStatus::FAILURE => "FAILURE"@,
            TransactionStatus::PENDING => "PENDING"@,
        }
    }

    /// The state that a name stands for.
    pub open spec fn spec_from_name(s: Seq<char>) -> Option<TransactionStatus> {
        if s == "SUCCESS"@ {
            Some(TransactionStatus::SUCCESS)
        } else if s == "FAILURE"@ {
            Some(TransactionStatus::FAILURE)
        } else if s == "PENDING"@ {
            Some(TransactionStatus::PENDING)
        } else {
            None
        }
    }

    pub fn code(&self) -> (b: u8)
        ensures
            b == self.spec_code(),
    {
        match self {
            TransactionStatus::SUCCESS => 0,
            TransactionStatus::FAILURE => 1,
            TransactionStatus::PENDING => 2,
        }
    }

    pub fn from_code(b: u8) -> (res: Option<TransactionStatus>)
        ensures
            res == Self::spec_from_code(b),
    {
        if b == 0 {
            Some(TransactionStatus::SUCCESS)
        } else if b == 1 {
            Some(TransactionStatus::FAILURE)
        } else if b == 2 {
            Some(TransactionStatus::PENDING)
        } else {
            None
        }
    }

    pub fn as_str(&self) -> (s: &'static str)
        ensures
            s@ == self.spec_name(),
    {
        match self {
            TransactionStatus::SUCCESS => "SUCCESS",
            TransactionStatus::FAILURE => "FAILURE",
            TransactionStatus::PENDING => "PENDING",
        }
    }

    /// Reads a state from its name; any other text is refused with a message
    /// that names it.
    pub fn parse_name(s: &str) -> (res: Result<TransactionStatus, String>)
        ensures
            match res {
                Ok(t) => Self::spec_from_name(s@) == Some(t),
                Err(m) => Self::spec_from_name(s@) is None && m@ == "Unknown TransactionStatus: "@
                    + s@,
            },
    {
        if same_text(s, "SUCCESS") {
            Ok(TransactionStatus::SUCCESS)
        } else if same_text(s, "FAILURE") {
            Ok(TransactionStatus::FAILURE)
        } else if same_text(s, "PENDING") {
            Ok(TransactionStatus::PENDING)
        } else {
            let mut m = "Unknown TransactionStatus: ".to_owned();
            m.append(s);
            Err(m)
        }
    }
}

impl core::str::FromStr for TransactionType {
    type Err = String;

    fn from_str(s: &str) -> (res: Result<Self, Self::Err>)
        ensures
            match res {
                Ok(t) => Self::spec_from_name(s@) == Some(t),
                Err(m) => Self::spec_from_name(s@) is None && m@ == "Unknown TransactionType: "@
                    + s@,
            },
    {
        Self::parse_name(s)
    }
}

impl core::str::FromStr for TransactionStatus {
    type Err = String;

    fn from_str(s: &str) -> (res: Result<Self, Self::Err>)
        ensures
            match res {
                Ok(t) => Self::spec_from_name(s@) == Some(t),
                Err(m) => Self::spec_from_name(s@) is None && m@ == "Unknown TransactionStatus: "@
                    + s@,
            },
    {
        Self::parse_name(s)
    }
}

/// The binary format's kind codes: `DEPOSIT` is 0, `WITHDRAWAL` 1 and
/// `TRANSFER` 2; each kind reads back from its code, and no other byte
/// stands for a kind.
pub proof fn law_type_codes()
    ensures
        TransactionType::DEPOSIT.spec_code() == 0,
        TransactionType::WITHDRAWAL.spec_code() == 1,
        TransactionType::TRANSFER.spec_code() == 2,
        forall|t: TransactionType| TransactionType::spec_from_code(#[trigger] t.spec_code()) == Some(t),
        forall|b: u8| b > 2 ==> (#[trigger] TransactionType::spec_from_code(b)) is None,
{
}

/// The binary format's state codes: `SUCCESS` is 0, `FAILURE` 1 and
/// `PENDING` 2; each state reads back from its code, and no other byte
/// stands for a state.
pub proof fn law_status_codes()
    ensures
        TransactionStatus::SUCCESS.spec_code() == 0,
        TransactionStatus::FAILURE.spec_code() == 1,
        TransactionStatus::PENDING.spec_code() == 2,
        TransactionStatus::spec_from_code(0) == Some(TransactionStatus::SUCCESS),
        TransactionStatus::spec_from_code(1) == Some(TransactionStatus::FAILURE),
        TransactionStatus::spec_from_code(2) == Some(TransactionStatus::PENDING),
        forall|t: TransactionStatus| TransactionStatus::spec_from_code(#[trigger] t.spec_code()) == Some(t),
        forall|b: u8| b > 2 ==> (#[trigger] TransactionStatus::spec_from_code(b)) is None,
{
}

} // verus!
