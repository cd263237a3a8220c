//! The errors that the codec and the command-line helper report.

use vstd::prelude::*;
use vstd::string::*;

verus! {

/// What can go wrong while handling a transaction or a command line.
#[derive(Debug, Clone)]
pub enum BitcoinError {
    /// The bytes do not form a transaction: too short, a field runs past
    /// the end, or the fields do not end where the lock time begins.
    InvalidTransaction,
    /// A script is malformed.
    InvalidScript,
    /// An amount is not a decimal number that fits in 64 bits.
    InvalidAmount,
    /// Another failure, described by the text.
    ParseError(String),
}

/// What a `BitcoinError` stands for: the same kinds, the text by its
/// characters.
pub enum BitcoinErrorView {
    InvalidTransaction,
    InvalidScript,
    InvalidAmount,
    ParseError(Seq<char>),
}

impl View for BitcoinError {
    type V = BitcoinErrorView;

    open spec fn view(&self) -> BitcoinErrorView {
        match self {
            BitcoinError::InvalidTransaction => BitcoinErrorView::InvalidTransaction,
            BitcoinError::InvalidScript => BitcoinErrorView::InvalidScript,
            BitcoinError::InvalidAmount => BitcoinErrorView::InvalidAmount,
            BitcoinError::ParseError(detail) => BitcoinErrorView::ParseError(detail@),
        }
    }
}

impl BitcoinError {
    /// The text shown for this error, as a sequence of characters.
    pub open spec fn message_spec(self) -> Seq<char> {
        match self {
            BitcoinError::InvalidTransaction => "Invalid transaction format"@,
            BitcoinError::InvalidScript => "Invalid script format"@,
            BitcoinError::InvalidAmount => "Invalid amount"@,
            BitcoinError::ParseError(detail) => "Parse error: "@ + detail@,
        }
    }

    /// Renders the error as text.
    pub fn message(&self) -> (text: String)
        ensures
            text@ == self.message_spec(),
    {
        match self {
            BitcoinError::InvalidTransaction => "Invalid transaction format".to_owned(),
            BitcoinError::InvalidScript => "Invalid script format".to_owned(),
            BitcoinError::InvalidAmount => "Invalid amount".to_owned(),
            BitcoinError::ParseError(detail) => {
                "Parse error: ".to_owned().concat(detail.as_str())
            },
        }
    }
}

} // verus!
