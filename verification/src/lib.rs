//! Codec for a simplified legacy transaction wire format: compact-size
//! integers, transaction decoding and encoding, and a transaction builder.

pub mod cli;
pub mod decode;
pub mod encode;
pub mod error;
pub mod laws;
pub mod point;
pub mod transaction;
pub mod wire;

pub use cli::{parse_cli_args, CliCommand};
pub use encode::BitcoinSerialize;
pub use error::BitcoinError;
pub use point::Point;
pub use transaction::{LegacyTransaction, LegacyTransactionBuilder, OutPoint, TxInput, TxOutput};
pub use wire::read_compact_size;
