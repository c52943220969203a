//! A byte-exact codec for a small part of the Bitcoin transaction wire
//! format: compact sizes, transaction identifiers, outpoints, scripts,
//! transaction inputs and whole transactions.
//!
//! Every decoder is lenient about trailing bytes: it reads what it needs
//! from the front of the slice, reports how many bytes it consumed and
//! ignores the rest.

pub mod buf;
pub mod compact_size;
pub mod error;
pub mod hex_text;
pub mod input;
pub mod le;
pub mod outpoint;
pub mod render;
pub mod script;
pub mod transaction;
pub mod txid;

pub use compact_size::CompactSize;
pub use error::BitcoinError;
pub use input::TransactionInput;
pub use outpoint::OutPoint;
pub use script::Script;
pub use transaction::BitcoinTransaction;
pub use txid::Txid;
