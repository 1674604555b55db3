//! An HD wallet core: descriptors derived from a mnemonic, transaction
//! planning with change and dust policy, UTXO reconciliation against a node's
//! view, and the lifecycle of one transaction.
pub mod error;
pub mod keys;
pub mod lifecycle;
pub mod parse;
pub mod sync;
pub mod text;
pub mod tx;

pub use error::{Chain, WalletError};
pub use keys::{
    chain_descriptor_of_root, chain_path_steps, descriptors_from_mnemonic, encode_descriptor,
    get_descriptors, raw_steps, wallet_namespace, Network,
};
pub use lifecycle::{classify_relay, RelayOutcome, TxLifecycle, TxStage};
pub use parse::{parse_descriptor, DescriptorParts};
pub use sync::{ScanReport, TxRecord, WalletState};
pub use text::{hex_digit, path_text, ChildStep};
pub use tx::{balance, build_tx, unspent_outputs, Recipient, TxPlan, Utxo};
