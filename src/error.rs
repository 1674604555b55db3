use vstd::prelude::*;

verus! {

/// The two chains of a wallet.
#[derive(Clone, Copy, Debug, PartialEq, Eq, Structural)]
pub enum Chain {
    Receive,
    Change,
}

/// Every failure the wallet core reports, with the context an operator needs.
#[derive(Clone, Copy, Debug, PartialEq, Eq, Structural)]
pub enum WalletError {
    Entropy,
    InvalidMnemonic,
    Derivation { chain: Option<Chain> },
    Storage,
    Sync,
    InsufficientFunds,
    Signing { input: usize },
    IncompleteSignature { input: usize },
    BroadcastRejected,
}

} // verus!
