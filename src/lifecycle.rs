use vstd::prelude::*;

use crate::error::WalletError;
use crate::parse::{chars_of, matches_at};

verus! {

/// Where one transaction stands: strictly forward, save that an incomplete
/// finalization goes back to `Built`.
#[derive(Clone, Copy, Debug, PartialEq, Eq, Structural)]
pub enum TxStage {
    Built,
    Signed,
    Finalized,
    Broadcast,
    Confirmed,
}

/// The node's answer to a relay request.
#[derive(Clone, Copy, Debug, PartialEq, Eq, Structural)]
pub enum RelayOutcome {
    Accepted,
    AlreadyInMempool,
    AlreadyConfirmed,
    Rejected,
}

/// `pat` occurs somewhere in `s`.
pub open spec fn occurs_in(s: Seq<char>, pat: Seq<char>) -> bool {
    exists|i: int| 0 <= i && i + pat.len() <= s.len() && #[trigger] s.subrange(i, i + pat.len()) == pat
}

fn occurs(v: &Vec<char>, pat: &Vec<char>) -> (r: bool)
    ensures
        r == occurs_in(v@, pat@),
{
    if pat.len() > v.len() {
        return false;
    }
    let last = v.len() - pat.len();
    let mut i: usize = 0;
    while i <= last
        invariant
            last + pat@.len() == v@.len(),
            forall|j: int| 0 <= j < i ==> #[trigger] v@.subrange(j, j + pat@.len()) != pat@,
        decreases last + 1 - i,
    {
        if matches_at(v, i, pat) {
            return true;
        }
        if i == last {
            return false;
        }
        i = i + 1;
    }
    false
}

/// Sorts the node's answer to a relay request: accepted, or refused with `message`.
/// A refusal that says the node already holds the transaction, in its mempool
/// (`txn-already-in-mempool`) or in a block (`already in block chain`), is no refusal.
pub fn classify_relay(accepted: bool, message: &str) -> (r: RelayOutcome)
    ensures
        accepted ==> r == RelayOutcome::Accepted,
        !accepted && occurs_in(message@, "txn-already-in-mempool"@) ==> r
            == RelayOutcome::AlreadyInMempool,
        !accepted && !occurs_in(message@, "txn-already-in-mempool"@) && occurs_in(
            message@,
            "already in block chain"@,
        ) ==> r == RelayOutcome::AlreadyConfirmed,
        !accepted && !occurs_in(message@, "txn-already-in-mempool"@) && !occurs_in(
            message@,
            "already in block chain"@,
        ) ==> r == RelayOutcome::Rejected,
{
    if accepted {
        return RelayOutcome::Accepted;
    }
    let v = chars_of(message);
    let in_mempool = chars_of("txn-already-in-mempool");
    let in_chain = chars_of("already in block chain");
    if occurs(&v, &in_mempool) {
        RelayOutcome::AlreadyInMempool
    } else if occurs(&v, &in_chain) {
        RelayOutcome::AlreadyConfirmed
    } else {
        RelayOutcome::Rejected
    }
}

/// The lifecycle of one transaction with `n_inputs` inputs and id `txid` (a witness
/// transaction keeps its id through signing).
#[derive(Clone, Copy, Debug)]
pub struct TxLifecycle {
    pub stage: TxStage,
    pub n_inputs: usize,
    pub txid: [u8; 32],
}

/// Input `i` is reported signed (or complete).
pub open spec fn marked(s: Seq<bool>, i: int) -> bool {
    0 <= i < s.len() && s[i]
}

pub open spec fn all_marked(s: Seq<bool>, n: int) -> bool {
    forall|i: int| 0 <= i < n ==> marked(s, i)
}

/// `i` is the first of the `n` inputs that is not marked.
pub open spec fn first_unmarked(s: Seq<bool>, n: int, i: int) -> bool {
    &&& 0 <= i < n
    &&& !marked(s, i)
    &&& all_marked(s, i)
}

fn find_unmarked(s: &Vec<bool>, n: usize) -> (r: Option<usize>)
    ensures
        r is None <==> all_marked(s@, n as int),
        r matches Some(i) ==> first_unmarked(s@, n as int, i as int),
{
    let mut i: usize = 0;
    while i < n
        invariant
            i <= n,
            all_marked(s@, i as int),
        decreases n - i,
    {
        if i >= s.len() || !s[i] {
            assert(!marked(s@, i as int));
            return Some(i);
        }
        i = i + 1;
    }
    None
}

impl TxLifecycle {
    pub fn new(n_inputs: usize, txid: [u8; 32]) -> (r: Self)
        ensures
            r.stage == TxStage::Built,
            r.n_inputs == n_inputs,
            r.txid == txid,
    {
        TxLifecycle { stage: TxStage::Built, n_inputs, txid }
    }

    /// Records the signer's work: `verified[i]` says that input `i` got a signature
    /// that checks against its script. Every input must have one.
    pub fn record_signing(&mut self, verified: &Vec<bool>) -> (r: Result<(), WalletError>)
        requires
            old(self).stage == TxStage::Built,
        ensures
            final(self).n_inputs == old(self).n_inputs,
            final(self).txid == old(self).txid,
            r is Ok <==> all_marked(verified@, old(self).n_inputs as int),
            r is Ok ==> final(self).stage == TxStage::Signed,
            r is Err ==> final(self).stage == TxStage::Built && exists|i: usize|
                r->Err_0 == (WalletError::Signing { input: i }) && first_unmarked(
                    verified@,
                    old(self).n_inputs as int,
                    i as int,
                ),
    {
        match find_unmarked(verified, self.n_inputs) {
            Some(i) => Err(WalletError::Signing { input: i }),
            None => {
                self.stage = TxStage::Signed;
                Ok(())
            },
        }
    }

    /// Finalizes once `complete[i]` holds for every input; otherwise the transaction
    /// goes back to `Built`, to be signed again.
    pub fn finalize(&mut self, complete: &Vec<bool>) -> (r: Result<(), WalletError>)
        requires
            old(self).stage == TxStage::Signed,
        ensures
            final(self).n_inputs == old(self).n_inputs,
            final(self).txid == old(self).txid,
            r is Ok <==> all_marked(complete@, old(self).n_inputs as int),
            r is Ok ==> final(self).stage == TxStage::Finalized,
            r is Err ==> final(self).stage == TxStage::Built && exists|i: usize|
                r->Err_0 == (WalletError::IncompleteSignature { input: i }) && first_unmarked(
                    complete@,
                    old(self).n_inputs as int,
                    i as int,
                ),
    {
        match find_unmarked(complete, self.n_inputs) {
            Some(i) => {
                self.stage = TxStage::Built;
                Err(WalletError::IncompleteSignature { input: i })
            },
            None => {
                self.stage = TxStage::Finalized;
                Ok(())
            },
        }
    }

    /// Records the node's answer to a relay of the finalized bytes and gives the
    /// transaction's id. A transaction the node already holds counts as relayed, so
    /// resubmitting is harmless and gives the same id.
    pub fn record_broadcast(&mut self, outcome: RelayOutcome) -> (r: Result<[u8; 32], WalletError>)
        requires
            old(self).stage == TxStage::Finalized || old(self).stage == TxStage::Broadcast,
        ensures
            final(self).n_inputs == old(self).n_inputs,
            final(self).txid == old(self).txid,
            r is Ok <==> outcome != RelayOutcome::Rejected,
            r is Ok ==> final(self).stage == TxStage::Broadcast && r->Ok_0 == old(self).txid,
            r is Err ==> r->Err_0 == WalletError::BroadcastRejected && final(self).stage == old(
                self,
            ).stage,
    {
        match outcome {
            RelayOutcome::Rejected => Err(WalletError::BroadcastRejected),
            _ => {
                self.stage = TxStage::Broadcast;
                Ok(self.txid)
            },
        }
    }

    /// Records what a sync after the broadcast saw: confirmation comes only from there.
    pub fn record_sync(&mut self, confirmed: bool)
        requires
            old(self).stage == TxStage::Broadcast,
        ensures
            final(self).n_inputs == old(self).n_inputs,
            final(self).txid == old(self).txid,
            final(self).stage == if confirmed { TxStage::Confirmed } else { TxStage::Broadcast },
    {
        if confirmed {
            self.stage = TxStage::Confirmed;
        }
    }
}

} // verus!
