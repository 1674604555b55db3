use vstd::prelude::*;

use crate::error::WalletError;
use crate::tx::{unspent, unspent_outputs, Utxo};

verus! {

/// A transaction of the wallet's history, with the height that confirmed it.
#[derive(Clone, Copy, Debug)]
pub struct TxRecord {
    pub txid: [u8; 32],
    pub height: Option<u32>,
}

/// What the node reported for the wallet's descriptors: the outputs it found
/// and the transactions that touched them.
#[derive(Debug)]
pub struct ScanReport {
    pub utxos: Vec<Utxo>,
    pub history: Vec<TxRecord>,
}

/// The wallet's local view of the chain.
#[derive(Debug)]
pub struct WalletState {
    pub utxos: Vec<Utxo>,
    pub history: Vec<TxRecord>,
}

/// The state a sync leaves: the node's unspent outputs and its history, nothing kept
/// from before.
pub open spec fn synced_utxos(report: Seq<Utxo>) -> Seq<Utxo> {
    unspent(report)
}

fn copy_history(h: &Vec<TxRecord>) -> (r: Vec<TxRecord>)
    ensures
        r@ == h@,
{
    let mut r: Vec<TxRecord> = Vec::new();
    let mut i: usize = 0;
    while i < h.len()
        invariant
            i <= h@.len(),
            r@ =~= h@.take(i as int),
        decreases h@.len() - i,
    {
        r.push(h[i]);
        i = i + 1;
    }
    assert(h@.take(i as int) =~= h@);
    r
}

/// The history holds `txid` with a confirming height.
pub open spec fn confirmed_in(history: Seq<TxRecord>, txid: Seq<u8>) -> bool {
    exists|i: int| 0 <= i < history.len() && (#[trigger] history[i]).txid@ == txid && history[i].height is Some
}

fn same_txid(a: &[u8; 32], b: &[u8; 32]) -> (r: bool)
    ensures
        r == (a@ == b@),
{
    let mut i: usize = 0;
    while i < 32
        invariant
            i <= 32,
            a@.len() == 32 && b@.len() == 32,
            forall|j: int| 0 <= j < i ==> a@[j] == b@[j],
        decreases 32 - i,
    {
        if a[i] != b[i] {
            return false;
        }
        i = i + 1;
    }
    assert(a@ =~= b@);
    true
}

impl WalletState {
    /// Whether a sync has seen `txid` confirmed.
    pub fn is_confirmed(&self, txid: &[u8; 32]) -> (r: bool)
        ensures
            r == confirmed_in(self.history@, txid@),
    {
        let mut i: usize = 0;
        while i < self.history.len()
            invariant
                i <= self.history@.len(),
                forall|j: int|
                    0 <= j < i ==> !((#[trigger] self.history@[j]).txid@ == txid@
                        && self.history@[j].height is Some),
            decreases self.history@.len() - i,
        {
            let rec = self.history[i];
            if rec.height.is_some() && same_txid(&rec.txid, txid) {
                return true;
            }
            i = i + 1;
        }
        false
    }

    pub fn new() -> (r: Self)
        ensures
            r.utxos@.len() == 0,
            r.history@.len() == 0,
    {
        WalletState { utxos: Vec::new(), history: Vec::new() }
    }

    /// Reconciles the local view with a scan. With no report (the node could not be
    /// reached) the state is left as it was and the sync fails; with one, the node's
    /// view replaces the local one whole.
    pub fn sync(&mut self, report: Option<&ScanReport>) -> (r: Result<(), WalletError>)
        ensures
            r is Ok <==> report is Some,
            r is Err ==> r->Err_0 == WalletError::Sync && final(self).utxos@ == old(self).utxos@
                && final(self).history@ == old(self).history@,
            report matches Some(s) ==> final(self).utxos@ == synced_utxos(s.utxos@)
                && final(self).history@ == s.history@,
    {
        match report {
            None => Err(WalletError::Sync),
            Some(s) => {
                let utxos = unspent_outputs(&s.utxos);
                let history = copy_history(&s.history);
                self.utxos = utxos;
                self.history = history;
                Ok(())
            },
        }
    }
}

/// Syncing twice against an unchanged chain leaves what syncing once left.
pub proof fn sync_idempotent(report: Seq<Utxo>)
    ensures
        synced_utxos(synced_utxos(report)) == synced_utxos(report),
{
    lemma_unspent_of_unspent(report);
}

proof fn lemma_unspent_of_unspent(s: Seq<Utxo>)
    ensures
        unspent(unspent(s)) == unspent(s),
    decreases s.len(),
{
    if s.len() > 0 {
        lemma_unspent_of_unspent(s.drop_last());
        if !s.last().spent {
            let u = unspent(s.drop_last()).push(s.last());
            assert(u.drop_last() =~= unspent(s.drop_last()));
        }
    }
}

} // verus!
