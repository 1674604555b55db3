use vstd::prelude::*;

use crate::error::{Chain, WalletError};

verus! {

/// An output this wallet can spend, as the last sync saw it.
#[derive(Clone, Copy, Debug)]
pub struct Utxo {
    pub txid: [u8; 32],
    pub vout: u32,
    pub value: u64,
    pub chain: Chain,
    pub spent: bool,
}

/// A payment: a destination script and the amount it receives.
#[derive(Debug)]
pub struct Recipient {
    pub script: Vec<u8>,
    pub amount: u64,
}

/// An unsigned transaction: the outputs it spends, the payments it makes, the change
/// paid back to the change chain (if any) and the fee.
#[derive(Debug)]
pub struct TxPlan {
    pub inputs: Vec<Utxo>,
    pub recipients: Vec<Recipient>,
    pub change: Option<u64>,
    pub fee: u128,
}

pub open spec fn unspent(s: Seq<Utxo>) -> Seq<Utxo>
    decreases s.len(),
{
    if s.len() == 0 {
        seq![]
    } else if s.last().spent {
        unspent(s.drop_last())
    } else {
        unspent(s.drop_last()).push(s.last())
    }
}

pub open spec fn sum_values(s: Seq<Utxo>) -> int
    decreases s.len(),
{
    if s.len() == 0 {
        0
    } else {
        sum_values(s.drop_last()) + s.last().value
    }
}

pub open spec fn sum_amounts(s: Seq<Recipient>) -> int
    decreases s.len(),
{
    if s.len() == 0 {
        0
    } else {
        sum_amounts(s.drop_last()) + s.last().amount
    }
}

/// What the inputs must cover: the payments and the fee.
pub open spec fn target(recipients: Seq<Recipient>, fee: u64) -> int {
    sum_amounts(recipients) + fee
}

/// `k` outputs of `avail` are the shortest prefix whose value reaches `goal`.
pub open spec fn shortest_cover(avail: Seq<Utxo>, k: int, goal: int) -> bool {
    &&& 0 <= k <= avail.len()
    &&& sum_values(avail.take(k)) >= goal
    &&& forall|j: int| 0 <= j < k ==> sum_values(#[trigger] avail.take(j)) < goal
}

pub open spec fn change_value(c: Option<u64>) -> int {
    match c {
        Some(v) => v as int,
        None => 0,
    }
}

/// What goes in leaves as payments, change and fee, exactly.
pub open spec fn conserves(p: TxPlan) -> bool {
    sum_values(p.inputs@) == sum_amounts(p.recipients@) + change_value(p.change) + p.fee
}

/// `n` amounts of at most `u64::MAX` each stay within `u64::MAX` squared.
pub proof fn lemma_count_times_amount(n: int)
    requires
        0 <= n <= 0xffff_ffff_ffff_ffff,
    ensures
        n * 0xffff_ffff_ffff_ffffint <= 0xffff_ffff_ffff_ffff * 0xffff_ffff_ffff_ffffint,
{
    assert(n * 0xffff_ffff_ffff_ffffint <= 0xffff_ffff_ffff_ffff * 0xffff_ffff_ffff_ffffint)
        by (nonlinear_arith)
        requires n <= 0xffff_ffff_ffff_ffffint;
}

pub proof fn lemma_sum_values_bound(s: Seq<Utxo>)
    ensures
        0 <= sum_values(s) <= s.len() * 0xffff_ffff_ffff_ffff,
    decreases s.len(),
{
    if s.len() > 0 {
        lemma_sum_values_bound(s.drop_last());
    }
}

pub proof fn lemma_sum_amounts_bound(s: Seq<Recipient>)
    ensures
        0 <= sum_amounts(s) <= s.len() * 0xffff_ffff_ffff_ffff,
    decreases s.len(),
{
    if s.len() > 0 {
        lemma_sum_amounts_bound(s.drop_last());
    }
}

pub proof fn lemma_prefix_sum_le(s: Seq<Utxo>, k: int)
    requires
        0 <= k <= s.len(),
    ensures
        sum_values(s.take(k)) <= sum_values(s),
    decreases s.len(),
{
    if k < s.len() {
        assert(s.drop_last().take(k) =~= s.take(k));
        lemma_prefix_sum_le(s.drop_last(), k);
    } else {
        assert(s.take(k) =~= s);
    }
}

/// The outputs of the snapshot that are not spent, in snapshot order.
pub fn unspent_outputs(utxos: &Vec<Utxo>) -> (r: Vec<Utxo>)
    ensures
        r@ == unspent(utxos@),
{
    let mut r: Vec<Utxo> = Vec::new();
    let mut i: usize = 0;
    while i < utxos.len()
        invariant
            i <= utxos@.len(),
            r@ == unspent(utxos@.take(i as int)),
        decreases utxos@.len() - i,
    {
        let u = utxos[i];
        assert(utxos@.take(i + 1).drop_last() =~= utxos@.take(i as int));
        if !u.spent {
            r.push(u);
        }
        i = i + 1;
    }
    assert(utxos@.take(i as int) =~= utxos@);
    r
}

/// The value of the outputs of the snapshot that are not spent.
pub fn balance(utxos: &Vec<Utxo>) -> (r: u128)
    ensures
        r == sum_values(unspent(utxos@)),
{
    let avail = unspent_outputs(utxos);
    let mut total: u128 = 0;
    let mut i: usize = 0;
    while i < avail.len()
        invariant
            i <= avail@.len(),
            total == sum_values(avail@.take(i as int)),
        decreases avail@.len() - i,
    {
        assert(avail@.take(i + 1).drop_last() =~= avail@.take(i as int));
        proof {
            lemma_sum_values_bound(avail@.take(i as int));
            lemma_count_times_amount(i as int);
        }
        total = total + avail[i].value as u128;
        i = i + 1;
    }
    assert(avail@.take(i as int) =~= avail@);
    total
}

fn total_amount(recipients: &Vec<Recipient>) -> (r: u128)
    ensures
        r == sum_amounts(recipients@),
        r <= 0xffff_ffff_ffff_ffff * 0xffff_ffff_ffff_ffffint,
{
    let mut total: u128 = 0;
    let mut i: usize = 0;
    while i < recipients.len()
        invariant
            i <= recipients@.len(),
            total == sum_amounts(recipients@.take(i as int)),
        decreases recipients@.len() - i,
    {
        assert(recipients@.take(i + 1).drop_last() =~= recipients@.take(i as int));
        proof {
            lemma_sum_amounts_bound(recipients@.take(i as int));
            lemma_count_times_amount(i as int);
        }
        total = total + recipients[i].amount as u128;
        i = i + 1;
    }
    assert(recipients@.take(i as int) =~= recipients@);
    proof {
        lemma_sum_amounts_bound(recipients@);
        lemma_count_times_amount(i as int);
    }
    total
}

/// Builds the unsigned transaction paying `recipients` with a fixed `fee`.
///
/// Inputs are the shortest prefix of the unspent outputs, in snapshot order, that
/// covers the payments and the fee. An excess of at least `dust` (and above zero)
/// is paid back as change; a smaller one is added to the fee.
pub fn build_tx(utxos: &Vec<Utxo>, recipients: Vec<Recipient>, fee: u64, dust: u64) -> (r: Result<
    TxPlan,
    WalletError,
>)
    ensures
        r is Ok <==> sum_values(unspent(utxos@)) >= target(recipients@, fee),
        r is Err ==> r->Err_0 == WalletError::InsufficientFunds,
        r matches Ok(p) ==> {
            let excess = sum_values(p.inputs@) - target(recipients@, fee);
            &&& exists|k: int|
                shortest_cover(unspent(utxos@), k, target(recipients@, fee)) && p.inputs@ == unspent(
                    utxos@,
                ).take(k)
            &&& p.recipients@ == recipients@
            &&& excess >= dust && excess > 0 ==> p.change == Some(excess as u64) && p.fee == fee
            &&& excess < dust || excess == 0 ==> p.change is None && p.fee == fee + excess
            &&& conserves(p)
        },
{
    let avail = unspent_outputs(utxos);
    let paid = total_amount(&recipients);
    let goal: u128 = paid + fee as u128;
    let mut inputs: Vec<Utxo> = Vec::new();
    let mut total: u128 = 0;
    let mut k: usize = 0;
    while total < goal && k < avail.len()
        invariant
            k <= avail@.len(),
            total == sum_values(avail@.take(k as int)),
            inputs@ == avail@.take(k as int),
            forall|j: int| 0 <= j < k ==> sum_values(#[trigger] avail@.take(j)) < goal,
        decreases avail@.len() - k,
    {
        assert(avail@.take(k + 1).drop_last() =~= avail@.take(k as int));
        proof {
            lemma_sum_values_bound(avail@.take(k as int));
            lemma_count_times_amount(k as int);
        }
        let u = avail[k];
        total = total + u.value as u128;
        inputs.push(u);
        k = k + 1;
        assert(inputs@ =~= avail@.take(k as int));
    }
    if total < goal {
        assert(avail@.take(k as int) =~= avail@);
        return Err(WalletError::InsufficientFunds);
    }
    proof {
        lemma_prefix_sum_le(avail@, k as int);
        assert(shortest_cover(avail@, k as int, goal as int));
        if k > 0 {
            assert(avail@.take(k as int).drop_last() =~= avail@.take(k - 1));
            assert(sum_values(avail@.take(k - 1)) < goal);
        }
    }
    let excess: u128 = total - goal;
    let change: Option<u64>;
    let paid_fee: u128;
    if excess >= dust as u128 && excess > 0 {
        change = Some(excess as u64);
        paid_fee = fee as u128;
    } else {
        change = None;
        paid_fee = fee as u128 + excess;
    }
    Ok(TxPlan { inputs, recipients, change, fee: paid_fee })
}

} // verus!
