//! The transaction that disposes of dust: what it spends, what it merges from the mempool,
//! what it burns and how it is signed.
use crate::batch::{
    batch_input, estimated_sizes, fee_of, is_batch, lemma_prefix_weight, lemma_rate_order_exists,
    lemma_replacement_accepted, lemma_sum_bound, merged_fee, merged_size, own_size, pays_bandwidth,
    rate_order, sum_below, sum_over, weight_of, MempoolEntry,
};
use crate::calc::{
    burn_output_size, lemma_meets_min_size, needs_ash, spends_as, tx_base_size, type_base_size,
    type_witness_size, types_base_size, types_witness_size, InputType, MIN_BASE_SIZE,
};
use crate::disposal::{
    ash, ash_burn_script, burns, ddust_tx, empty_burn_script, input_signed, lemma_found_share_burn,
    unconfirmed_ddust, ALL_ANYONE_CAN_PAY,
};
use crate::dust::{
    checked_sum_values, lemma_value_is_sum, outputs_of, sum_values, total_value, LocalOutput,
    LocalOutputView,
};
use crate::script::{burn_script, is_p2tr, is_witness_program, new_op_return, p2tr, witness_program};
use crate::size::{
    frame_weight, get_input_vsize, input_weight, inputs_weight, is_weighable, lemma_framed,
    lemma_weight_parts, lemma_weights_add, satisfaction_weight, transaction_weight, varint_len,
    varint_size, weighable, UNSIGNED_INPUT_WEIGHT,
};
use crate::tx::{
    contents, copy_bytes, copy_stack, stack, OutPoint, Transaction, TransactionView, TxIn, TxInView,
    TxOut, TxOutView,
};
use vstd::prelude::*;

verus! {

/// The sequence number of the dust inputs: it signals that the transaction may be replaced.
pub const REPLACEABLE_SEQUENCE: u32 = 0xffff_fffd;

/// A signed input of a merged transaction, with what a signer needs to know of it.
#[derive(Debug)]
pub struct ForeignInput {
    /// The output that is spent.
    pub outpoint: OutPoint,
    /// That output, where it is a taproot output: its signature commits to all values.
    pub witness_utxo: Option<TxOut>,
    /// The transaction of that output, where it is any other.
    pub non_witness_utxo: Option<Transaction>,
    /// The witness, where there is one.
    pub final_script_witness: Option<Vec<Vec<u8>>>,
    /// The unlocking script, where there is one.
    pub final_script_sig: Option<Vec<u8>>,
    /// The weight of the input in weight units.
    pub satisfaction_weight: u64,
    /// The sequence number that its signature commits to.
    pub sequence: u32,
}

/// What a [`ForeignInput`] holds.
#[verifier::ext_equal]
pub struct ForeignInputView {
    pub outpoint: OutPoint,
    pub witness_utxo: Option<TxOutView>,
    pub non_witness_utxo: Option<TransactionView>,
    pub final_script_witness: Option<Seq<Seq<u8>>>,
    pub final_script_sig: Option<Seq<u8>>,
    pub satisfaction_weight: u64,
    pub sequence: u32,
}

impl View for ForeignInput {
    type V = ForeignInputView;

    open spec fn view(&self) -> ForeignInputView {
        ForeignInputView {
            outpoint: self.outpoint,
            witness_utxo: match self.witness_utxo {
                Some(out) => Some(out@),
                None => None,
            },
            non_witness_utxo: match self.non_witness_utxo {
                Some(tx) => Some(tx@),
                None => None,
            },
            final_script_witness: match self.final_script_witness {
                Some(witness) => Some(stack(witness@)),
                None => None,
            },
            final_script_sig: match self.final_script_sig {
                Some(script) => Some(script@),
                None => None,
            },
            satisfaction_weight: self.satisfaction_weight,
            sequence: self.sequence,
        }
    }
}

/// The contents of each input.
pub open spec fn foreign_of(inputs: Seq<ForeignInput>) -> Seq<ForeignInputView> {
    Seq::new(inputs.len(), |i: int| inputs[i]@)
}

/// The output that `input` spends, where `prev` is the transaction that it is in.
pub open spec fn spent_output(input: TxInView, prev: TransactionView) -> TxOutView {
    prev.output[input.previous_output.vout as int]
}

/// How an input of a merged transaction is taken over.
pub open spec fn foreign_input(input: TxInView, prev: TransactionView) -> ForeignInputView {
    let out = spent_output(input, prev);
    ForeignInputView {
        outpoint: input.previous_output,
        witness_utxo: if p2tr(out.script_pubkey) {
            Some(out)
        } else {
            None
        },
        non_witness_utxo: if p2tr(out.script_pubkey) {
            None
        } else {
            Some(prev)
        },
        final_script_witness: if input.witness.len() > 0 {
            Some(input.witness)
        } else {
            None
        },
        final_script_sig: if input.script_sig.len() > 0 {
            Some(input.script_sig)
        } else {
            None
        },
        satisfaction_weight: input_weight(input) as u64,
        sequence: input.sequence,
    }
}

/// How the inputs of one transaction are taken over; `prevs` are the transactions they spend.
pub open spec fn taken_over(
    inputs: Seq<TxInView>,
    prevs: Seq<TransactionView>,
) -> Seq<ForeignInputView> {
    Seq::new(inputs.len(), |j: int| foreign_input(inputs[j], prevs[j]))
}

/// How the inputs of `txs` are taken over, transaction by transaction.
pub open spec fn foreign_inputs(
    txs: Seq<TransactionView>,
    prevs: Seq<Seq<TransactionView>>,
) -> Seq<ForeignInputView>
    decreases txs.len(),
{
    if txs.len() == 0 {
        Seq::empty()
    } else {
        foreign_inputs(txs.drop_last(), prevs.drop_last()) + taken_over(
            txs.last().input,
            prevs.last(),
        )
    }
}

/// The value that `inputs` spend.
pub open spec fn inputs_value(inputs: Seq<TxInView>, prevs: Seq<TransactionView>) -> nat
    decreases inputs.len(),
{
    if inputs.len() == 0 {
        0
    } else {
        inputs_value(inputs.drop_last(), prevs.drop_last()) + spent_output(
            inputs.last(),
            prevs.last(),
        ).value as nat
    }
}

/// The value that the inputs of `txs` spend.
pub open spec fn foreign_value(
    txs: Seq<TransactionView>,
    prevs: Seq<Seq<TransactionView>>,
) -> nat
    decreases txs.len(),
{
    if txs.len() == 0 {
        0
    } else {
        foreign_value(txs.drop_last(), prevs.drop_last()) + inputs_value(
            txs.last().input,
            prevs.last(),
        )
    }
}

/// Whether `prevs` holds, for each of `inputs`, the transaction that it spends from.
pub open spec fn spends(inputs: Seq<TxInView>, prevs: Seq<TransactionView>) -> bool {
    &&& prevs.len() == inputs.len()
    &&& forall|j: int|
        0 <= j < inputs.len() ==> (#[trigger] inputs[j]).previous_output.vout
            < prevs[j].output.len()
    &&& forall|j: int| 0 <= j < inputs.len() ==> weighable(#[trigger] inputs[j])
}

/// Whether `prevs` holds the transactions that the inputs of `txs` spend from.
pub open spec fn all_spend(
    txs: Seq<TransactionView>,
    prevs: Seq<Seq<TransactionView>>,
) -> bool {
    &&& prevs.len() == txs.len()
    &&& forall|i: int| 0 <= i < txs.len() ==> spends((#[trigger] txs[i]).input, prevs[i])
}

/// The contents of each list of transactions.
pub open spec fn lists_of(lists: Seq<Vec<Transaction>>) -> Seq<Seq<TransactionView>> {
    Seq::new(lists.len(), |i: int| contents(lists[i]@))
}

/// The value of a prefix of the inputs, and what one more adds.
proof fn lemma_prefix_inputs(inputs: Seq<TxInView>, prevs: Seq<TransactionView>, n: int)
    requires
        0 <= n <= inputs.len(),
        prevs.len() == inputs.len(),
    ensures
        inputs_value(inputs.take(n), prevs.take(n)) <= inputs_value(inputs, prevs),
        n > 0 ==> inputs_value(inputs.take(n), prevs.take(n)) == inputs_value(
            inputs.take(n - 1),
            prevs.take(n - 1),
        ) + spent_output(inputs[n - 1], prevs[n - 1]).value,
    decreases inputs.len() - n,
{
    if n > 0 {
        assert(inputs.take(n).drop_last() =~= inputs.take(n - 1));
        assert(prevs.take(n).drop_last() =~= prevs.take(n - 1));
    }
    if n < inputs.len() {
        lemma_prefix_inputs(inputs, prevs, n + 1);
    } else {
        assert(inputs.take(n) =~= inputs);
        assert(prevs.take(n) =~= prevs);
    }
}

/// The value of a prefix of the transactions, and what one more adds.
proof fn lemma_prefix_foreign(
    txs: Seq<TransactionView>,
    prevs: Seq<Seq<TransactionView>>,
    n: int,
)
    requires
        0 <= n <= txs.len(),
        prevs.len() == txs.len(),
    ensures
        foreign_value(txs.take(n), prevs.take(n)) <= foreign_value(txs, prevs),
        n > 0 ==> foreign_value(txs.take(n), prevs.take(n)) == foreign_value(
            txs.take(n - 1),
            prevs.take(n - 1),
        ) + inputs_value(txs[n - 1].input, prevs[n - 1]),
        n > 0 ==> foreign_inputs(txs.take(n), prevs.take(n)) == foreign_inputs(
            txs.take(n - 1),
            prevs.take(n - 1),
        ) + taken_over(txs[n - 1].input, prevs[n - 1]),
    decreases txs.len() - n,
{
    if n > 0 {
        assert(txs.take(n).drop_last() =~= txs.take(n - 1));
        assert(prevs.take(n).drop_last() =~= prevs.take(n - 1));
    }
    if n < txs.len() {
        lemma_prefix_foreign(txs, prevs, n + 1);
    } else {
        assert(txs.take(n) =~= txs);
        assert(prevs.take(n) =~= prevs);
    }
}

/// Takes over one input.
fn take_over(input: &TxIn, prev: &Transaction) -> (r: ForeignInput)
    requires
        input.previous_output.vout < prev@.output.len(),
        weighable(input@),
    ensures
        r@ == foreign_input(input@, prev@),
{
    let out = &prev.output[input.previous_output.vout as usize];
    assert(prev@.output[input.previous_output.vout as int] == out@);
    let taproot = is_p2tr(out.script_pubkey.as_slice());
    let r = ForeignInput {
        outpoint: input.previous_output,
        witness_utxo: if taproot {
            Some(out.clone())
        } else {
            None
        },
        non_witness_utxo: if taproot {
            None
        } else {
            Some(prev.clone())
        },
        final_script_witness: if input.witness.len() > 0 {
            Some(copy_stack(&input.witness))
        } else {
            None
        },
        final_script_sig: if input.script_sig.len() > 0 {
            Some(copy_bytes(&input.script_sig))
        } else {
            None
        },
        satisfaction_weight: satisfaction_weight(input),
        sequence: input.sequence,
    };
    r
}

/// Takes over the inputs of one transaction and returns the value they spend.
fn take_over_inputs(
    tx: &Transaction,
    prevs: &Vec<Transaction>,
    added: &mut Vec<ForeignInput>,
) -> (r: u64)
    requires
        spends(tx@.input, contents(prevs@)),
        inputs_value(tx@.input, contents(prevs@)) <= u64::MAX,
    ensures
        r == inputs_value(tx@.input, contents(prevs@)),
        foreign_of(final(added)@) == foreign_of(old(added)@) + taken_over(
            tx@.input,
            contents(prevs@),
        ),
{
    let ghost inputs = tx@.input;
    let ghost from = contents(prevs@);
    let ghost before = foreign_of(added@);
    let mut amount: u64 = 0;
    proof {
        assert(inputs.take(0) =~= Seq::<TxInView>::empty());
        assert(foreign_of(added@) =~= before + taken_over(inputs.take(0), from));
    }
    for j in 0..tx.input.len()
        invariant
            inputs == tx@.input,
            from == contents(prevs@),
            spends(inputs, from),
            inputs_value(inputs, from) <= u64::MAX,
            amount == inputs_value(inputs.take(j as int), from.take(j as int)),
            foreign_of(added@) == before + taken_over(inputs.take(j as int), from),
    {
        let ghost so_far = foreign_of(added@);
        let input = &tx.input[j];
        let prev = &prevs[j];
        proof {
            lemma_prefix_inputs(inputs, from, j + 1);
            assert(inputs[j as int] == input@);
            assert(from[j as int] == prev@);
            assert(prev@.output[input.previous_output.vout as int] == prev.output@[
                input.previous_output.vout as int
            ]@);
        }
        amount = amount + prev.output[input.previous_output.vout as usize].value;
        added.push(take_over(input, prev));
        proof {
            let one = foreign_input(input@, prev@);
            assert(foreign_of(added@) =~= so_far.push(one));
            assert(taken_over(inputs.take(j + 1), from) =~= taken_over(
                inputs.take(j as int),
                from,
            ).push(one));
            assert(before + taken_over(inputs.take(j + 1), from) =~= so_far.push(one));
        }
    }
    assert(inputs.take(inputs.len() as int) =~= inputs);
    assert(from.take(inputs.len() as int) =~= from);
    amount
}

/// Takes over the signed inputs of the transactions that are merged. `prev_txs` holds, for
/// each input of each transaction, the transaction that it spends from. Also returns the
/// value that these inputs add.
pub fn add_foreign_utxos(
    unconfirmed_txs: &Vec<Transaction>,
    prev_txs: &Vec<Vec<Transaction>>,
) -> (r: (Vec<ForeignInput>, u64))
    requires
        all_spend(contents(unconfirmed_txs@), lists_of(prev_txs@)),
        foreign_value(contents(unconfirmed_txs@), lists_of(prev_txs@)) <= u64::MAX,
    ensures
        foreign_of(r.0@) == foreign_inputs(contents(unconfirmed_txs@), lists_of(prev_txs@)),
        r.1 == foreign_value(contents(unconfirmed_txs@), lists_of(prev_txs@)),
{
    let ghost txs = contents(unconfirmed_txs@);
    let ghost prevs = lists_of(prev_txs@);
    let mut added: Vec<ForeignInput> = Vec::new();
    let mut added_amount: u64 = 0;
    proof {
        assert(txs.take(0) =~= Seq::<TransactionView>::empty());
        assert(foreign_of(added@) =~= foreign_inputs(txs.take(0), prevs.take(0)));
    }
    for i in 0..unconfirmed_txs.len()
        invariant
            txs == contents(unconfirmed_txs@),
            prevs == lists_of(prev_txs@),
            all_spend(txs, prevs),
            foreign_value(txs, prevs) <= u64::MAX,
            foreign_of(added@) == foreign_inputs(txs.take(i as int), prevs.take(i as int)),
            added_amount == foreign_value(txs.take(i as int), prevs.take(i as int)),
    {
        proof {
            lemma_prefix_foreign(txs, prevs, i + 1);
            assert(txs[i as int] == unconfirmed_txs@[i as int]@);
            assert(prevs[i as int] == contents(prev_txs@[i as int]@));
            assert(spends(txs[i as int].input, prevs[i as int]));
        }
        let amount = take_over_inputs(&unconfirmed_txs[i], &prev_txs[i], &mut added);
        added_amount = added_amount + amount;
    }
    assert(txs.take(txs.len() as int) =~= txs);
    assert(prevs.take(txs.len() as int) =~= prevs);
    (added, added_amount)
}

/// How the dust inputs are to be signed, with `ALL|ANYONECANPAY` in either case.
#[derive(Debug, Clone, Copy, PartialEq, Eq, Structural)]
pub enum SighashKind {
    /// A taproot signature.
    Taproot,
    /// An ECDSA signature.
    Ecdsa,
}

/// The hash type of the signatures of a kind: `ALL|ANYONECANPAY` for both.
pub open spec fn kind_hash_type(kind: SighashKind) -> u8 {
    match kind {
        SighashKind::Taproot => 0x81,
        SighashKind::Ecdsa => 0x81,
    }
}

impl SighashKind {
    /// The hash type that the dust inputs are signed with.
    pub fn hash_type(self) -> (r: u8)
        ensures
            r == ALL_ANYONE_CAN_PAY,
            r == kind_hash_type(self),
    {
        match self {
            SighashKind::Taproot => ALL_ANYONE_CAN_PAY,
            SighashKind::Ecdsa => ALL_ANYONE_CAN_PAY,
        }
    }
}

/// The transaction to build. Its one output burns no value, so all it spends is fee.
#[derive(Debug)]
pub struct SpendPlan {
    /// The dust that is spent, and nothing else of the wallet.
    pub utxos: Vec<OutPoint>,
    /// The sequence number of the dust inputs.
    pub sequence: u32,
    /// The block height of the lock time.
    pub lock_height: u32,
    /// The signed inputs that are taken over.
    pub foreign: Vec<ForeignInput>,
    /// The fee: the value of all inputs.
    pub fee: u64,
    /// The data of the burn output.
    pub data: Vec<u8>,
    /// The script of the burn output.
    pub burn: Vec<u8>,
    /// How the dust inputs are to be signed.
    pub sighash: SighashKind,
}

/// What a [`SpendPlan`] holds.
#[verifier::ext_equal]
pub struct SpendPlanView {
    pub utxos: Seq<OutPoint>,
    pub sequence: u32,
    pub lock_height: u32,
    pub foreign: Seq<ForeignInputView>,
    pub fee: nat,
    pub data: Seq<u8>,
    pub burn: Seq<u8>,
    pub sighash: SighashKind,
}

impl View for SpendPlan {
    type V = SpendPlanView;

    open spec fn view(&self) -> SpendPlanView {
        SpendPlanView {
            utxos: self.utxos@,
            sequence: self.sequence,
            lock_height: self.lock_height,
            foreign: foreign_of(self.foreign@),
            fee: self.fee as nat,
            data: self.data@,
            burn: self.burn@,
            sighash: self.sighash,
        }
    }
}

/// The data that a burn output carries behind `OP_RETURN` and the push opcode.
pub open spec fn kept_data(script: Seq<u8>) -> Seq<u8> {
    if script.len() >= 2 && script[0] == 0x6a {
        script.skip(2)
    } else {
        Seq::empty()
    }
}

/// The data of the burn output: that of the first transaction that is merged; else "ash"
/// for a single witness input, which is below the smallest size that is relayed without it;
/// else none.
pub open spec fn burn_data(
    dust: Seq<LocalOutputView>,
    batch: Seq<TransactionView>,
) -> Seq<u8> {
    if batch.len() > 0 {
        kept_data(batch[0].output[0].script_pubkey)
    } else if dust.len() == 1 && witness_program(dust[0].txout.script_pubkey) {
        ash()
    } else {
        Seq::empty()
    }
}

/// Where each output stands.
pub open spec fn outpoints(outputs: Seq<LocalOutputView>) -> Seq<OutPoint> {
    Seq::new(outputs.len(), |i: int| outputs[i].outpoint)
}

/// The transaction that spends `dust` and merges `batch`, whose inputs spend from `prevs`.
pub open spec fn spend_plan(
    dust: Seq<LocalOutputView>,
    batch: Seq<TransactionView>,
    prevs: Seq<Seq<TransactionView>>,
) -> SpendPlanView {
    SpendPlanView {
        utxos: outpoints(dust),
        sequence: REPLACEABLE_SEQUENCE,
        lock_height: 0,
        foreign: foreign_inputs(batch, prevs),
        fee: total_value(dust) + foreign_value(batch, prevs),
        data: burn_data(dust, batch),
        burn: burn_script(burn_data(dust, batch)),
        sighash: if p2tr(dust[0].txout.script_pubkey) {
            SighashKind::Taproot
        } else {
            SighashKind::Ecdsa
        },
    }
}

/// What a plan takes: the burn output of the first transaction that is merged, all the
/// transactions that are spent from, and a value that is a machine integer.
pub open spec fn spend_input(
    dust: Seq<LocalOutputView>,
    batch: Seq<TransactionView>,
    prevs: Seq<Seq<TransactionView>>,
) -> bool {
    &&& batch.len() > 0 ==> batch[0].output.len() > 0 && kept_data(
        batch[0].output[0].script_pubkey,
    ).len() <= 0xffff_ffff
    &&& all_spend(batch, prevs)
    &&& total_value(dust) + foreign_value(batch, prevs) <= u64::MAX
}

/// The weight of the inputs of `txs` together.
pub open spec fn batch_weight(txs: Seq<TransactionView>) -> nat
    decreases txs.len(),
{
    if txs.len() == 0 {
        0
    } else {
        batch_weight(txs.drop_last()) + inputs_weight(txs.last().input)
    }
}

/// The most that signed inputs that spend `dust` weigh.
pub open spec fn signed_weight(dust: Seq<LocalOutputView>) -> nat
    decreases dust.len(),
{
    if dust.len() == 0 {
        0
    } else {
        signed_weight(dust.drop_last()) + UNSIGNED_INPUT_WEIGHT as nat
            + dust.last().satisfaction_weight as nat
    }
}

/// The most that the signed transaction weighs that spends `dust` and merges `batch`.
pub open spec fn plan_size(dust: Seq<LocalOutputView>, batch: Seq<TransactionView>) -> nat {
    signed_weight(dust) + batch_weight(batch) + frame_weight(
        dust.len() + all_inputs(batch).len(),
        burn_script(burn_data(dust, batch)).len(),
    )
}

/// Whether the transaction that spends `dust` and merges `batch` pays the least that the
/// protocol asks for, 0.1 satoshi a virtual byte.
pub open spec fn pays_floor(
    dust: Seq<LocalOutputView>,
    batch: Seq<TransactionView>,
    prevs: Seq<Seq<TransactionView>>,
) -> bool {
    pays_bandwidth(total_value(dust) + foreign_value(batch, prevs), plan_size(dust, batch))
}

/// The weight of signed inputs that spend a prefix of the dust, and what one more adds.
proof fn lemma_prefix_signed(dust: Seq<LocalOutputView>, n: int)
    requires
        0 <= n <= dust.len(),
    ensures
        signed_weight(dust.take(n)) <= signed_weight(dust),
        n > 0 ==> signed_weight(dust.take(n)) == signed_weight(dust.take(n - 1))
            + UNSIGNED_INPUT_WEIGHT + dust[n - 1].satisfaction_weight,
    decreases dust.len() - n,
{
    if n > 0 {
        assert(dust.take(n).drop_last() =~= dust.take(n - 1));
    }
    if n < dust.len() {
        lemma_prefix_signed(dust, n + 1);
    } else {
        assert(dust.take(n) =~= dust);
    }
}

/// The weight of a prefix of the transactions, and what one more adds.
proof fn lemma_prefix_batch(txs: Seq<TransactionView>, n: int)
    requires
        0 <= n <= txs.len(),
    ensures
        batch_weight(txs.take(n)) <= batch_weight(txs),
        n > 0 ==> batch_weight(txs.take(n)) == batch_weight(txs.take(n - 1)) + inputs_weight(
            txs[n - 1].input,
        ),
        n > 0 ==> all_inputs(txs.take(n)) == all_inputs(txs.take(n - 1)) + txs[n - 1].input,
    decreases txs.len() - n,
{
    if n > 0 {
        assert(txs.take(n).drop_last() =~= txs.take(n - 1));
    }
    if n < txs.len() {
        lemma_prefix_batch(txs, n + 1);
    } else {
        assert(txs.take(n) =~= txs);
    }
}

/// What is left of `budget` behind the inputs of `tx`, where it covers them.
fn spend_budget(tx: &Transaction, budget: u128) -> (r: Option<u128>)
    requires
        forall|i: int| 0 <= i < tx@.input.len() ==> weighable(#[trigger] tx@.input[i]),
    ensures
        match r {
            Some(left) => left == budget - inputs_weight(tx@.input),
            None => inputs_weight(tx@.input) > budget,
        },
{
    let ghost all = tx@.input;
    assert(all.take(0) =~= Seq::<TxInView>::empty());
    let mut left: u128 = budget;
    for i in 0..tx.input.len()
        invariant
            all == tx@.input,
            forall|j: int| 0 <= j < all.len() ==> weighable(#[trigger] all[j]),
            left == budget - inputs_weight(all.take(i as int)),
    {
        proof {
            lemma_prefix_weight(all, i + 1);
            assert(all[i as int] == tx.input@[i as int]@);
        }
        let weight: u128 = get_input_vsize(&tx.input[i]).quarters as u128;
        if weight > left {
            return None;
        }
        left = left - weight;
    }
    assert(all.take(all.len() as int) =~= all);
    Some(left)
}

/// What is left of `budget` behind signed inputs that spend `dust`, where it covers them.
fn dust_budget(dust: &Vec<LocalOutput>, budget: u128) -> (r: Option<u128>)
    ensures
        match r {
            Some(left) => left == budget - signed_weight(outputs_of(dust@)),
            None => signed_weight(outputs_of(dust@)) > budget,
        },
{
    let ghost all = outputs_of(dust@);
    assert(all.take(0) =~= Seq::<LocalOutputView>::empty());
    let mut left: u128 = budget;
    for i in 0..dust.len()
        invariant
            all == outputs_of(dust@),
            left == budget - signed_weight(all.take(i as int)),
    {
        proof {
            lemma_prefix_signed(all, i + 1);
            assert(all[i as int] == dust@[i as int]@);
        }
        let weight: u128 = UNSIGNED_INPUT_WEIGHT as u128 + dust[i].satisfaction_weight as u128;
        if weight > left {
            return None;
        }
        left = left - weight;
    }
    assert(all.take(all.len() as int) =~= all);
    Some(left)
}

/// Whether `fee` pays 0.1 satoshi a virtual byte for a transaction that spends `dust` to the
/// burn output `burn` and merges `batch`.
fn is_floor_paid(
    dust: &Vec<LocalOutput>,
    batch: &Vec<Transaction>,
    burn: &Vec<u8>,
    fee: u64,
) -> (r: bool)
    requires
        forall|i: int, j: int|
            0 <= i < batch@.len() && 0 <= j < contents(batch@)[i].input.len() ==> weighable(
                #[trigger] contents(batch@)[i].input[j],
            ),
    ensures
        r == pays_bandwidth(
            fee as nat,
            signed_weight(outputs_of(dust@)) + batch_weight(contents(batch@)) + frame_weight(
                dust@.len() + all_inputs(contents(batch@)).len(),
                burn@.len(),
            ),
        ),
{
    let ghost own = outputs_of(dust@);
    let ghost txs = contents(batch@);
    let budget: u128 = 40 * (fee as u128);
    let mut left: u128 = match dust_budget(dust, budget) {
        Some(left) => left,
        None => return false,
    };
    let ghost covered = left;
    let mut merged: u128 = 0;
    assert(txs.take(0) =~= Seq::<TransactionView>::empty());
    for i in 0..batch.len()
        invariant
            txs == contents(batch@),
            own == outputs_of(dust@),
            forall|k: int, j: int|
                0 <= k < batch@.len() && 0 <= j < txs[k].input.len() ==> weighable(
                    #[trigger] txs[k].input[j],
                ),
            budget == 40 * fee,
            covered == budget - signed_weight(own),
            left == covered - batch_weight(txs.take(i as int)),
            merged == all_inputs(txs.take(i as int)).len(),
            UNSIGNED_INPUT_WEIGHT * merged <= covered - left,
    {
        proof {
            lemma_prefix_batch(txs, i + 1);
            assert(txs[i as int] == batch@[i as int]@);
            lemma_weight_parts(txs[i as int].input);
        }
        left = match spend_budget(&batch[i], left) {
            Some(rest) => rest,
            None => return false,
        };
        merged = merged + batch[i].input.len() as u128;
    }
    assert(txs.take(txs.len() as int) =~= txs);
    proof {
        lemma_signed_at_least(own);
        assert(own.len() == dust@.len());
    }
    let inputs: u64 = (dust.len() as u128 + merged) as u64;
    let len: u64 = burn.len() as u64;
    let frame: u128 = 4 * (4 + varint_size(inputs) as u128 + 1 + 8 + varint_size(len) as u128
        + len as u128 + 4) + 2;
    frame <= left
}

/// Signed inputs weigh at least what unsigned ones do.
proof fn lemma_signed_at_least(dust: Seq<LocalOutputView>)
    ensures
        signed_weight(dust) >= UNSIGNED_INPUT_WEIGHT * dust.len(),
    decreases dust.len(),
{
    if dust.len() > 0 {
        lemma_signed_at_least(dust.drop_last());
    }
}

/// The data of the burn output `script`.
pub fn op_return_data(script: &Vec<u8>) -> (r: Vec<u8>)
    ensures
        r@ == kept_data(script@),
{
    let mut data: Vec<u8> = Vec::new();
    if script.len() < 2 || script[0] != 0x6a {
        assert(data@ =~= kept_data(script@));
        return data;
    }
    for i in 2..script.len()
        invariant
            script@.len() >= 2,
            data@ == script@.subrange(2, i as int),
    {
        data.push(script[i]);
        assert(data@ =~= script@.subrange(2, i + 1));
    }
    assert(data@ =~= kept_data(script@));
    data
}

/// The transaction that disposes of `dust`, merging the transactions `batchable`. `prev_txs`
/// holds, for each input of each of these, the transaction that it spends from. There is none
/// without dust, and none where it would pay less than the protocol asks for.
pub fn plan_spend(
    dust: &Vec<LocalOutput>,
    batchable: &Vec<Transaction>,
    prev_txs: &Vec<Vec<Transaction>>,
) -> (r: Option<SpendPlan>)
    requires
        dust@.len() > 0 ==> spend_input(
            outputs_of(dust@),
            contents(batchable@),
            lists_of(prev_txs@),
        ),
    ensures
        r is Some <==> dust@.len() > 0 && pays_floor(
            outputs_of(dust@),
            contents(batchable@),
            lists_of(prev_txs@),
        ),
        r matches Some(plan) ==> plan@ == spend_plan(
            outputs_of(dust@),
            contents(batchable@),
            lists_of(prev_txs@),
        ),
        r matches Some(plan) ==> plan.utxos@.len() == dust@.len() && forall|i: int|
            0 <= i < dust@.len() ==> #[trigger] plan.utxos@[i] == dust@[i].outpoint,
{
    if dust.len() == 0 {
        return None;
    }
    let ghost own = outputs_of(dust@);
    let ghost batch = contents(batchable@);
    let ghost prevs = lists_of(prev_txs@);
    proof {
        assert(own[0] == dust@[0]@);
    }
    let mut utxos: Vec<OutPoint> = Vec::new();
    for i in 0..dust.len()
        invariant
            own == outputs_of(dust@),
            utxos@ == outpoints(own).take(i as int),
    {
        utxos.push(dust[i].outpoint);
        assert(own[i as int] == dust@[i as int]@);
        assert(utxos@ =~= outpoints(own).take(i + 1));
    }
    assert(outpoints(own).take(own.len() as int) =~= outpoints(own));
    let input_amount = sum_values(dust);
    let (foreign, added_amount) = add_foreign_utxos(batchable, prev_txs);
    let first = dust[0].txout.script_pubkey.as_slice();
    let data: Vec<u8> = if batchable.len() > 0 {
        proof {
            assert(batch[0] == batchable@[0]@);
            assert(batch[0].output[0] == batchable@[0].output@[0]@);
        }
        op_return_data(&batchable[0].output[0].script_pubkey)
    } else if dust.len() == 1 && is_witness_program(first) {
        vec![0x61, 0x73, 0x68]
    } else {
        Vec::new()
    };
    assert(data@ =~= burn_data(own, batch));
    let burn = new_op_return(data.as_slice());
    let fee: u64 = input_amount + added_amount;
    assert forall|i: int, j: int|
        0 <= i < batchable@.len() && 0 <= j < batch[i].input.len() implies weighable(
        #[trigger] batch[i].input[j],
    ) by {
        assert(spends(batch[i].input, prevs[i]));
    }
    if !is_floor_paid(dust, batchable, &burn, fee) {
        return None;
    }
    let sighash = if is_p2tr(first) {
        SighashKind::Taproot
    } else {
        SighashKind::Ecdsa
    };
    Some(
        SpendPlan {
            utxos,
            sequence: REPLACEABLE_SEQUENCE,
            lock_height: 0,
            foreign,
            fee,
            data,
            burn,
            sighash,
        },
    )
}

/// The input that a taken over input is in the transaction to build.
pub open spec fn carried(foreign: ForeignInputView) -> TxInView {
    TxInView {
        previous_output: foreign.outpoint,
        script_sig: match foreign.final_script_sig {
            Some(script) => script,
            None => Seq::empty(),
        },
        sequence: foreign.sequence,
        witness: match foreign.final_script_witness {
            Some(witness) => witness,
            None => Seq::empty(),
        },
    }
}

/// The inputs of `txs`, transaction by transaction.
pub open spec fn all_inputs(txs: Seq<TransactionView>) -> Seq<TxInView>
    decreases txs.len(),
{
    if txs.len() == 0 {
        Seq::empty()
    } else {
        all_inputs(txs.drop_last()) + txs.last().input
    }
}

/// A replacement holds every input of every transaction that it merges, unchanged: the
/// output it spends, its signatures and the sequence number that these commit to.
pub proof fn lemma_inputs_kept(txs: Seq<TransactionView>, prevs: Seq<Seq<TransactionView>>)
    requires
        prevs.len() == txs.len(),
    ensures
        foreign_inputs(txs, prevs).len() == all_inputs(txs).len(),
        forall|k: int|
            0 <= k < all_inputs(txs).len() ==> carried(
                #[trigger] foreign_inputs(txs, prevs)[k],
            ) == all_inputs(txs)[k],
    decreases txs.len(),
{
    if txs.len() > 0 {
        lemma_inputs_kept(txs.drop_last(), prevs.drop_last());
        let before = foreign_inputs(txs.drop_last(), prevs.drop_last());
        let own = taken_over(txs.last().input, prevs.last());
        assert forall|k: int| 0 <= k < all_inputs(txs).len() implies carried(
            #[trigger] foreign_inputs(txs, prevs)[k],
        ) == all_inputs(txs)[k] by {
            if k >= before.len() {
                let input = txs.last().input[k - before.len()];
                assert(own[k - before.len()] == foreign_input(
                    input,
                    prevs.last()[k - before.len()],
                ));
                assert(carried(own[k - before.len()]).witness =~= input.witness);
                assert(carried(own[k - before.len()]).script_sig =~= input.script_sig);
            } else {
                assert(foreign_inputs(txs, prevs)[k] == before[k]);
            }
        }
    }
}

/// Burning the data of a burn output of the protocol gives that output again.
pub proof fn lemma_burn_kept(script: Seq<u8>)
    requires
        burns(script, None),
    ensures
        burn_script(kept_data(script)) == script,
{
    if script == empty_burn_script() {
        assert(kept_data(script) =~= Seq::<u8>::empty());
        assert(burn_script(kept_data(script)) =~= script);
    } else {
        assert(kept_data(script) =~= ash());
        assert(burn_script(kept_data(script)) =~= script);
    }
}

/// What is burned without merging: "ash" for a single witness input, and nothing for a
/// single input of another kind and for several inputs of any kind.
pub proof fn lemma_standalone_burn(dust: Seq<LocalOutputView>, prevs: Seq<Seq<TransactionView>>)
    requires
        dust.len() > 0,
    ensures
        spend_plan(dust, Seq::empty(), prevs).burn == if dust.len() == 1 && witness_program(
            dust[0].txout.script_pubkey,
        ) {
            ash_burn_script()
        } else {
            empty_burn_script()
        },
{
    assert(burn_script(ash()) =~= ash_burn_script());
    assert(burn_script(Seq::<u8>::empty()) =~= empty_burn_script());
}

/// The burn output of a plan is one of the two there are, that of the first transaction it
/// merges where it merges any.
proof fn lemma_plan_burn(
    dust: Seq<LocalOutputView>,
    batch: Seq<TransactionView>,
    prevs: Seq<Seq<TransactionView>>,
)
    requires
        dust.len() > 0,
        batch.len() > 0 ==> ddust_tx(batch[0], None),
    ensures
        burns(spend_plan(dust, batch, prevs).burn, None),
        batch.len() > 0 ==> spend_plan(dust, batch, prevs).burn
            == batch[0].output[0].script_pubkey,
{
    if batch.len() > 0 {
        lemma_burn_kept(batch[0].output[0].script_pubkey);
    } else {
        assert(batch =~= Seq::<TransactionView>::empty());
        lemma_standalone_burn(dust, prevs);
    }
}

/// Every plan that is handed out keeps to the protocol: its dust inputs signal that it may be
/// replaced and are signed with `ALL|ANYONECANPAY`, its lock time is height 0, its burn output
/// is one of the two there are, that of the first transaction it merges where it merges any,
/// its fee is all that it spends, and that is at least 0.1 satoshi a virtual byte.
pub proof fn lemma_plan_follows_protocol(
    dust: Seq<LocalOutputView>,
    batch: Seq<TransactionView>,
    prevs: Seq<Seq<TransactionView>>,
)
    requires
        dust.len() > 0,
        batch.len() > 0 ==> ddust_tx(batch[0], None),
        pays_floor(dust, batch, prevs),
    ensures
        ({
            let plan = spend_plan(dust, batch, prevs);
            &&& plan.utxos.len() > 0
            &&& plan.sequence < 0xffff_fffe
            &&& kind_hash_type(plan.sighash) == ALL_ANYONE_CAN_PAY
            &&& plan.lock_height == 0
            &&& burns(plan.burn, None)
            &&& batch.len() > 0 ==> plan.burn == batch[0].output[0].script_pubkey
            &&& plan.fee == total_value(dust) + foreign_value(batch, prevs)
            &&& pays_bandwidth(plan.fee, plan_size(dust, batch))
        }),
{
    lemma_plan_burn(dust, batch, prevs);
}

/// The inputs that taken over inputs are in the transaction to build.
pub open spec fn all_carried(foreign: Seq<ForeignInputView>) -> Seq<TxInView> {
    Seq::new(foreign.len(), |k: int| carried(foreign[k]))
}

/// Whether `tx` is built by `plan` and signed: its inputs are the dust inputs `own`, signed with
/// `ALL|ANYONECANPAY`, and those that are taken over, each once and in the order `order`.
pub open spec fn built_by(
    tx: TransactionView,
    plan: SpendPlanView,
    own: Seq<TxInView>,
    order: Seq<int>,
) -> bool {
    let inputs = own + all_carried(plan.foreign);
    &&& tx.output.len() == 1
    &&& tx.output[0].script_pubkey == plan.burn
    &&& own.len() == plan.utxos.len()
    &&& forall|i: int|
        0 <= i < own.len() ==> (#[trigger] own[i]).previous_output == plan.utxos[i]
            && input_signed(own[i])
    &&& tx.input.len() == inputs.len()
    &&& order.len() == inputs.len()
    &&& order.no_duplicates()
    &&& forall|k: int| 0 <= k < order.len() ==> 0 <= #[trigger] order[k] < inputs.len()
    &&& forall|k: int| 0 <= k < tx.input.len() ==> #[trigger] tx.input[k] == inputs[order[k]]
}

/// All inputs of disposal transactions are signed.
proof fn lemma_all_signed(txs: Seq<TransactionView>)
    requires
        forall|i: int| 0 <= i < txs.len() ==> ddust_tx(#[trigger] txs[i], None),
    ensures
        forall|k: int|
            0 <= k < all_inputs(txs).len() ==> input_signed(#[trigger] all_inputs(txs)[k]),
    decreases txs.len(),
{
    if txs.len() > 0 {
        let rest = txs.drop_last();
        assert forall|i: int| 0 <= i < rest.len() implies ddust_tx(#[trigger] rest[i], None) by {
            assert(rest[i] == txs[i]);
        }
        lemma_all_signed(rest);
        assert(ddust_tx(txs[txs.len() - 1], None));
        assert forall|k: int| 0 <= k < all_inputs(txs).len() implies input_signed(
            #[trigger] all_inputs(txs)[k],
        ) by {
            let n = all_inputs(rest).len();
            if k < n {
                assert(all_inputs(txs)[k] == all_inputs(rest)[k]);
            } else {
                assert(all_inputs(txs)[k] == txs.last().input[k - n]);
            }
        }
    }
}

/// What is built by a plan is itself a disposal transaction, so it is found and can be
/// merged again.
pub proof fn lemma_plan_is_disposal(
    tx: TransactionView,
    dust: Seq<LocalOutputView>,
    batch: Seq<TransactionView>,
    prevs: Seq<Seq<TransactionView>>,
    own: Seq<TxInView>,
    order: Seq<int>,
)
    requires
        dust.len() > 0,
        prevs.len() == batch.len(),
        forall|i: int| 0 <= i < batch.len() ==> ddust_tx(#[trigger] batch[i], None),
        built_by(tx, spend_plan(dust, batch, prevs), own, order),
    ensures
        ddust_tx(tx, None),
{
    let plan = spend_plan(dust, batch, prevs);
    lemma_plan_burn(dust, batch, prevs);
    lemma_inputs_kept(batch, prevs);
    lemma_all_signed(batch);
    let inputs = own + all_carried(plan.foreign);
    assert forall|k: int| 0 <= k < tx.input.len() implies input_signed(#[trigger] tx.input[k]) by {
        let at = order[k];
        if at < own.len() {
            assert(inputs[at] == own[at]);
        } else {
            assert(inputs[at] == carried(plan.foreign[at - own.len()]));
            assert(input_signed(all_inputs(batch)[at - own.len()]));
        }
    }
}

/// The weight of all inputs of `txs` is that of each.
proof fn lemma_all_inputs_weight(txs: Seq<TransactionView>)
    ensures
        inputs_weight(all_inputs(txs)) == batch_weight(txs),
    decreases txs.len(),
{
    if txs.len() > 0 {
        lemma_all_inputs_weight(txs.drop_last());
        lemma_weights_add(all_inputs(txs.drop_last()), txs.last().input);
    }
}

/// The weight of each of `inputs`.
pub open spec fn weights(inputs: Seq<TxInView>) -> spec_fn(int) -> nat {
    |i: int| input_weight(inputs[i])
}

/// The weight of inputs is the sum of their weights.
proof fn lemma_weights_sum(inputs: Seq<TxInView>, n: int)
    requires
        0 <= n <= inputs.len(),
    ensures
        sum_below(weights(inputs), n as nat) == inputs_weight(inputs.take(n)),
    decreases n,
{
    if n > 0 {
        lemma_weights_sum(inputs, n - 1);
        assert(inputs.take(n).drop_last() =~= inputs.take(n - 1));
    } else {
        assert(inputs.take(n) =~= Seq::<TxInView>::empty());
    }
}

/// So it is for inputs that are taken from others.
proof fn lemma_weights_over(taken: Seq<TxInView>, inputs: Seq<TxInView>, order: Seq<int>)
    requires
        taken.len() == order.len(),
        forall|k: int| 0 <= k < taken.len() ==> #[trigger] taken[k] == inputs[order[k]],
    ensures
        inputs_weight(taken) == sum_over(weights(inputs), order),
    decreases taken.len(),
{
    if taken.len() > 0 {
        let (t, o) = (taken.drop_last(), order.drop_last());
        assert forall|k: int| 0 <= k < t.len() implies #[trigger] t[k] == inputs[o[k]] by {
            assert(t[k] == taken[k]);
        }
        lemma_weights_over(t, inputs, o);
        assert(taken[taken.len() - 1] == inputs[order[taken.len() - 1]]);
    }
}

/// Whether the inputs `own`, which spend `dust`, are signed within the weight that the wallet
/// gives for that.
pub open spec fn signed_within(own: Seq<TxInView>, dust: Seq<LocalOutputView>) -> bool {
    forall|i: int|
        0 <= i < own.len() ==> input_weight(#[trigger] own[i]) <= UNSIGNED_INPUT_WEIGHT
            + dust[i].satisfaction_weight
}

/// Inputs that are signed within what the wallet gives weigh no more than is planned for.
proof fn lemma_signed_within(own: Seq<TxInView>, dust: Seq<LocalOutputView>)
    requires
        own.len() == dust.len(),
        signed_within(own, dust),
    ensures
        inputs_weight(own) <= signed_weight(dust),
    decreases own.len(),
{
    if own.len() > 0 {
        let (o, d) = (own.drop_last(), dust.drop_last());
        assert forall|i: int| 0 <= i < o.len() implies input_weight(#[trigger] o[i])
            <= UNSIGNED_INPUT_WEIGHT + d[i].satisfaction_weight by {
            assert(o[i] == own[i]);
        }
        assert(signed_within(o, d));
        lemma_signed_within(o, d);
        assert(input_weight(own[own.len() - 1]) <= UNSIGNED_INPUT_WEIGHT + dust[own.len()
            - 1].satisfaction_weight);
    }
}

/// Every transaction that is built by a plan that is handed out, merging or not, pays at least
/// 0.1 satoshi for each virtual byte that it has once it is signed, with signatures that weigh
/// no more than the wallet gives for them.
pub proof fn lemma_signed_floor(
    tx: TransactionView,
    dust: Seq<LocalOutputView>,
    batch: Seq<TransactionView>,
    prevs: Seq<Seq<TransactionView>>,
    own: Seq<TxInView>,
    order: Seq<int>,
)
    requires
        dust.len() > 0,
        prevs.len() == batch.len(),
        pays_floor(dust, batch, prevs),
        built_by(tx, spend_plan(dust, batch, prevs), own, order),
        signed_within(own, dust),
    ensures
        transaction_weight(tx) <= plan_size(dust, batch),
        pays_bandwidth(spend_plan(dust, batch, prevs).fee, transaction_weight(tx)),
{
    let plan = spend_plan(dust, batch, prevs);
    lemma_inputs_kept(batch, prevs);
    assert(all_carried(plan.foreign) =~= all_inputs(batch));
    let inputs = own + all_inputs(batch);
    lemma_weights_over(tx.input, inputs, order);
    lemma_sum_bound(weights(inputs), order, inputs.len());
    lemma_weights_sum(inputs, inputs.len() as int);
    assert(inputs.take(inputs.len() as int) =~= inputs);
    lemma_weights_add(own, all_inputs(batch));
    lemma_all_inputs_weight(batch);
    lemma_signed_within(own, dust);
    lemma_framed(tx);
}

/// What is merged from a mempool are disposal transactions in it that share one burn output,
/// which is the burn output of the replacement.
pub proof fn lemma_batch_from_mempool(
    batch: Seq<TransactionView>,
    dust: Seq<LocalOutputView>,
    mempool: Seq<TransactionView>,
    entries: Seq<MempoolEntry>,
    prevs: Seq<Seq<TransactionView>>,
)
    requires
        dust.len() > 0,
        batch_input(entries, dust, unconfirmed_ddust(mempool)),
        is_batch(batch, dust, unconfirmed_ddust(mempool), entries),
        batch.len() > 0,
    ensures
        forall|k: int|
            0 <= k < batch.len() ==> mempool.contains(#[trigger] batch[k]) && ddust_tx(
                batch[k],
                None,
            ) && batch[k].output[0].script_pubkey == spend_plan(dust, batch, prevs).burn,
{
    let txs = unconfirmed_ddust(mempool);
    let order = rate_order(entries);
    lemma_rate_order_exists(entries);
    assert forall|k: int| 0 <= k < batch.len() implies mempool.contains(#[trigger] batch[k])
        && ddust_tx(batch[k], None) && batch[k].output[0].script_pubkey
        == txs[0].output[0].script_pubkey by {
        assert(0 <= order[k] < txs.len());
        assert(batch[k] == txs[order[k]]);
        lemma_found_share_burn(mempool, order[k]);
    }
    lemma_burn_kept(batch[0].output[0].script_pubkey);
}

/// The value that merged inputs add is the sum of the fees of their transactions, where each
/// of these pays all it spends as fee.
pub proof fn lemma_fees_add_up(
    batch: Seq<TransactionView>,
    prevs: Seq<Seq<TransactionView>>,
    entries: Seq<MempoolEntry>,
    order: Seq<int>,
)
    requires
        prevs.len() == batch.len(),
        order.len() == batch.len(),
        forall|k: int|
            0 <= k < batch.len() ==> entries[#[trigger] order[k]].fee == inputs_value(
                batch[k].input,
                prevs[k],
            ),
    ensures
        foreign_value(batch, prevs) == sum_over(fee_of(entries), order),
    decreases batch.len(),
{
    if batch.len() > 0 {
        let (b, p, o) = (batch.drop_last(), prevs.drop_last(), order.drop_last());
        assert forall|k: int| 0 <= k < b.len() implies entries[#[trigger] o[k]].fee
            == inputs_value(b[k].input, p[k]) by {
            assert(o[k] == order[k]);
        }
        lemma_fees_add_up(b, p, entries, o);
        assert(entries[order[batch.len() - 1]].fee == inputs_value(
            batch.last().input,
            prevs.last(),
        ));
    }
}

/// The plan for a batch pays the fee that the batch was chosen for, and at least 0.1 satoshi
/// for each virtual byte.
pub proof fn lemma_batch_plan_fee(
    batch: Seq<TransactionView>,
    dust: Seq<LocalOutputView>,
    txs: Seq<TransactionView>,
    entries: Seq<MempoolEntry>,
    prevs: Seq<Seq<TransactionView>>,
)
    requires
        batch_input(entries, dust, txs),
        is_batch(batch, dust, txs, entries),
        batch.len() > 0,
        prevs.len() == batch.len(),
        forall|k: int|
            0 <= k < batch.len() ==> entries[#[trigger] rate_order(entries)[k]].fee
                == inputs_value(batch[k].input, prevs[k]),
    ensures
        ({
            let merged = rate_order(entries).take(batch.len() as int);
            let size = merged_size(own_size(dust, txs[0].output[0].script_pubkey), txs, merged);
            let fee = spend_plan(dust, batch, prevs).fee;
            &&& fee == merged_fee(total_value(dust), entries, merged)
            &&& pays_bandwidth(fee, size)
        }),
{
    let merged = rate_order(entries).take(batch.len() as int);
    lemma_rate_order_exists(entries);
    lemma_replacement_accepted(batch, dust, txs, entries);
    assert forall|k: int| 0 <= k < batch.len() implies entries[#[trigger] merged[k]].fee
        == inputs_value(batch[k].input, prevs[k]) by {
        assert(merged[k] == rate_order(entries)[k]);
    }
    lemma_fees_add_up(batch, prevs, entries, merged);
}

/// Dust of at least 33 satoshis an output, with signatures no heavier than those of a bare 2-of-3
/// multisig, always pays for its disposal.
pub proof fn lemma_standalone_fee(dust: Seq<LocalOutputView>, prevs: Seq<Seq<TransactionView>>)
    requires
        dust.len() > 0,
        forall|i: int|
            0 <= i < dust.len() ==> (#[trigger] dust[i]).txout.value >= 33
                && dust[i].satisfaction_weight <= 1024,
    ensures
        pays_floor(dust, Seq::empty(), prevs),
{
    lemma_values_cover(dust);
    lemma_standalone_burn(dust, prevs);
    assert(ash_burn_script().len() == 5 && empty_burn_script().len() == 2);
}

/// The value of such dust, with what is left for the rest of the transaction.
proof fn lemma_values_cover(dust: Seq<LocalOutputView>)
    requires
        forall|i: int|
            0 <= i < dust.len() ==> (#[trigger] dust[i]).txout.value >= 33
                && dust[i].satisfaction_weight <= 1024,
    ensures
        40 * total_value(dust) >= signed_weight(dust) + 131 * dust.len(),
    decreases dust.len(),
{
    if dust.len() > 0 {
        let rest = dust.drop_last();
        assert forall|i: int| 0 <= i < rest.len() implies (#[trigger] rest[i]).txout.value >= 33
            && rest[i].satisfaction_weight <= 1024 by {
            assert(rest[i] == dust[i]);
        }
        lemma_values_cover(rest);
        assert(dust[dust.len() - 1].txout.value >= 33);
    }
}

/// The burn output of a plan that merges nothing is the one that the size calculator asks
/// for, "ash" exactly where padding is needed, and with it the transaction reaches the
/// smallest size that is relayed. An output is its value, the length of its script, and its
/// script.
pub proof fn lemma_standalone_size(
    dust: Seq<LocalOutputView>,
    prevs: Seq<Seq<TransactionView>>,
    types: Seq<InputType>,
)
    requires
        dust.len() > 0,
        types.len() == dust.len(),
        forall|i: int|
            0 <= i < dust.len() ==> spends_as(
                dust[i].txout.script_pubkey,
                #[trigger] types[i],
            ),
    ensures
        ({
            let output = 8 + 1 + spend_plan(dust, Seq::empty(), prevs).burn.len();
            &&& output == burn_output_size(types)
            &&& needs_ash(types) <==> spend_plan(dust, Seq::empty(), prevs).burn
                == ash_burn_script()
            &&& tx_base_size(types, output) >= MIN_BASE_SIZE
        }),
{
    lemma_standalone_burn(dust, prevs);
    lemma_meets_min_size(types);
    assert(ash_burn_script().len() != empty_burn_script().len());
    if types.len() == 1 {
        assert(spends_as(dust[0].txout.script_pubkey, types[0]));
        let rest = types.drop_last();
        assert(types_base_size(rest) == 0 && types_witness_size(rest) == 0);
        assert(types_base_size(types) == type_base_size(types[0]));
        assert(types_witness_size(types) == type_witness_size(types[0]));
    }
}

/// The weight of a batch is what its transactions add to the replacement.
proof fn lemma_batch_weight(
    batch: Seq<TransactionView>,
    txs: Seq<TransactionView>,
    order: Seq<int>,
)
    requires
        order.len() == batch.len(),
        forall|k: int| 0 <= k < batch.len() ==> #[trigger] batch[k] == txs[order[k]],
    ensures
        batch_weight(batch) == sum_over(weight_of(txs), order),
    decreases batch.len(),
{
    if batch.len() > 0 {
        let (b, o) = (batch.drop_last(), order.drop_last());
        assert forall|k: int| 0 <= k < b.len() implies #[trigger] b[k] == txs[o[k]] by {
            assert(b[k] == batch[k]);
        }
        lemma_batch_weight(b, txs, o);
        assert(batch[batch.len() - 1] == txs[order[batch.len() - 1]]);
    }
}

/// A replacement pays what the protocol asks for, where its dust inputs are no heavier than was
/// estimated when it was chosen, or by no more than what the merged inputs bring pays for.
pub proof fn lemma_batch_pays_floor(
    batch: Seq<TransactionView>,
    dust: Seq<LocalOutputView>,
    mempool: Seq<TransactionView>,
    entries: Seq<MempoolEntry>,
    prevs: Seq<Seq<TransactionView>>,
)
    requires
        dust.len() > 0,
        batch_input(entries, dust, unconfirmed_ddust(mempool)),
        is_batch(batch, dust, unconfirmed_ddust(mempool), entries),
        batch.len() > 0,
        signed_weight(dust) + 32 <= estimated_sizes(dust) + 40 * foreign_value(batch, prevs),
    ensures
        pays_floor(dust, batch, prevs),
{
    let txs = unconfirmed_ddust(mempool);
    let merged = rate_order(entries).take(batch.len() as int);
    lemma_rate_order_exists(entries);
    lemma_replacement_accepted(batch, dust, txs, entries);
    assert forall|k: int| 0 <= k < batch.len() implies #[trigger] batch[k] == txs[merged[k]] by {
        assert(0 <= merged[k] < txs.len());
    }
    lemma_batch_weight(batch, txs, merged);
    lemma_found_share_burn(mempool, 0);
    lemma_batch_from_mempool(batch, dust, mempool, entries, prevs);
    assert(batch[0] == txs[merged[0]]);
    lemma_found_share_burn(mempool, merged[0]);
    let burn = spend_plan(dust, batch, prevs).burn;
    assert(burns(burn, None));
    assert(ash_burn_script().len() == 5 && empty_burn_script().len() == 2);
}

/// Whether the value that a disposal spends pays 0.1 satoshi for each virtual byte it can have.
pub open spec fn pays_for_itself(tx: TransactionView, prevs: Seq<TransactionView>) -> bool {
    pays_bandwidth(
        inputs_value(tx.input, prevs),
        inputs_weight(tx.input) + frame_weight(
            tx.input.len(),
            tx.output[0].script_pubkey.len(),
        ),
    )
}

/// Disposals that each pay for themselves pay for their inputs, and more.
proof fn lemma_batch_covers_itself(
    batch: Seq<TransactionView>,
    prevs: Seq<Seq<TransactionView>>,
)
    requires
        prevs.len() == batch.len(),
        forall|k: int| 0 <= k < batch.len() ==> pays_for_itself(#[trigger] batch[k], prevs[k]),
    ensures
        40 * foreign_value(batch, prevs) >= batch_weight(batch) + 74 * batch.len(),
    decreases batch.len(),
{
    if batch.len() > 0 {
        let (b, p) = (batch.drop_last(), prevs.drop_last());
        assert forall|k: int| 0 <= k < b.len() implies pays_for_itself(
            #[trigger] b[k],
            p[k],
        ) by {
            assert(b[k] == batch[k]);
        }
        lemma_batch_covers_itself(b, p);
        assert(pays_for_itself(batch[batch.len() - 1], prevs[batch.len() - 1]));
    }
}

/// Dust that pays for its disposal alone still does so when it merges disposals that each pay
/// for themselves.
pub proof fn lemma_merging_keeps_floor(
    dust: Seq<LocalOutputView>,
    batch: Seq<TransactionView>,
    prevs: Seq<Seq<TransactionView>>,
)
    requires
        dust.len() > 0,
        prevs.len() == batch.len(),
        pays_floor(dust, Seq::empty(), Seq::empty()),
        forall|k: int|
            0 <= k < batch.len() ==> ddust_tx(#[trigger] batch[k], None) && pays_for_itself(
                batch[k],
                prevs[k],
            ),
    ensures
        pays_floor(dust, batch, prevs),
{
    lemma_standalone_burn(dust, Seq::empty());
    if batch.len() > 0 {
        assert(ddust_tx(batch[0], None));
    } else {
        assert(batch =~= Seq::<TransactionView>::empty());
        assert(prevs =~= Seq::<Seq<TransactionView>>::empty());
    }
    lemma_plan_burn(dust, batch, prevs);
    lemma_batch_covers_itself(batch, prevs);
    assert(ash_burn_script().len() == 5 && empty_burn_script().len() == 2);
}

/// `start` and the value that `inputs` spend, where that is a machine integer and the outputs
/// they spend are there.
fn checked_spent(tx: &Transaction, prevs: &Vec<Transaction>, start: u64) -> (r: Option<u64>)
    ensures
        match r {
            Some(sum) => spends(tx@.input, contents(prevs@)) && sum == start + inputs_value(
                tx@.input,
                contents(prevs@),
            ),
            None => !spends(tx@.input, contents(prevs@)) || start + inputs_value(
                tx@.input,
                contents(prevs@),
            ) > u64::MAX,
        },
{
    let ghost inputs = tx@.input;
    let ghost from = contents(prevs@);
    if prevs.len() != tx.input.len() {
        return None;
    }
    let mut sum: u64 = start;
    assert(inputs.take(0) =~= Seq::<TxInView>::empty());
    for j in 0..tx.input.len()
        invariant
            inputs == tx@.input,
            from == contents(prevs@),
            inputs.len() == from.len() == prevs@.len(),
            forall|k: int|
                0 <= k < j ==> (#[trigger] inputs[k]).previous_output.vout < from[k].output.len(),
            forall|k: int| 0 <= k < j ==> weighable(#[trigger] inputs[k]),
            sum == start + inputs_value(inputs.take(j as int), from.take(j as int)),
    {
        let input = &tx.input[j];
        let prev = &prevs[j];
        let vout: usize = input.previous_output.vout as usize;
        proof {
            lemma_prefix_inputs(inputs, from, j + 1);
            assert(inputs[j as int] == input@);
            assert(from[j as int] == prev@);
        }
        if vout >= prev.output.len() || !is_weighable(input) {
            return None;
        }
        assert(prev@.output[vout as int] == prev.output@[vout as int]@);
        sum = match sum.checked_add(prev.output[vout].value) {
            Some(next) => next,
            None => return None,
        };
    }
    assert(inputs.take(inputs.len() as int) =~= inputs);
    assert(from.take(inputs.len() as int) =~= from);
    Some(sum)
}

/// Whether a transaction can be planned from what is given.
pub fn can_plan(
    dust: &Vec<LocalOutput>,
    batchable: &Vec<Transaction>,
    prev_txs: &Vec<Vec<Transaction>>,
) -> (r: bool)
    ensures
        r == spend_input(outputs_of(dust@), contents(batchable@), lists_of(prev_txs@)),
{
    let ghost batch = contents(batchable@);
    let ghost prevs = lists_of(prev_txs@);
    if prev_txs.len() != batchable.len() {
        return false;
    }
    if batchable.len() > 0 {
        assert(batch[0] == batchable@[0]@);
        if batchable[0].output.len() == 0 {
            return false;
        }
        assert(batch[0].output[0] == batchable@[0].output@[0]@);
        if op_return_data(&batchable[0].output[0].script_pubkey).len() as u64 > 0xffff_ffff {
            return false;
        }
    }
    let mut sum: u64 = match checked_sum_values(dust) {
        Some(amount) => amount,
        None => return false,
    };
    let ghost own = sum as nat;
    assert(batch.take(0) =~= Seq::<TransactionView>::empty());
    for i in 0..batchable.len()
        invariant
            batch == contents(batchable@),
            prevs == lists_of(prev_txs@),
            prev_txs@.len() == batchable@.len() == batch.len() == prevs.len(),
            own == total_value(outputs_of(dust@)),
            forall|k: int| 0 <= k < i ==> spends((#[trigger] batch[k]).input, prevs[k]),
            sum == own + foreign_value(batch.take(i as int), prevs.take(i as int)),
    {
        proof {
            lemma_prefix_foreign(batch, prevs, i + 1);
            assert(batch[i as int] == batchable@[i as int]@);
            assert(prevs[i as int] == contents(prev_txs@[i as int]@));
        }
        sum = match checked_spent(&batchable[i], &prev_txs[i], sum) {
            Some(next) => next,
            None => {
                assert(!all_spend(batch, prevs) || own + foreign_value(batch, prevs) > u64::MAX);
                return false;
            },
        };
    }
    assert(batch.take(batch.len() as int) =~= batch);
    assert(prevs.take(batch.len() as int) =~= prevs);
    true
}

/// What a taken over input holds is what its fields hold.
pub proof fn lemma_foreign_fields(input: ForeignInput)
    ensures
        input@.outpoint == input.outpoint,
        input@.sequence == input.sequence,
        input@.satisfaction_weight == input.satisfaction_weight,
        input@.witness_utxo is Some <==> input.witness_utxo is Some,
        input.witness_utxo matches Some(out) ==> input@.witness_utxo == Some(out@),
        input@.non_witness_utxo is Some <==> input.non_witness_utxo is Some,
        input.non_witness_utxo matches Some(tx) ==> input@.non_witness_utxo == Some(tx@),
        input@.final_script_witness is Some <==> input.final_script_witness is Some,
        input.final_script_witness matches Some(items) ==> input@.final_script_witness == Some(
            stack(items@),
        ),
        input@.final_script_sig is Some <==> input.final_script_sig is Some,
        input.final_script_sig matches Some(script) ==> input@.final_script_sig == Some(script@),
{
}

/// What a plan holds is what its fields hold.
pub proof fn lemma_plan_fields(plan: SpendPlan)
    ensures
        plan@.utxos == plan.utxos@,
        plan@.sequence == plan.sequence,
        plan@.lock_height == plan.lock_height,
        plan@.fee == plan.fee,
        plan@.data == plan.data@,
        plan@.burn == plan.burn@,
        plan@.sighash == plan.sighash,
        plan@.foreign.len() == plan.foreign@.len(),
        forall|k: int|
            0 <= k < plan.foreign@.len() ==> #[trigger] plan@.foreign[k] == plan.foreign@[k]@,
{
}

/// The contents of lists are those of their elements, each at its place.
pub proof fn lemma_spend_lists(inputs: Seq<ForeignInput>, lists: Seq<Vec<Transaction>>)
    ensures
        foreign_of(inputs).len() == inputs.len(),
        forall|k: int| 0 <= k < inputs.len() ==> #[trigger] foreign_of(inputs)[k] == inputs[k]@,
        lists_of(lists).len() == lists.len(),
        forall|i: int|
            0 <= i < lists.len() ==> (#[trigger] lists_of(lists)[i]).len() == lists[i]@.len(),
        forall|i: int, j: int|
            0 <= i < lists.len() && 0 <= j < lists[i]@.len() ==> (#[trigger] lists_of(
                lists,
            )[i][j]) == lists[i]@[j]@,
{
}

/// A plan spends the dust and nothing else of the wallet: output by output, the transaction it is
/// in and its index there.
pub proof fn lemma_plan_spends_dust(
    dust: Seq<LocalOutputView>,
    batch: Seq<TransactionView>,
    prevs: Seq<Seq<TransactionView>>,
)
    ensures
        spend_plan(dust, batch, prevs).utxos.len() == dust.len(),
        forall|i: int|
            0 <= i < dust.len() ==> (#[trigger] spend_plan(dust, batch, prevs).utxos[i]).txid
                == dust[i].outpoint.txid && spend_plan(dust, batch, prevs).utxos[i].vout
                == dust[i].outpoint.vout,
{
}

/// How one input is taken over: it spends the output of `prev` at the index that it names, and
/// keeps its outpoint, its sequence number and its signatures. That output goes with it where it
/// is a taproot output, and all of `prev` where it is not.
pub proof fn lemma_taken_over_input(input: TxInView, prev: TransactionView)
    ensures
        ({
            let vout = input.previous_output.vout as int;
            let foreign = foreign_input(input, prev);
            &&& spent_output(input, prev) == prev.output[vout]
            &&& foreign.outpoint.txid == input.previous_output.txid
            &&& foreign.outpoint.vout == vout
            &&& foreign.sequence == input.sequence
            &&& p2tr(prev.output[vout].script_pubkey) ==> foreign.witness_utxo == Some(
                prev.output[vout],
            ) && foreign.non_witness_utxo is None
            &&& !p2tr(prev.output[vout].script_pubkey) ==> foreign.non_witness_utxo == Some(prev)
                && foreign.witness_utxo is None
            &&& input.witness.len() > 0 ==> foreign.final_script_witness == Some(input.witness)
            &&& input.witness.len() == 0 ==> foreign.final_script_witness is None
            &&& input.script_sig.len() > 0 ==> foreign.final_script_sig == Some(input.script_sig)
            &&& input.script_sig.len() == 0 ==> foreign.final_script_sig is None
            &&& weighable(input) ==> foreign.satisfaction_weight == input_weight(input)
        }),
{
}

/// Of one transaction all inputs are taken over, in its order, and their value is the sum of the
/// values of the outputs that they spend, each at the index that its input names.
pub proof fn lemma_taken_over_tx(tx: TransactionView, prevs: Seq<TransactionView>)
    requires
        prevs.len() == tx.input.len(),
    ensures
        foreign_inputs(seq![tx], seq![prevs]).len() == tx.input.len(),
        forall|j: int|
            0 <= j < tx.input.len() ==> #[trigger] foreign_inputs(seq![tx], seq![prevs])[j]
                == foreign_input(tx.input[j], prevs[j]),
        foreign_value(seq![tx], seq![prevs]) == inputs_value(tx.input, prevs),
        inputs_value(tx.input, prevs) == Seq::new(
            tx.input.len(),
            |j: int| prevs[j].output[tx.input[j].previous_output.vout as int].value as int,
        ).fold_left(0int, |sum: int, value: int| sum + value),
{
    let (txs, from) = (seq![tx], seq![prevs]);
    assert(txs.drop_last() =~= Seq::<TransactionView>::empty());
    assert(from.drop_last() =~= Seq::<Seq<TransactionView>>::empty());
    assert(foreign_inputs(txs.drop_last(), from.drop_last()) =~= Seq::<ForeignInputView>::empty());
    assert(foreign_inputs(txs, from) =~= taken_over(tx.input, prevs));
    assert(foreign_value(txs.drop_last(), from.drop_last()) == 0);
    lemma_spent_sum(tx.input, prevs);
}

/// The value that inputs spend is the sum over them.
proof fn lemma_spent_sum(inputs: Seq<TxInView>, prevs: Seq<TransactionView>)
    requires
        prevs.len() == inputs.len(),
    ensures
        inputs_value(inputs, prevs) == Seq::new(
            inputs.len(),
            |j: int| prevs[j].output[inputs[j].previous_output.vout as int].value as int,
        ).fold_left(0int, |sum: int, value: int| sum + value),
    decreases inputs.len(),
{
    if inputs.len() > 0 {
        let (i, p) = (inputs.drop_last(), prevs.drop_last());
        lemma_spent_sum(i, p);
        assert(Seq::new(
            inputs.len(),
            |j: int| prevs[j].output[inputs[j].previous_output.vout as int].value as int,
        ).drop_last() =~= Seq::new(
            i.len(),
            |j: int| p[j].output[i[j].previous_output.vout as int].value as int,
        ));
    }
}

/// The inputs of several transactions are taken over one behind the other, and their values add
/// up.
pub proof fn lemma_taken_over_join(
    first: Seq<TransactionView>,
    first_prevs: Seq<Seq<TransactionView>>,
    second: Seq<TransactionView>,
    second_prevs: Seq<Seq<TransactionView>>,
)
    requires
        first_prevs.len() == first.len(),
        second_prevs.len() == second.len(),
    ensures
        foreign_inputs(first + second, first_prevs + second_prevs) == foreign_inputs(
            first,
            first_prevs,
        ) + foreign_inputs(second, second_prevs),
        foreign_value(first + second, first_prevs + second_prevs) == foreign_value(
            first,
            first_prevs,
        ) + foreign_value(second, second_prevs),
        foreign_inputs(Seq::empty(), Seq::empty()).len() == 0,
        foreign_value(Seq::empty(), Seq::empty()) == 0,
    decreases second.len(),
{
    if second.len() == 0 {
        assert(first + second =~= first);
        assert(first_prevs + second_prevs =~= first_prevs);
        assert(foreign_inputs(first, first_prevs) + foreign_inputs(second, second_prevs)
            =~= foreign_inputs(first, first_prevs));
    } else {
        let (s, p) = (second.drop_last(), second_prevs.drop_last());
        lemma_taken_over_join(first, first_prevs, s, p);
        assert((first + second).drop_last() =~= first + s);
        assert((first_prevs + second_prevs).drop_last() =~= first_prevs + p);
        let last = taken_over(second.last().input, second_prevs.last());
        assert(foreign_inputs(first, first_prevs) + (foreign_inputs(s, p) + last) =~= (
        foreign_inputs(first, first_prevs) + foreign_inputs(s, p)) + last);
    }
}

/// The value that merged inputs add, in one sum: over all inputs of all merged transactions, the
/// value of the output that the input names by its index.
pub proof fn lemma_added_value(txs: Seq<TransactionView>, prevs: Seq<Seq<TransactionView>>)
    requires
        all_spend(txs, prevs),
    ensures
        foreign_value(txs, prevs) == Seq::new(
            txs.len(),
            |i: int|
                Seq::new(
                    txs[i].input.len(),
                    |j: int|
                        prevs[i][j].output[txs[i].input[j].previous_output.vout as int].value as
                            int,
                ).fold_left(0int, |sum: int, value: int| sum + value),
        ).fold_left(0int, |sum: int, value: int| sum + value),
    decreases txs.len(),
{
    let spent = |t: Seq<TransactionView>, p: Seq<Seq<TransactionView>>|
        Seq::new(
            t.len(),
            |i: int|
                Seq::new(
                    t[i].input.len(),
                    |j: int|
                        p[i][j].output[t[i].input[j].previous_output.vout as int].value as int,
                ).fold_left(0int, |sum: int, value: int| sum + value),
        );
    if txs.len() > 0 {
        let (t, p) = (txs.drop_last(), prevs.drop_last());
        let n = txs.len() - 1;
        assert forall|i: int| 0 <= i < t.len() implies spends((#[trigger] t[i]).input, p[i]) by {
            assert(t[i] == txs[i] && p[i] == prevs[i]);
        }
        lemma_added_value(t, p);
        assert(spends(txs[n].input, prevs[n]));
        lemma_spent_sum(txs[n].input, prevs[n]);
        assert forall|i: int| 0 <= i < n implies #[trigger] spent(txs, prevs)[i] == spent(
            t,
            p,
        )[i] by {
            assert(t[i] == txs[i] && p[i] == prevs[i]);
        }
        assert(spent(txs, prevs).drop_last() =~= spent(t, p));
    }
}

/// What has to be known of the transactions that are spent from: there is one for each input of
/// each merged transaction, it has the output that the input names, and the input can be weighed.
pub proof fn lemma_previous_known(txs: Seq<TransactionView>, prevs: Seq<Seq<TransactionView>>)
    ensures
        all_spend(txs, prevs) <==> {
            &&& prevs.len() == txs.len()
            &&& forall|i: int|
                0 <= i < txs.len() ==> (#[trigger] prevs[i]).len() == txs[i].input.len()
            &&& forall|i: int, j: int|
                0 <= i < txs.len() && 0 <= j < txs[i].input.len() ==> (
                #[trigger] txs[i].input[j]).previous_output.vout < prevs[i][j].output.len()
                    && weighable(txs[i].input[j])
        },
{
    if all_spend(txs, prevs) {
        assert forall|i: int| 0 <= i < txs.len() implies (#[trigger] prevs[i]).len()
            == txs[i].input.len() by {
            assert(spends(txs[i].input, prevs[i]));
        }
        assert forall|i: int, j: int| 0 <= i < txs.len() && 0 <= j < txs[i].input.len() implies (
        #[trigger] txs[i].input[j]).previous_output.vout < prevs[i][j].output.len() && weighable(
            txs[i].input[j],
        ) by {
            assert(spends(txs[i].input, prevs[i]));
        }
    }
    if prevs.len() == txs.len() && (forall|i: int|
        0 <= i < txs.len() ==> (#[trigger] prevs[i]).len() == txs[i].input.len()) && (forall|
        i: int,
        j: int,
    |
        0 <= i < txs.len() && 0 <= j < txs[i].input.len() ==> (
        #[trigger] txs[i].input[j]).previous_output.vout < prevs[i][j].output.len() && weighable(
            txs[i].input[j],
        )) {
        assert forall|i: int| 0 <= i < txs.len() implies spends(
            (#[trigger] txs[i]).input,
            prevs[i],
        ) by {
            assert(prevs[i].len() == txs[i].input.len());
            assert forall|j: int| 0 <= j < txs[i].input.len() implies (
            #[trigger] txs[i].input[j]).previous_output.vout < prevs[i][j].output.len() by {}
            assert forall|j: int| 0 <= j < txs[i].input.len() implies weighable(
                #[trigger] txs[i].input[j],
            ) by {}
        }
    }
}

/// When a transaction can be planned: the transactions that are spent from are known, the first
/// merged one has an output whose data is less than 2^32 bytes, and all that is spent is no more
/// than 64 bits.
pub proof fn lemma_can_plan_when(
    dust: Seq<LocalOutputView>,
    batch: Seq<TransactionView>,
    prevs: Seq<Seq<TransactionView>>,
)
    ensures
        spend_input(dust, batch, prevs) <==> {
            &&& all_spend(batch, prevs)
            &&& batch.len() > 0 ==> batch[0].output.len() > 0 && kept_data(
                batch[0].output[0].script_pubkey,
            ).len() < 0x1_0000_0000
            &&& dust.fold_left(0int, |sum: int, out: LocalOutputView| sum + out.txout.value)
                + foreign_value(batch, prevs) <= u64::MAX
        },
{
    lemma_value_is_sum(dust);
}

/// What is kept of a burn output: all behind `OP_RETURN` and one byte, and nothing of what starts
/// otherwise.
pub proof fn lemma_kept_data(script: Seq<u8>, push: u8, data: Seq<u8>)
    ensures
        kept_data(seq![0x6au8, push] + data) == data,
        script.len() < 2 || script[0] != 0x6a ==> kept_data(script).len() == 0,
        data.len() <= 75 ==> kept_data(burn_script(data)) == data,
{
    assert(kept_data(seq![0x6au8, push] + data) =~= data);
    if data.len() <= 75 {
        assert(burn_script(data) =~= seq![0x6au8, data.len() as u8] + data);
        assert(kept_data(burn_script(data)) =~= data);
    }
}

/// All that a plan says besides what it spends: its inputs signal that they may be replaced, its
/// lock time is height 0, its fee is the value of all inputs, and it is signed by the kind of the
/// first dust output with the hash type 0x81. It burns the data of the first transaction that it
/// merges; merging none, "ash" for a single output that is a witness program, and else nothing.
pub proof fn lemma_plan_says(
    dust: Seq<LocalOutputView>,
    batch: Seq<TransactionView>,
    prevs: Seq<Seq<TransactionView>>,
)
    requires
        dust.len() > 0,
    ensures
        ({
            let plan = spend_plan(dust, batch, prevs);
            &&& plan.sequence == 0xffff_fffd
            &&& plan.lock_height == 0
            &&& plan.foreign == foreign_inputs(batch, prevs)
            &&& plan.fee == dust.fold_left(
                0int,
                |sum: int, out: LocalOutputView| sum + out.txout.value,
            ) + foreign_value(batch, prevs)
            &&& plan.sighash == SighashKind::Taproot <==> p2tr(dust[0].txout.script_pubkey)
            &&& kind_hash_type(plan.sighash) == 0x81
            &&& batch.len() > 0 ==> plan.data == kept_data(batch[0].output[0].script_pubkey)
            &&& batch.len() == 0 && dust.len() == 1 && witness_program(
                dust[0].txout.script_pubkey,
            ) ==> plan.data == seq![0x61u8, 0x73u8, 0x68u8] && plan.burn
                == seq![0x6au8, 0x03u8, 0x61u8, 0x73u8, 0x68u8]
            &&& batch.len() == 0 && (dust.len() > 1 || !witness_program(
                dust[0].txout.script_pubkey,
            )) ==> plan.data.len() == 0 && plan.burn == seq![0x6au8, 0x00u8]
            &&& plan.burn == burn_script(plan.data)
        }),
{
    lemma_value_is_sum(dust);
    let plan = spend_plan(dust, batch, prevs);
    if batch.len() == 0 {
        assert(batch =~= Seq::<TransactionView>::empty());
        lemma_standalone_burn(dust, prevs);
    }
}

/// A plan that merges a disposal with one of the burn outputs of the protocol has that burn
/// output, byte by byte.
pub proof fn lemma_merged_burn(
    dust: Seq<LocalOutputView>,
    batch: Seq<TransactionView>,
    prevs: Seq<Seq<TransactionView>>,
)
    requires
        dust.len() > 0,
        batch.len() > 0,
        batch[0].output[0].script_pubkey == seq![0x6au8, 0x00u8]
            || batch[0].output[0].script_pubkey == seq![0x6au8, 0x03u8, 0x61u8, 0x73u8, 0x68u8],
    ensures
        spend_plan(dust, batch, prevs).burn == batch[0].output[0].script_pubkey,
{
    lemma_burn_kept(batch[0].output[0].script_pubkey);
}

/// The weight that a plan has to pay for, in one sum: 165 units and what signing adds for each
/// dust output, all inputs that it merges, and 70 units, the two counts and the script for the
/// rest. It is handed out exactly where 40 times its fee is no less.
pub proof fn lemma_floor_is(
    dust: Seq<LocalOutputView>,
    batch: Seq<TransactionView>,
    prevs: Seq<Seq<TransactionView>>,
)
    ensures
        ({
            let signed = dust.fold_left(
                0int,
                |sum: int, out: LocalOutputView| sum + 165 + out.satisfaction_weight,
            );
            let merged = batch.fold_left(
                0int,
                |sum: int, tx: TransactionView| sum + inputs_weight(tx.input),
            );
            let inputs = dust.len() + batch.fold_left(
                0int,
                |sum: int, tx: TransactionView| sum + tx.input.len(),
            );
            let burn = spend_plan(dust, batch, prevs).burn.len();
            let size = signed + merged + 70 + 4 * varint_len(inputs as nat) + 4 * varint_len(burn)
                + 4 * burn;
            &&& plan_size(dust, batch) == size
            &&& pays_floor(dust, batch, prevs) <==> 40 * spend_plan(dust, batch, prevs).fee >= size
        }),
{
    lemma_signed_sum(dust);
    lemma_merged_sums(batch);
}

/// What signed dust inputs weigh is the sum over them.
proof fn lemma_signed_sum(dust: Seq<LocalOutputView>)
    ensures
        signed_weight(dust) == dust.fold_left(
            0int,
            |sum: int, out: LocalOutputView| sum + 165 + out.satisfaction_weight,
        ),
    decreases dust.len(),
{
    if dust.len() > 0 {
        lemma_signed_sum(dust.drop_last());
    }
}

/// What merged inputs weigh, and how many they are, is the sum over the transactions.
proof fn lemma_merged_sums(batch: Seq<TransactionView>)
    ensures
        batch_weight(batch) == batch.fold_left(
            0int,
            |sum: int, tx: TransactionView| sum + inputs_weight(tx.input),
        ),
        all_inputs(batch).len() == batch.fold_left(
            0int,
            |sum: int, tx: TransactionView| sum + tx.input.len(),
        ),
    decreases batch.len(),
{
    if batch.len() > 0 {
        lemma_merged_sums(batch.drop_last());
    }
}

/// A plan that merges more has all that one that merges less has: the same dust, and what is
/// merged later behind what was merged before, with the value of it on top.
pub proof fn lemma_merging_only_adds(
    dust: Seq<LocalOutputView>,
    first: Seq<TransactionView>,
    first_prevs: Seq<Seq<TransactionView>>,
    second: Seq<TransactionView>,
    second_prevs: Seq<Seq<TransactionView>>,
)
    requires
        first.len() > 0,
        first_prevs.len() == first.len(),
        second_prevs.len() == second.len(),
    ensures
        ({
            let less = spend_plan(dust, first, first_prevs);
            let more = spend_plan(dust, first + second, first_prevs + second_prevs);
            &&& more.utxos == less.utxos
            &&& more.burn == less.burn
            &&& more.sighash == less.sighash
            &&& more.foreign == less.foreign + foreign_inputs(second, second_prevs)
            &&& more.fee == less.fee + foreign_value(second, second_prevs)
        }),
{
    lemma_taken_over_join(first, first_prevs, second, second_prevs);
    assert((first + second)[0] == first[0]);
}

} // verus!
