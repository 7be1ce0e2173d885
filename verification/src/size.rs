//! Sizes and fee rates, and what an input weighs.
//!
//! Virtual sizes are multiples of a quarter byte, so they are counted in quarters, and a fee
//! rate is kept as the ratio it is: no size or rate is rounded.
use crate::tx::{stack, TransactionView, TxIn, TxInView, TxOutView};
use bdk_wallet::bitcoin::{ScriptBuf, Witness};
use vstd::prelude::*;

verus! {

/// A virtual size in quarters of a virtual byte, that is in weight units.
#[derive(Clone, Copy, PartialEq, Eq, Structural, Debug)]
pub struct VirtualSize {
    pub quarters: u64,
}

/// A fee rate: `sats` satoshis over `vsize`.
#[derive(Clone, Copy, PartialEq, Eq, Structural, Debug)]
pub struct FeeRate {
    pub sats: u64,
    pub vsize: VirtualSize,
}

/// The length of `n` as a variable-length integer.
pub open spec fn varint_len(n: nat) -> nat {
    if n < 0xFD {
        1
    } else if n <= 0xFFFF {
        3
    } else if n <= 0xFFFF_FFFF {
        5
    } else {
        9
    }
}

/// The size of an input without its witness: outpoint, length of the unlocking script, that
/// script, and sequence number.
pub open spec fn base_size(script_sig: Seq<u8>) -> nat {
    36 + varint_len(script_sig.len()) + script_sig.len() + 4
}

/// The size of the items of a witness, each with its length before it.
pub open spec fn items_size(items: Seq<Seq<u8>>) -> nat
    decreases items.len(),
{
    if items.len() == 0 {
        0
    } else {
        items_size(items.drop_last()) + varint_len(items.last().len()) + items.last().len()
    }
}

/// The size of a witness: the number of its items, then the items.
pub open spec fn witness_size(items: Seq<Seq<u8>>) -> nat {
    varint_len(items.len()) + items_size(items)
}

/// The weight of an input: four units for each byte, one for each byte of the witness.
pub open spec fn input_weight(input: TxInView) -> nat {
    4 * base_size(input.script_sig) + witness_size(input.witness)
}

/// The weight of `inputs` together.
pub open spec fn inputs_weight(inputs: Seq<TxInView>) -> nat
    decreases inputs.len(),
{
    if inputs.len() == 0 {
        0
    } else {
        inputs_weight(inputs.drop_last()) + input_weight(inputs.last())
    }
}

/// Whether the weight of an input is a machine integer. A witness holds less than 2^32 bytes.
pub open spec fn weighable(input: TxInView) -> bool {
    &&& witness_size(input.witness) <= 0xffff_ffff
    &&& input_weight(input) <= usize::MAX
}

/// Size of `value` as a variable-length integer.
pub fn varint_size(value: u64) -> (r: u64)
    ensures
        r == varint_len(value as nat),
{
    if value < 0xFD {
        1
    } else if value <= 0xFFFF {
        3
    } else if value <= 0xFFFFFFFF {
        5
    } else {
        9
    }
}

/// The size of a prefix of the items is no larger than that of all, and one more item adds
/// its size.
proof fn lemma_prefix_items(items: Seq<Seq<u8>>, n: int)
    requires
        0 <= n <= items.len(),
    ensures
        items_size(items.take(n)) <= items_size(items),
        n > 0 ==> items_size(items.take(n)) == items_size(items.take(n - 1)) + varint_len(
            items[n - 1].len(),
        ) + items[n - 1].len(),
    decreases items.len() - n,
{
    if n > 0 {
        assert(items.take(n).drop_last() =~= items.take(n - 1));
    }
    if n < items.len() {
        lemma_prefix_items(items, n + 1);
    } else {
        assert(items.take(n) =~= items);
    }
}

/// Whether the weight of `input` is a machine integer.
pub fn is_weighable(input: &TxIn) -> (r: bool)
    ensures
        r == weighable(input@),
{
    let ghost items = input@.witness;
    let limit: u128 = 0xffff_ffff;
    let mut witness: u128 = varint_size(input.witness.len() as u64) as u128;
    assert(items.take(0) =~= Seq::<Seq<u8>>::empty());
    for i in 0..input.witness.len()
        invariant
            items == input@.witness,
            limit == 0xffff_ffff,
            witness == varint_len(items.len()) + items_size(items.take(i as int)),
            witness <= limit || i == 0,
            witness <= limit + 9,
    {
        let len: usize = input.witness[i].len();
        proof {
            lemma_prefix_items(items, i + 1);
            assert(items[i as int] == input.witness@[i as int]@);
        }
        witness = witness + varint_size(len as u64) as u128 + len as u128;
        if witness > limit {
            assert(witness_size(items) > limit);
            return false;
        }
    }
    assert(items.take(items.len() as int) =~= items);
    let len: usize = input.script_sig.len();
    let base: u128 = 40 + varint_size(len as u64) as u128 + len as u128;
    4 * base + witness <= usize::MAX as u128
}

/// `bitcoin::TxIn::base_size` of an input with the given unlocking script.
#[verifier::external_body]
fn txin_base_size(script_sig: &Vec<u8>) -> (r: usize)
    requires
        base_size(script_sig@) <= usize::MAX,
    ensures
        r == base_size(script_sig@),
{
    let script_sig = ScriptBuf::from_bytes(script_sig.to_vec());
    let input = bdk_wallet::bitcoin::TxIn { script_sig, ..Default::default() };
    input.base_size()
}

/// `bitcoin::TxIn::total_size` of an input with the given unlocking script and witness.
/// `bitcoin::Witness` keeps the offsets of its items in 32 bits.
#[verifier::external_body]
fn txin_total_size(script_sig: &Vec<u8>, witness: &Vec<Vec<u8>>) -> (r: usize)
    requires
        witness_size(stack(witness@)) <= 0xffff_ffff,
        base_size(script_sig@) + witness_size(stack(witness@)) <= usize::MAX,
    ensures
        r == base_size(script_sig@) + witness_size(stack(witness@)),
{
    let script_sig = ScriptBuf::from_bytes(script_sig.to_vec());
    let witness = Witness::from_slice(witness);
    let input = bdk_wallet::bitcoin::TxIn { script_sig, witness, ..Default::default() };
    input.total_size()
}

/// `bitcoin::TxIn::segwit_weight` of an input with the given unlocking script and witness,
/// in weight units. `bitcoin::Witness` keeps the offsets of its items in 32 bits.
#[verifier::external_body]
fn txin_segwit_weight(script_sig: &Vec<u8>, witness: &Vec<Vec<u8>>) -> (r: u64)
    requires
        witness_size(stack(witness@)) <= 0xffff_ffff,
        4 * base_size(script_sig@) + witness_size(stack(witness@)) <= usize::MAX,
    ensures
        r == 4 * base_size(script_sig@) + witness_size(stack(witness@)),
{
    let script_sig = ScriptBuf::from_bytes(script_sig.to_vec());
    let witness = Witness::from_slice(witness);
    let input = bdk_wallet::bitcoin::TxIn { script_sig, witness, ..Default::default() };
    input.segwit_weight().to_wu()
}

/// The virtual size that an input adds to a transaction.
pub fn get_input_vsize(input: &TxIn) -> (r: VirtualSize)
    requires
        weighable(input@),
    ensures
        r.quarters == input_weight(input@),
{
    let base = txin_base_size(&input.script_sig);
    let total = txin_total_size(&input.script_sig, &input.witness);
    let weight: usize = base * 3 + total;
    VirtualSize { quarters: weight as u64 }
}

/// The weight that is declared for an input that carries its signatures already.
pub fn satisfaction_weight(input: &TxIn) -> (r: u64)
    requires
        weighable(input@),
    ensures
        r == input_weight(input@),
{
    txin_segwit_weight(&input.script_sig, &input.witness)
}

/// The weight of an input that is not signed yet: outpoint, no unlocking script and sequence
/// number, and the count of no witness items.
pub const UNSIGNED_INPUT_WEIGHT: u64 = 165;

/// The size of `inputs` without their witnesses.
pub open spec fn bases_size(inputs: Seq<TxInView>) -> nat
    decreases inputs.len(),
{
    if inputs.len() == 0 {
        0
    } else {
        bases_size(inputs.drop_last()) + base_size(inputs.last().script_sig)
    }
}

/// The size of the witnesses of `inputs`.
pub open spec fn witnesses_size(inputs: Seq<TxInView>) -> nat
    decreases inputs.len(),
{
    if inputs.len() == 0 {
        0
    } else {
        witnesses_size(inputs.drop_last()) + witness_size(inputs.last().witness)
    }
}

/// The size of an output with a script of `len` bytes: its value, and the script with its
/// length.
pub open spec fn output_size(len: nat) -> nat {
    8 + varint_len(len) + len
}

/// The size of `outputs`.
pub open spec fn outputs_size(outputs: Seq<TxOutView>) -> nat
    decreases outputs.len(),
{
    if outputs.len() == 0 {
        0
    } else {
        outputs_size(outputs.drop_last()) + output_size(outputs.last().script_pubkey.len())
    }
}

/// The weight of a transaction: four units for each byte of version, counts, inputs, outputs and
/// lock time, and, where any input has a witness, one for each byte of marker, flag and
/// witnesses.
pub open spec fn transaction_weight(tx: TransactionView) -> nat {
    4 * (4 + varint_len(tx.input.len()) + bases_size(tx.input) + varint_len(tx.output.len())
        + outputs_size(tx.output) + 4) + (if exists|i: int|
        0 <= i < tx.input.len() && (#[trigger] tx.input[i]).witness.len() > 0 {
        2 + witnesses_size(tx.input)
    } else {
        0
    })
}

/// The weight of all that a witness transaction with `n` inputs and one output, with a script of
/// `len` bytes, has besides its inputs.
pub open spec fn frame_weight(n: nat, len: nat) -> nat {
    4 * (4 + varint_len(n) + 1 + output_size(len) + 4) + 2
}

/// The weight of inputs is that of their two parts, and at least that of unsigned ones.
pub proof fn lemma_weight_parts(inputs: Seq<TxInView>)
    ensures
        inputs_weight(inputs) == 4 * bases_size(inputs) + witnesses_size(inputs),
        inputs_weight(inputs) >= UNSIGNED_INPUT_WEIGHT * inputs.len(),
    decreases inputs.len(),
{
    if inputs.len() > 0 {
        lemma_weight_parts(inputs.drop_last());
    }
}

/// The weights of two lists of inputs add up.
pub proof fn lemma_weights_add(first: Seq<TxInView>, second: Seq<TxInView>)
    ensures
        inputs_weight(first + second) == inputs_weight(first) + inputs_weight(second),
    decreases second.len(),
{
    if second.len() == 0 {
        assert(first + second =~= first);
    } else {
        lemma_weights_add(first, second.drop_last());
        assert((first + second).drop_last() =~= first + second.drop_last());
    }
}

/// A transaction with one output weighs no more than its inputs and the rest of a witness
/// transaction.
pub proof fn lemma_framed(tx: TransactionView)
    requires
        tx.output.len() == 1,
    ensures
        transaction_weight(tx) <= frame_weight(
            tx.input.len(),
            tx.output[0].script_pubkey.len(),
        ) + inputs_weight(tx.input),
{
    lemma_weight_parts(tx.input);
    assert(outputs_size(tx.output.drop_last()) == 0);
}

/// A number takes one byte up to 252, three up to 16 bits, five up to 32 bits, and nine above.
pub proof fn lemma_varint_steps(n: nat)
    ensures
        varint_len(n) == 1 <==> n <= 252,
        varint_len(n) == 3 <==> 253 <= n <= 65_535,
        varint_len(n) == 5 <==> 65_536 <= n <= 4_294_967_295,
        varint_len(n) == 9 <==> n >= 4_294_967_296,
{
}

/// An input is the 40 bytes of outpoint and sequence number and its unlocking script with the
/// length of that, and its witness is the number of its items and all of them, each with its
/// length.
pub proof fn lemma_input_parts(input: TxInView)
    ensures
        base_size(input.script_sig) == 40 + varint_len(input.script_sig.len())
            + input.script_sig.len(),
        items_size(input.witness) == input.witness.fold_left(
            0int,
            |sum: int, item: Seq<u8>| sum + varint_len(item.len()) + item.len(),
        ),
        witness_size(input.witness) == varint_len(input.witness.len()) + items_size(input.witness),
        input_weight(input) == 160 + 4 * varint_len(input.script_sig.len()) + 4
            * input.script_sig.len() + witness_size(input.witness),
        weighable(input) <==> witness_size(input.witness) < 0x1_0000_0000 && input_weight(input)
            <= usize::MAX,
{
    lemma_items_sum(input.witness);
}

/// The size of witness items is the sum over all of them.
proof fn lemma_items_sum(items: Seq<Seq<u8>>)
    ensures
        items_size(items) == items.fold_left(
            0int,
            |sum: int, item: Seq<u8>| sum + varint_len(item.len()) + item.len(),
        ),
    decreases items.len(),
{
    if items.len() > 0 {
        lemma_items_sum(items.drop_last());
    }
}

/// The weight of inputs, of their parts and of outputs is the sum over all of them.
pub proof fn lemma_weights_are_sums(inputs: Seq<TxInView>, outputs: Seq<TxOutView>)
    ensures
        inputs_weight(inputs) == inputs.fold_left(
            0int,
            |sum: int, input: TxInView| sum + input_weight(input),
        ),
        bases_size(inputs) == inputs.fold_left(
            0int,
            |sum: int, input: TxInView|
                sum + 40 + varint_len(input.script_sig.len()) + input.script_sig.len(),
        ),
        witnesses_size(inputs) == inputs.fold_left(
            0int,
            |sum: int, input: TxInView| sum + witness_size(input.witness),
        ),
        outputs_size(outputs) == outputs.fold_left(
            0int,
            |sum: int, out: TxOutView|
                sum + 8 + varint_len(out.script_pubkey.len()) + out.script_pubkey.len(),
        ),
    decreases inputs.len() + outputs.len(),
{
    if inputs.len() > 0 {
        lemma_weights_are_sums(inputs.drop_last(), Seq::empty());
    }
    if outputs.len() > 0 {
        lemma_weights_are_sums(Seq::empty(), outputs.drop_last());
    }
}

/// A transaction weighs four units for each byte that is no witness, and one for each byte of
/// its witnesses and the two that announce them, which are there where any input has a witness.
pub proof fn lemma_transaction_weight(tx: TransactionView)
    ensures
        (forall|i: int| 0 <= i < tx.input.len() ==> (#[trigger] tx.input[i]).witness.len() == 0)
            ==> transaction_weight(tx) == 4 * (8 + varint_len(tx.input.len()) + varint_len(
            tx.output.len(),
        ) + bases_size(tx.input) + outputs_size(tx.output)),
        (exists|i: int| 0 <= i < tx.input.len() && (#[trigger] tx.input[i]).witness.len() > 0)
            ==> transaction_weight(tx) == 4 * (8 + varint_len(tx.input.len()) + varint_len(
            tx.output.len(),
        ) + bases_size(tx.input) + outputs_size(tx.output)) + 2 + witnesses_size(tx.input),
        tx.output.len() == 1 && (exists|i: int|
            0 <= i < tx.input.len() && (#[trigger] tx.input[i]).witness.len() > 0)
            ==> transaction_weight(tx) == frame_weight(
            tx.input.len(),
            tx.output[0].script_pubkey.len(),
        ) + inputs_weight(tx.input),
        forall|n: nat, len: nat| #[trigger]
            frame_weight(n, len) == 70 + 4 * varint_len(n) + 4 * varint_len(len) + 4 * len,
{
    lemma_weight_parts(tx.input);
    if tx.output.len() == 1 {
        assert(outputs_size(tx.output.drop_last()) == 0);
    }
}

/// An input that carries neither an unlocking script nor a witness weighs 165 units, and none
/// weighs less.
pub proof fn lemma_unsigned_weight(input: TxInView)
    ensures
        input_weight(input) >= UNSIGNED_INPUT_WEIGHT,
        input_weight(input) == 165 <==> input.script_sig.len() == 0 && input.witness.len() == 0,
        UNSIGNED_INPUT_WEIGHT == 165,
{
}

} // verus!
