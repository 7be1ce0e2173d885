//! Size calculator for dust disposal transactions: script types, multisig configurations,
//! and the burn output that the protocol asks for.
use crate::script::{p2pkh, p2sh, p2tr, p2wpkh, p2wsh};
use crate::size::{varint_len, varint_size, FeeRate, VirtualSize};
use vstd::prelude::*;

verus! {

/// Transaction overhead: version (4), input count (1), output count (1), lock time (4).
pub const OVERHEAD: usize = 10;

/// Witness marker and flag, present in witness transactions only.
pub const WITNESS_HEADER: usize = 2;

/// Size of the empty burn output: amount (8), script length (1), `OP_RETURN OP_0` (2).
pub const OP_RETURN_EMPTY: usize = 11;

/// Size of the "ash" burn output: amount (8), script length (1), `OP_RETURN`, push, "ash" (5).
pub const OP_RETURN_ASH: usize = 14;

/// The smallest base size of a transaction that is relayed.
pub const MIN_BASE_SIZE: usize = 65;

/// Multisig configuration (m-of-n).
#[derive(Debug, Clone, Copy, PartialEq, Eq, Structural)]
pub struct MultisigConfig {
    /// Number of required signatures (m).
    pub required: usize,
    /// Total number of keys (n).
    pub total: usize,
}

impl MultisigConfig {
    /// A standard configuration: at least one signature, no more than there are keys, and
    /// at most 15 keys.
    pub open spec fn wf(self) -> bool {
        0 < self.required <= self.total <= 15
    }

    /// A standard multisig configuration.
    pub fn new(required: usize, total: usize) -> (r: Self)
        requires
            0 < required <= total <= 15,
        ensures
            r.required == required,
            r.total == total,
            r.wf(),
    {
        MultisigConfig { required, total }
    }
}

/// What a P2SH output wraps.
#[derive(Debug, Clone, Copy, PartialEq, Eq, Structural)]
pub enum P2SHInner {
    /// Bare multisig (m-of-n).
    Multisig(MultisigConfig),
    /// Nested SegWit (P2SH-P2WPKH).
    P2WPKH,
    /// Nested SegWit multisig (P2SH-P2WSH).
    P2WSH(MultisigConfig),
}

/// Script type of an input.
#[derive(Debug, Clone, Copy, PartialEq, Eq, Structural)]
pub enum InputType {
    /// Legacy pay-to-public-key-hash.
    P2PKH,
    /// Native SegWit pay-to-witness-public-key-hash.
    P2WPKH,
    /// Taproot (key-path spend).
    P2TR,
    /// Pay-to-script-hash, wrapping one of several scripts.
    P2SH(P2SHInner),
    /// Native SegWit pay-to-witness-script-hash (multisig).
    P2WSH(MultisigConfig),
}

/// Size of a transaction, broken down by category.
#[derive(Debug, Clone, Copy, PartialEq, Eq, Structural)]
pub struct TxSizeBreakdown {
    /// Transaction overhead (version, input and output counts, lock time).
    pub overhead_bytes: usize,
    /// Size of all inputs without their witnesses.
    pub input_base_bytes: usize,
    /// Size of all witnesses.
    pub input_witness_bytes: usize,
    /// Size of the burn output.
    pub output_bytes: usize,
    /// Transaction size without witness data.
    pub base_size: usize,
    /// Transaction size including witness data.
    pub total_size: usize,
    /// Transaction weight in weight units.
    pub weight: usize,
    /// Virtual size.
    pub vsize: VirtualSize,
}

/// An m-of-n script: `OP_m`, n pushes of a 33-byte key, `OP_n`, `OP_CHECKMULTISIG`.
pub open spec fn multisig_script_size(cfg: MultisigConfig) -> nat {
    3 + cfg.total as nat * 34
}

/// The unlocking script of a bare multisig: `OP_0`, m pushes of a 72-byte signature, and the
/// push of the script, which takes a second byte from 76 bytes on.
pub open spec fn multisig_script_sig_size(cfg: MultisigConfig) -> nat {
    let script = multisig_script_size(cfg);
    1 + cfg.required as nat * 73 + (if script > 75 { 2nat } else { 1 }) + script
}

/// Size of a bare multisig input: outpoint (36), unlocking script with its length, sequence (4).
pub open spec fn multisig_base_size(cfg: MultisigConfig) -> nat {
    let script_sig = multisig_script_sig_size(cfg);
    36 + varint_len(script_sig) + script_sig + 4
}

/// A multisig witness: item count (1), the empty item (1), m signatures of 72 bytes with
/// their lengths, and the script with its length.
pub open spec fn multisig_witness_size(cfg: MultisigConfig) -> nat {
    let script = multisig_script_size(cfg);
    1 + 1 + cfg.required as nat * 73 + varint_len(script) + script
}

/// Size of an input without its witness.
pub open spec fn type_base_size(input_type: InputType) -> nat {
    match input_type {
        InputType::P2PKH => 148,
        InputType::P2WPKH => 41,
        InputType::P2TR => 41,
        InputType::P2SH(P2SHInner::Multisig(cfg)) => multisig_base_size(cfg),
        InputType::P2SH(P2SHInner::P2WPKH) => 64,
        InputType::P2SH(P2SHInner::P2WSH(_)) => 76,
        InputType::P2WSH(_) => 41,
    }
}

/// Size of the witness of an input.
pub open spec fn type_witness_size(input_type: InputType) -> nat {
    match input_type {
        InputType::P2PKH => 0,
        InputType::P2WPKH => 108,
        InputType::P2TR => 67,
        InputType::P2SH(P2SHInner::Multisig(_)) => 0,
        InputType::P2SH(P2SHInner::P2WPKH) => 108,
        InputType::P2SH(P2SHInner::P2WSH(cfg)) => multisig_witness_size(cfg),
        InputType::P2WSH(cfg) => multisig_witness_size(cfg),
    }
}

/// Whether an input that spends `script` is of the given type.
pub open spec fn spends_as(script: Seq<u8>, input_type: InputType) -> bool {
    match input_type {
        InputType::P2PKH => p2pkh(script),
        InputType::P2WPKH => p2wpkh(script),
        InputType::P2TR => p2tr(script),
        InputType::P2SH(P2SHInner::P2WPKH) => p2sh(script),
        InputType::P2SH(P2SHInner::Multisig(cfg)) => p2sh(script) && cfg.wf(),
        InputType::P2SH(P2SHInner::P2WSH(cfg)) => p2sh(script) && cfg.wf(),
        InputType::P2WSH(cfg) => p2wsh(script) && cfg.wf(),
    }
}

/// Size of `inputs` without their witnesses.
pub open spec fn types_base_size(inputs: Seq<InputType>) -> nat
    decreases inputs.len(),
{
    if inputs.len() == 0 {
        0
    } else {
        types_base_size(inputs.drop_last()) + type_base_size(inputs.last())
    }
}

/// Size of the witnesses of `inputs`.
pub open spec fn types_witness_size(inputs: Seq<InputType>) -> nat
    decreases inputs.len(),
{
    if inputs.len() == 0 {
        0
    } else {
        types_witness_size(inputs.drop_last()) + type_witness_size(inputs.last())
    }
}

/// The bytes that mark a transaction as a witness transaction.
pub open spec fn witness_header(inputs: Seq<InputType>) -> nat {
    if types_witness_size(inputs) > 0 {
        WITNESS_HEADER as nat
    } else {
        0
    }
}

/// Base size of a transaction that spends `inputs` to an output of `output` bytes.
pub open spec fn tx_base_size(inputs: Seq<InputType>, output: nat) -> nat {
    OVERHEAD as nat + types_base_size(inputs) + output
}

/// Weight of that transaction.
pub open spec fn tx_weight(inputs: Seq<InputType>, output: nat) -> nat {
    4 * tx_base_size(inputs, output) + witness_header(inputs) + types_witness_size(inputs)
}

/// A single witness input needs the "ash" output where the empty one would leave the
/// transaction below the smallest size that is relayed.
pub open spec fn needs_ash(inputs: Seq<InputType>) -> bool {
    &&& inputs.len() == 1
    &&& types_witness_size(inputs) > 0
    &&& tx_base_size(inputs, OP_RETURN_EMPTY as nat) < MIN_BASE_SIZE
}

/// Size of the burn output that the protocol asks for.
pub open spec fn burn_output_size(inputs: Seq<InputType>) -> nat {
    if needs_ash(inputs) {
        OP_RETURN_ASH as nat
    } else {
        OP_RETURN_EMPTY as nat
    }
}

impl TxSizeBreakdown {
    /// Whether this is the breakdown of a transaction that spends `inputs` to an output of
    /// `output` bytes.
    pub open spec fn describes(self, inputs: Seq<InputType>, output: nat) -> bool {
        &&& self.overhead_bytes == OVERHEAD
        &&& self.input_base_bytes == types_base_size(inputs)
        &&& self.input_witness_bytes == types_witness_size(inputs)
        &&& self.output_bytes == output
        &&& self.base_size == tx_base_size(inputs, output)
        &&& self.total_size == tx_base_size(inputs, output) + witness_header(inputs)
            + types_witness_size(inputs)
        &&& self.weight == tx_weight(inputs, output)
        &&& self.vsize.quarters == tx_weight(inputs, output)
    }

    /// Whether the transaction reaches the smallest base size that is relayed.
    pub fn meets_min_size(&self) -> (r: bool)
        ensures
            r == (self.base_size >= MIN_BASE_SIZE),
    {
        self.base_size >= MIN_BASE_SIZE
    }

    /// The fee rate at which `input_sats` satoshis pay for the transaction.
    pub fn fee_rate(&self, input_sats: u64) -> (r: FeeRate)
        ensures
            r.sats == input_sats,
            r.vsize == self.vsize,
    {
        FeeRate { sats: input_sats, vsize: self.vsize }
    }

    /// The fewest satoshis that pay for the transaction at the rate `target_rate`, or the
    /// largest integer where more are needed than it can say.
    pub fn min_sats_for_rate(&self, target_rate: FeeRate) -> (r: u64)
        requires
            target_rate.vsize.quarters > 0,
        ensures
            r == u64::MAX || r * target_rate.vsize.quarters >= target_rate.sats
                * self.vsize.quarters,
            r == 0 || (r - 1) * target_rate.vsize.quarters < target_rate.sats
                * self.vsize.quarters,
    {
        let sats: u64 = target_rate.sats;
        let size: u64 = self.vsize.quarters;
        let unit: u128 = target_rate.vsize.quarters as u128;
        assert(sats * size <= 0xffff_ffff_ffff_ffff * 0xffff_ffff_ffff_ffff) by (nonlinear_arith)
            requires
                sats <= 0xffff_ffff_ffff_ffff,
                size <= 0xffff_ffff_ffff_ffff,
        ;
        let due: u128 = sats as u128 * size as u128;
        let needed: u128 = (due + (unit - 1)) / unit;
        assert(needed * unit >= due && (needed == 0 || (needed - 1) * unit < due)) by (
            nonlinear_arith)
            requires
                unit > 0,
                needed == (due + (unit - 1)) / (unit as int),
        ;
        if needed <= u64::MAX as u128 {
            needed as u64
        } else {
            assert((u64::MAX - 1) * unit < due) by (nonlinear_arith)
                requires
                    needed > u64::MAX,
                    unit > 0,
                    (needed - 1) * unit < due,
            ;
            u64::MAX
        }
    }
}

/// Size of a bare multisig input.
fn p2sh_multisig_base_size(cfg: &MultisigConfig) -> (r: usize)
    requires
        multisig_base_size(*cfg) <= usize::MAX,
    ensures
        r == multisig_base_size(*cfg),
{
    let redeem_script_size: usize = 3 + cfg.total * 34;
    let redeem_script_push: usize = if redeem_script_size > 75 {
        2
    } else {
        1
    };
    let scriptsig_size: usize = 1 + cfg.required * 73 + redeem_script_push + redeem_script_size;
    let scriptsig_len_varint: usize = varint_size(scriptsig_size as u64) as usize;
    36 + scriptsig_len_varint + scriptsig_size + 4
}

/// Size of a multisig witness.
fn p2wsh_witness_size(cfg: &MultisigConfig) -> (r: usize)
    requires
        multisig_witness_size(*cfg) <= usize::MAX,
    ensures
        r == multisig_witness_size(*cfg),
{
    let witness_script_size: usize = 3 + cfg.total * 34;
    let witness_script_len_varint: usize = varint_size(witness_script_size as u64) as usize;
    1 + 1 + cfg.required * 73 + witness_script_len_varint + witness_script_size
}

/// Size of an input without its witness.
pub fn input_base_size(input_type: &InputType) -> (r: usize)
    requires
        type_base_size(*input_type) <= usize::MAX,
    ensures
        r == type_base_size(*input_type),
{
    match input_type {
        // outpoint (36), length (1), signature, key and their pushes (107), sequence (4)
        InputType::P2PKH => 148,
        // outpoint (36), empty unlocking script (1), sequence (4)
        InputType::P2WPKH => 41,
        InputType::P2TR => 41,
        InputType::P2SH(inner) => match inner {
            P2SHInner::Multisig(cfg) => p2sh_multisig_base_size(cfg),
            // outpoint (36), length (1), redeem script (23), sequence (4)
            P2SHInner::P2WPKH => 64,
            // outpoint (36), length (1), redeem script (35), sequence (4)
            P2SHInner::P2WSH(_) => 76,
        },
        InputType::P2WSH(_) => 41,
    }
}

/// Size of the witness of an input.
pub fn input_witness_size(input_type: &InputType) -> (r: usize)
    requires
        type_witness_size(*input_type) <= usize::MAX,
    ensures
        r == type_witness_size(*input_type),
{
    match input_type {
        InputType::P2PKH => 0,
        // item count (1), signature with its length (73), key with its length (34)
        InputType::P2WPKH => 108,
        // item count (1), length (1), signature (64), hash type (1)
        InputType::P2TR => 67,
        InputType::P2SH(inner) => match inner {
            P2SHInner::Multisig(_) => 0,
            P2SHInner::P2WPKH => 108,
            P2SHInner::P2WSH(cfg) => p2wsh_witness_size(cfg),
        },
        InputType::P2WSH(cfg) => p2wsh_witness_size(cfg),
    }
}

/// A prefix of the inputs is no larger than all of them, and one more input adds its size.
proof fn lemma_prefix_sizes(inputs: Seq<InputType>, n: int)
    requires
        0 <= n <= inputs.len(),
    ensures
        types_base_size(inputs.take(n)) <= types_base_size(inputs),
        types_witness_size(inputs.take(n)) <= types_witness_size(inputs),
        n > 0 ==> types_base_size(inputs.take(n)) == types_base_size(inputs.take(n - 1))
            + type_base_size(inputs[n - 1]),
        n > 0 ==> types_witness_size(inputs.take(n)) == types_witness_size(inputs.take(n - 1))
            + type_witness_size(inputs[n - 1]),
    decreases inputs.len() - n,
{
    if n > 0 {
        assert(inputs.take(n).drop_last() =~= inputs.take(n - 1));
    }
    if n < inputs.len() {
        lemma_prefix_sizes(inputs, n + 1);
    } else {
        assert(inputs.take(n) =~= inputs);
    }
}

/// Calculator for the size of a dust disposal transaction.
#[derive(Debug)]
pub struct TxSizeCalculator {
    inputs: Vec<InputType>,
}

impl View for TxSizeCalculator {
    type V = Seq<InputType>;

    closed spec fn view(&self) -> Seq<InputType> {
        self.inputs@
    }
}

impl Clone for TxSizeCalculator {
    fn clone(&self) -> (r: Self)
        ensures
            r@ == self@,
    {
        let mut inputs: Vec<InputType> = Vec::new();
        for i in 0..self.inputs.len()
            invariant
                inputs@ == self.inputs@.take(i as int),
        {
            inputs.push(self.inputs[i]);
            assert(inputs@ =~= self.inputs@.take(i + 1));
        }
        assert(inputs@ =~= self.inputs@);
        TxSizeCalculator { inputs }
    }
}

impl Default for TxSizeCalculator {
    fn default() -> (r: Self)
        ensures
            r@ == Seq::<InputType>::empty(),
    {
        TxSizeCalculator::new()
    }
}

impl TxSizeCalculator {
    /// A calculator for a transaction without inputs.
    pub fn new() -> (r: Self)
        ensures
            r@ == Seq::<InputType>::empty(),
            types_base_size(r@) == 0,
            types_witness_size(r@) == 0,
    {
        TxSizeCalculator { inputs: Vec::new() }
    }

    /// Adds an input of the given type.
    pub fn add_input(self, input_type: InputType) -> (r: Self)
        ensures
            r@ == self@.push(input_type),
            types_base_size(r@) == types_base_size(self@) + type_base_size(input_type),
            types_witness_size(r@) == types_witness_size(self@) + type_witness_size(input_type),
    {
        let mut inputs = self.inputs;
        inputs.push(input_type);
        assert(inputs@.drop_last() =~= self@);
        TxSizeCalculator { inputs }
    }

    /// Adds `count` inputs of the given type.
    pub fn add_inputs(self, input_type: InputType, count: usize) -> (r: Self)
        ensures
            r@ == self@ + Seq::new(count as nat, |i: int| input_type),
            types_base_size(r@) == types_base_size(self@) + count * type_base_size(input_type),
            types_witness_size(r@) == types_witness_size(self@) + count * type_witness_size(
                input_type,
            ),
    {
        let ghost before = self@;
        let ghost base = type_base_size(input_type);
        let ghost witness = type_witness_size(input_type);
        let mut inputs = self.inputs;
        assert(inputs@ =~= before + Seq::new(0, |i: int| input_type));
        for n in 0..count
            invariant
                inputs@ == before + Seq::new(n as nat, |i: int| input_type),
                base == type_base_size(input_type),
                witness == type_witness_size(input_type),
                types_base_size(inputs@) == types_base_size(before) + n * base,
                types_witness_size(inputs@) == types_witness_size(before) + n * witness,
        {
            let ghost old_inputs = inputs@;
            inputs.push(input_type);
            proof {
                assert(inputs@.drop_last() =~= old_inputs);
                assert(inputs@ =~= before + Seq::new((n + 1) as nat, |i: int| input_type));
                assert((n + 1) * base == n * base + base) by (nonlinear_arith);
                assert((n + 1) * witness == n * witness + witness) by (nonlinear_arith);
            }
        }
        TxSizeCalculator { inputs }
    }

    /// Size of all inputs without their witnesses, and size of all witnesses.
    fn input_sizes(&self) -> (r: (usize, usize))
        requires
            types_base_size(self@) <= usize::MAX,
            types_witness_size(self@) <= usize::MAX,
        ensures
            r.0 == types_base_size(self@),
            r.1 == types_witness_size(self@),
    {
        let mut base: usize = 0;
        let mut witness: usize = 0;
        assert(self@.take(0) =~= Seq::<InputType>::empty());
        for i in 0..self.inputs.len()
            invariant
                self.inputs@ == self@,
                types_base_size(self@) <= usize::MAX,
                types_witness_size(self@) <= usize::MAX,
                base == types_base_size(self@.take(i as int)),
                witness == types_witness_size(self@.take(i as int)),
        {
            proof {
                lemma_prefix_sizes(self@, i + 1);
            }
            base = base + input_base_size(&self.inputs[i]);
            witness = witness + input_witness_size(&self.inputs[i]);
        }
        assert(self@.take(self@.len() as int) =~= self@);
        (base, witness)
    }

    /// The size of the transaction, with the burn output that the protocol asks for.
    pub fn calculate(&self) -> (r: TxSizeBreakdown)
        requires
            self@.len() > 0,
            tx_weight(self@, burn_output_size(self@)) <= usize::MAX,
        ensures
            r.describes(self@, burn_output_size(self@)),
    {
        let (input_base, input_witness) = self.input_sizes();
        let has_witness = input_witness > 0;
        let base_with_empty: usize = OVERHEAD + input_base + OP_RETURN_EMPTY;
        let needs_padding = self.inputs.len() == 1 && has_witness && base_with_empty
            < MIN_BASE_SIZE;
        let output_bytes: usize = if needs_padding {
            OP_RETURN_ASH
        } else {
            OP_RETURN_EMPTY
        };
        self.build_breakdown(input_base, input_witness, output_bytes, has_witness)
    }

    /// The size of the transaction with the "ash" output or with the empty one.
    pub fn calculate_with_op_return(&self, use_ash: bool) -> (r: TxSizeBreakdown)
        requires
            self@.len() > 0,
            tx_weight(
                self@,
                if use_ash {
                    OP_RETURN_ASH as nat
                } else {
                    OP_RETURN_EMPTY as nat
                },
            ) <= usize::MAX,
        ensures
            r.describes(
                self@,
                if use_ash {
                    OP_RETURN_ASH as nat
                } else {
                    OP_RETURN_EMPTY as nat
                },
            ),
    {
        let (input_base, input_witness) = self.input_sizes();
        let has_witness = input_witness > 0;
        let output_bytes: usize = if use_ash {
            OP_RETURN_ASH
        } else {
            OP_RETURN_EMPTY
        };
        self.build_breakdown(input_base, input_witness, output_bytes, has_witness)
    }

    /// The virtual size that the inputs alone add to a transaction.
    pub fn input_vsize(&self) -> (r: VirtualSize)
        requires
            4 * types_base_size(self@) + types_witness_size(self@) <= usize::MAX,
        ensures
            r.quarters == 4 * types_base_size(self@) + types_witness_size(self@),
    {
        let (input_base, input_witness) = self.input_sizes();
        let input_weight: usize = input_base * 4 + input_witness;
        VirtualSize { quarters: input_weight as u64 }
    }

    /// The virtual size of one input.
    pub fn single_input_vsize(input_type: InputType) -> (r: VirtualSize)
        requires
            4 * type_base_size(input_type) + type_witness_size(input_type) <= usize::MAX,
        ensures
            r.quarters == 4 * type_base_size(input_type) + type_witness_size(input_type),
    {
        let base: usize = input_base_size(&input_type);
        let witness: usize = input_witness_size(&input_type);
        let weight: usize = base * 4 + witness;
        VirtualSize { quarters: weight as u64 }
    }

    fn build_breakdown(
        &self,
        input_base: usize,
        input_witness: usize,
        output_bytes: usize,
        has_witness: bool,
    ) -> (r: TxSizeBreakdown)
        requires
            input_base == types_base_size(self@),
            input_witness == types_witness_size(self@),
            has_witness == (input_witness > 0),
            tx_weight(self@, output_bytes as nat) <= usize::MAX,
        ensures
            r.describes(self@, output_bytes as nat),
    {
        let base_size: usize = OVERHEAD + input_base + output_bytes;
        let witness_overhead: usize = if has_witness {
            WITNESS_HEADER
        } else {
            0
        };
        let total_size: usize = base_size + witness_overhead + input_witness;
        // a byte outside the witnesses weighs four units, a witness byte one
        let weight: usize = base_size * 4 + witness_overhead + input_witness;
        TxSizeBreakdown {
            overhead_bytes: OVERHEAD,
            input_base_bytes: input_base,
            input_witness_bytes: input_witness,
            output_bytes,
            base_size,
            total_size,
            weight,
            vsize: VirtualSize { quarters: weight as u64 },
        }
    }
}

/// Inputs are at least 41 bytes without their witnesses.
proof fn lemma_base_at_least(inputs: Seq<InputType>)
    ensures
        types_base_size(inputs) >= 41 * inputs.len(),
    decreases inputs.len(),
{
    if inputs.len() > 0 {
        lemma_base_at_least(inputs.drop_last());
    }
}

/// With the burn output that the protocol asks for, every transaction reaches the smallest
/// base size that is relayed. With the empty one, exactly those that need "ash" do not.
pub proof fn lemma_meets_min_size(inputs: Seq<InputType>)
    requires
        inputs.len() > 0,
    ensures
        tx_base_size(inputs, burn_output_size(inputs)) >= MIN_BASE_SIZE,
        needs_ash(inputs) <==> tx_base_size(inputs, OP_RETURN_EMPTY as nat) < MIN_BASE_SIZE,
{
    lemma_base_at_least(inputs);
    if inputs.len() == 1 {
        let rest = inputs.drop_last();
        assert(types_base_size(rest) == 0 && types_witness_size(rest) == 0);
    }
}

/// The sizes of two lists of inputs add up.
proof fn lemma_sizes_add(first: Seq<InputType>, second: Seq<InputType>)
    ensures
        types_base_size(first + second) == types_base_size(first) + types_base_size(second),
        types_witness_size(first + second) == types_witness_size(first) + types_witness_size(
            second,
        ),
    decreases second.len(),
{
    if second.len() == 0 {
        assert(first + second =~= first);
    } else {
        lemma_sizes_add(first, second.drop_last());
        assert((first + second).drop_last() =~= first + second.drop_last());
    }
}

/// Merging two transactions saves the overhead and the burn output of one of them.
pub proof fn lemma_merging_saves(first: Seq<InputType>, second: Seq<InputType>, output: nat)
    ensures
        tx_weight(first + second, output) + 4 * (OVERHEAD + output) <= tx_weight(first, output)
            + tx_weight(second, output),
{
    lemma_sizes_add(first, second);
}

/// The sizes of inputs, byte by byte: outpoint and sequence number are 40 bytes, signatures 72
/// with one more for their length, keys 33 with one more, and an m-of-n script is 34 bytes for
/// each key and three more.
pub proof fn lemma_type_sizes(cfg: MultisigConfig)
    ensures
        type_base_size(InputType::P2PKH) == 40 + 1 + 73 + 34 && type_witness_size(InputType::P2PKH)
            == 0,
        type_base_size(InputType::P2WPKH) == 40 + 1 && type_witness_size(InputType::P2WPKH) == 1
            + 73 + 34,
        type_base_size(InputType::P2TR) == 40 + 1 && type_witness_size(InputType::P2TR) == 1 + 1
            + 64 + 1,
        type_base_size(InputType::P2SH(P2SHInner::P2WPKH)) == 40 + 1 + 23 && type_witness_size(
            InputType::P2SH(P2SHInner::P2WPKH),
        ) == type_witness_size(InputType::P2WPKH),
        type_base_size(InputType::P2SH(P2SHInner::P2WSH(cfg))) == 40 + 1 + 35 && type_witness_size(
            InputType::P2SH(P2SHInner::P2WSH(cfg)),
        ) == type_witness_size(InputType::P2WSH(cfg)),
        type_base_size(InputType::P2WSH(cfg)) == 40 + 1,
        type_witness_size(InputType::P2WSH(cfg)) == 2 + 73 * cfg.required + varint_len(
            (34 * cfg.total + 3) as nat,
        ) + 34 * cfg.total + 3,
        type_witness_size(InputType::P2SH(P2SHInner::Multisig(cfg))) == 0,
        ({
            let script = 34 * cfg.total + 3;
            let unlock = 1 + 73 * cfg.required + (if script >= 76 {
                2int
            } else {
                1
            }) + script;
            type_base_size(InputType::P2SH(P2SHInner::Multisig(cfg))) == 40 + varint_len(
                unlock as nat,
            ) + unlock
        }),
{
    assert(cfg.total as nat * 34 == 34 * cfg.total) by (nonlinear_arith);
    assert(cfg.required as nat * 73 == 73 * cfg.required) by (nonlinear_arith);
}

/// The sizes of inputs together are the sums over all of them.
pub proof fn lemma_sizes_are_sums(inputs: Seq<InputType>)
    ensures
        types_base_size(inputs) == inputs.fold_left(
            0int,
            |sum: int, t: InputType| sum + type_base_size(t),
        ),
        types_witness_size(inputs) == inputs.fold_left(
            0int,
            |sum: int, t: InputType| sum + type_witness_size(t),
        ),
    decreases inputs.len(),
{
    if inputs.len() > 0 {
        lemma_sizes_are_sums(inputs.drop_last());
    }
}

/// The sizes of a transaction: ten bytes besides its inputs and its output, two more where there
/// is any witness, four weight units for a byte that is no witness and one for each other. The
/// burn output is 14 bytes for a single witness input with which 11 would leave less than 65 bytes
/// without the witness, and else 11.
pub proof fn lemma_tx_sizes(inputs: Seq<InputType>, output: nat)
    ensures
        tx_base_size(inputs, output) == 10 + types_base_size(inputs) + output,
        types_witness_size(inputs) > 0 ==> tx_weight(inputs, output) == 4 * (10 + types_base_size(
            inputs,
        ) + output) + 2 + types_witness_size(inputs),
        types_witness_size(inputs) == 0 ==> tx_weight(inputs, output) == 4 * (10
            + types_base_size(inputs) + output),
        burn_output_size(inputs) == if inputs.len() == 1 && types_witness_size(inputs) > 0 && 10
            + types_base_size(inputs) + 11 < 65 {
            14nat
        } else {
            11
        },
        needs_ash(inputs) <==> burn_output_size(inputs) == 14,
        OVERHEAD == 10 && WITNESS_HEADER == 2 && OP_RETURN_EMPTY == 11 && OP_RETURN_ASH == 14
            && MIN_BASE_SIZE == 65,
{
}

/// What a breakdown says of a transaction.
pub proof fn lemma_breakdown_says(size: TxSizeBreakdown, inputs: Seq<InputType>, output: nat)
    requires
        size.describes(inputs, output),
    ensures
        size.overhead_bytes == 10,
        size.input_base_bytes == types_base_size(inputs),
        size.input_witness_bytes == types_witness_size(inputs),
        size.output_bytes == output,
        size.base_size == size.overhead_bytes + size.input_base_bytes + size.output_bytes,
        size.total_size == size.base_size + size.input_witness_bytes + (if size.input_witness_bytes
            > 0 {
            2int
        } else {
            0
        }),
        size.weight == 3 * size.base_size + size.total_size,
        size.vsize.quarters == size.weight,
{
}

/// A standard configuration, and no other, has one to fifteen keys and needs one signature at
/// least and one of each key at most.
pub proof fn lemma_config_is(cfg: MultisigConfig)
    ensures
        cfg.wf() <==> cfg.required >= 1 && cfg.required <= cfg.total && cfg.total < 16,
{
}

} // verus!
