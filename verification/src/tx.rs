//! Transactions as plain values: what the disposal rules read and what they hand on.
use bdk_wallet::bitcoin::absolute::LockTime;
use bdk_wallet::bitcoin::transaction::Version;
use bdk_wallet::bitcoin::{self, hashes, Amount, ScriptBuf, Sequence};
use vstd::prelude::*;

verus! {

/// A reference to one output of a transaction.
#[derive(Clone, Copy, PartialEq, Eq, Debug)]
pub struct OutPoint {
    /// Hash of the transaction, in internal byte order.
    pub txid: [u8; 32],
    /// Index of the output.
    pub vout: u32,
}

/// A transaction output.
#[derive(Debug)]
pub struct TxOut {
    /// Value in satoshis.
    pub value: u64,
    /// The script that locks the output.
    pub script_pubkey: Vec<u8>,
}

/// A transaction input.
#[derive(Debug)]
pub struct TxIn {
    /// The output that is spent.
    pub previous_output: OutPoint,
    /// The unlocking script of a legacy input.
    pub script_sig: Vec<u8>,
    /// The sequence number.
    pub sequence: u32,
    /// The witness stack of a segwit input, bottom first.
    pub witness: Vec<Vec<u8>>,
}

/// A transaction.
#[derive(Debug)]
pub struct Transaction {
    pub version: i32,
    pub lock_time: u32,
    pub input: Vec<TxIn>,
    pub output: Vec<TxOut>,
}

/// What a [`TxOut`] holds.
#[verifier::ext_equal]
pub struct TxOutView {
    pub value: u64,
    pub script_pubkey: Seq<u8>,
}

/// What a [`TxIn`] holds.
#[verifier::ext_equal]
pub struct TxInView {
    pub previous_output: OutPoint,
    pub script_sig: Seq<u8>,
    pub sequence: u32,
    pub witness: Seq<Seq<u8>>,
}

/// What a [`Transaction`] holds.
#[verifier::ext_equal]
pub struct TransactionView {
    pub version: i32,
    pub lock_time: u32,
    pub input: Seq<TxInView>,
    pub output: Seq<TxOutView>,
}

/// The contents of each element of `items`.
pub open spec fn stack(items: Seq<Vec<u8>>) -> Seq<Seq<u8>> {
    Seq::new(items.len(), |i: int| items[i]@)
}

/// The contents of each transaction of `txs`.
pub open spec fn contents(txs: Seq<Transaction>) -> Seq<TransactionView> {
    Seq::new(txs.len(), |i: int| txs[i]@)
}

impl View for TxOut {
    type V = TxOutView;

    open spec fn view(&self) -> TxOutView {
        TxOutView { value: self.value, script_pubkey: self.script_pubkey@ }
    }
}

impl View for TxIn {
    type V = TxInView;

    open spec fn view(&self) -> TxInView {
        TxInView {
            previous_output: self.previous_output,
            script_sig: self.script_sig@,
            sequence: self.sequence,
            witness: stack(self.witness@),
        }
    }
}

impl View for Transaction {
    type V = TransactionView;

    open spec fn view(&self) -> TransactionView {
        TransactionView {
            version: self.version,
            lock_time: self.lock_time,
            input: Seq::new(self.input@.len(), |i: int| self.input@[i]@),
            output: Seq::new(self.output@.len(), |i: int| self.output@[i]@),
        }
    }
}

/// Copies a byte string.
pub fn copy_bytes(bytes: &Vec<u8>) -> (r: Vec<u8>)
    ensures
        r@ == bytes@,
{
    let r = bytes.clone();
    assert(r@ =~= bytes@);
    r
}

/// Copies a witness stack.
pub fn copy_stack(items: &Vec<Vec<u8>>) -> (r: Vec<Vec<u8>>)
    ensures
        stack(r@) == stack(items@),
{
    let mut r: Vec<Vec<u8>> = Vec::new();
    for i in 0..items.len()
        invariant
            r@.len() == i,
            forall|j: int| 0 <= j < i ==> #[trigger] r@[j]@ == items@[j]@,
    {
        r.push(copy_bytes(&items[i]));
    }
    assert(stack(r@) =~= stack(items@));
    r
}

/// Whether two byte strings are equal.
pub fn same_bytes(a: &[u8], b: &[u8]) -> (r: bool)
    ensures
        r == (a@ == b@),
{
    if a.len() != b.len() {
        return false;
    }
    for i in 0..a.len()
        invariant
            a@.len() == b@.len(),
            forall|j: int| 0 <= j < i ==> a@[j] == b@[j],
    {
        if a[i] != b[i] {
            return false;
        }
    }
    assert(a@ =~= b@);
    true
}

impl Clone for TxOut {
    fn clone(&self) -> (r: Self)
        ensures
            r@ == self@,
    {
        TxOut { value: self.value, script_pubkey: copy_bytes(&self.script_pubkey) }
    }
}

impl Clone for TxIn {
    fn clone(&self) -> (r: Self)
        ensures
            r@ == self@,
    {
        TxIn {
            previous_output: self.previous_output,
            script_sig: copy_bytes(&self.script_sig),
            sequence: self.sequence,
            witness: copy_stack(&self.witness),
        }
    }
}

impl Clone for Transaction {
    fn clone(&self) -> (r: Self)
        ensures
            r@ == self@,
    {
        let mut input: Vec<TxIn> = Vec::new();
        for i in 0..self.input.len()
            invariant
                input@.len() == i,
                forall|j: int| 0 <= j < i ==> #[trigger] input@[j]@ == self.input@[j]@,
        {
            input.push(self.input[i].clone());
        }
        let mut output: Vec<TxOut> = Vec::new();
        for i in 0..self.output.len()
            invariant
                output@.len() == i,
                forall|j: int| 0 <= j < i ==> #[trigger] output@[j]@ == self.output@[j]@,
        {
            output.push(self.output[i].clone());
        }
        let r = Transaction { version: self.version, lock_time: self.lock_time, input, output };
        assert(r@.input =~= self@.input);
        assert(r@.output =~= self@.output);
        r
    }
}

/// `tx` without its witnesses.
pub open spec fn stripped(tx: TransactionView) -> TransactionView {
    TransactionView {
        version: tx.version,
        lock_time: tx.lock_time,
        input: Seq::new(
            tx.input.len(),
            |i: int|
                TxInView {
                    previous_output: tx.input[i].previous_output,
                    script_sig: tx.input[i].script_sig,
                    sequence: tx.input[i].sequence,
                    witness: Seq::empty(),
                },
        ),
        output: tx.output,
    }
}

/// The hash that `bitcoin::Transaction::compute_txid` gives a transaction, in internal byte
/// order.
pub uninterp spec fn tx_id(tx: TransactionView) -> Seq<u8>;

/// `bitcoin::Transaction::compute_txid`. It hashes all of a transaction but its witnesses, so
/// these are not handed on.
#[verifier::external_body]
fn txid_of(tx: &Transaction) -> (r: [u8; 32])
    ensures
        r@ == tx_id(stripped(tx@)),
{
    let at = |o: &OutPoint| bitcoin::OutPoint::new(hashes::Hash::from_byte_array(o.txid), o.vout);
    let input = tx.input.iter().map(|from| bitcoin::TxIn {
        previous_output: at(&from.previous_output),
        script_sig: ScriptBuf::from_bytes(from.script_sig.to_vec()),
        sequence: Sequence(from.sequence),
        witness: Default::default(),
    }).collect();
    let output = tx.output.iter().map(|from| bitcoin::TxOut {
        value: Amount::from_sat(from.value),
        script_pubkey: ScriptBuf::from_bytes(from.script_pubkey.to_vec()),
    }).collect();
    let lock_time = LockTime::from_consensus(tx.lock_time);
    let tx = bitcoin::Transaction { version: Version(tx.version), lock_time, input, output };
    hashes::Hash::to_byte_array(tx.compute_txid())
}

/// The id of each of `txs`, under which a node knows it. Witnesses do not change it.
pub fn tx_ids(txs: &Vec<Transaction>) -> (r: Vec<[u8; 32]>)
    ensures
        r@.len() == txs@.len(),
        forall|i: int|
            0 <= i < txs@.len() ==> (#[trigger] r@[i])@ == tx_id(stripped(contents(txs@)[i])),
{
    let mut ids: Vec<[u8; 32]> = Vec::new();
    for i in 0..txs.len()
        invariant
            ids@.len() == i,
            forall|j: int|
                0 <= j < i ==> (#[trigger] ids@[j])@ == tx_id(stripped(contents(txs@)[j])),
    {
        ids.push(txid_of(&txs[i]));
    }
    ids
}

/// What an output holds is what its fields hold.
pub proof fn lemma_txout_fields(out: TxOut)
    ensures
        out@.value == out.value,
        out@.script_pubkey == out.script_pubkey@,
{
}

/// What an input holds is what its fields hold, the witness item by item.
pub proof fn lemma_txin_fields(input: TxIn)
    ensures
        input@.previous_output == input.previous_output,
        input@.script_sig == input.script_sig@,
        input@.sequence == input.sequence,
        input@.witness.len() == input.witness@.len(),
        forall|i: int|
            0 <= i < input.witness@.len() ==> #[trigger] input@.witness[i] == input.witness@[i]@,
{
}

/// What a transaction holds is what its fields hold, input by input and output by output.
pub proof fn lemma_transaction_fields(tx: Transaction)
    ensures
        tx@.version == tx.version,
        tx@.lock_time == tx.lock_time,
        tx@.input.len() == tx.input@.len(),
        forall|i: int| 0 <= i < tx.input@.len() ==> #[trigger] tx@.input[i] == tx.input@[i]@,
        tx@.output.len() == tx.output@.len(),
        forall|i: int| 0 <= i < tx.output@.len() ==> #[trigger] tx@.output[i] == tx.output@[i]@,
{
}

/// The contents of lists are those of their elements, each at its place.
pub proof fn lemma_tx_lists(items: Seq<Vec<u8>>, txs: Seq<Transaction>)
    ensures
        stack(items).len() == items.len(),
        forall|i: int| 0 <= i < items.len() ==> #[trigger] stack(items)[i] == items[i]@,
        contents(txs).len() == txs.len(),
        forall|i: int| 0 <= i < txs.len() ==> #[trigger] contents(txs)[i] == txs[i]@,
{
}

/// The id of a transaction goes by all it holds but the witnesses: two that differ in nothing
/// else have the same one.
pub proof fn lemma_id_without_witness(tx: TransactionView, other: TransactionView)
    ensures
        stripped(tx) == stripped(other) <==> {
            &&& tx.version == other.version
            &&& tx.lock_time == other.lock_time
            &&& tx.output == other.output
            &&& tx.input.len() == other.input.len()
            &&& forall|i: int|
                0 <= i < tx.input.len() ==> (#[trigger] tx.input[i]).previous_output
                    == other.input[i].previous_output && tx.input[i].script_sig
                    == other.input[i].script_sig && tx.input[i].sequence
                    == other.input[i].sequence
        },
        (forall|i: int| 0 <= i < tx.input.len() ==> (#[trigger] tx.input[i]).witness.len() == 0)
            ==> stripped(tx) == tx,
        stripped(stripped(tx)) == stripped(tx),
{
    let (a, b) = (stripped(tx), stripped(other));
    if a == b {
        assert forall|i: int| 0 <= i < tx.input.len() implies (
        #[trigger] tx.input[i]).previous_output == other.input[i].previous_output
            && tx.input[i].script_sig == other.input[i].script_sig && tx.input[i].sequence
            == other.input[i].sequence by {
            assert(a.input[i] == b.input[i]);
        }
    }
    if tx.input.len() == other.input.len() && forall|i: int|
        0 <= i < tx.input.len() ==> (#[trigger] tx.input[i]).previous_output
            == other.input[i].previous_output && tx.input[i].script_sig
            == other.input[i].script_sig && tx.input[i].sequence == other.input[i].sequence {
        assert(a.input =~= b.input);
    }
    if forall|i: int| 0 <= i < tx.input.len() ==> (#[trigger] tx.input[i]).witness.len() == 0 {
        assert forall|i: int| 0 <= i < tx.input.len() implies a.input[i]
            == #[trigger] tx.input[i] by {
            assert(a.input[i].witness =~= tx.input[i].witness);
        }
        assert(a.input =~= tx.input);
    }
    assert(stripped(a).input =~= a.input);
}

} // verus!
