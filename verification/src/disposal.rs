//! Recognising dust disposal transactions: one burn output, and every input signed so that
//! anyone may add inputs to the transaction.
use crate::lists::{lemma_filter_contains, lemma_filter_none};
use crate::script::{
    ecdsa_sighash_type, instructions, is_op_return, op_return, pushes, script_instructions,
    signature_sighash_type,
};
use crate::tx::{
    contents, copy_bytes, same_bytes, stack, Transaction, TransactionView, TxIn, TxInView,
};
use vstd::prelude::*;

verus! {

/// The signature hash type `ALL|ANYONECANPAY`.
pub const ALL_ANYONE_CAN_PAY: u8 = 0x81;

/// The data that pads a disposal transaction up to the smallest size that is relayed: "ash".
pub open spec fn ash() -> Seq<u8> {
    seq![0x61u8, 0x73u8, 0x68u8]
}

/// `OP_RETURN OP_0`.
pub open spec fn empty_burn_script() -> Seq<u8> {
    seq![0x6au8, 0x00u8]
}

/// `OP_RETURN` and a push of "ash".
pub open spec fn ash_burn_script() -> Seq<u8> {
    seq![0x6au8, 0x03u8, 0x61u8, 0x73u8, 0x68u8]
}

/// A taproot signature with an explicit hash type, which is `ALL|ANYONECANPAY`.
pub open spec fn taproot_signed(item: Seq<u8>) -> bool {
    item.len() == 65 && item[64] == ALL_ANYONE_CAN_PAY
}

/// An ECDSA signature whose hash type is `ALL|ANYONECANPAY`, given the hash type that it
/// parses with. Its usual lengths tell it too. An item of 64 bytes is a taproot signature with
/// the default hash type, whatever its bytes parse as.
pub open spec fn ecdsa_signed_as(item: Seq<u8>, hash_type: Option<u32>) -> bool {
    ||| 71 <= item.len() <= 73 && item.last() == ALL_ANYONE_CAN_PAY
    ||| item.len() != 64 && hash_type == Some(ALL_ANYONE_CAN_PAY as u32)
}

/// An ECDSA signature whose hash type is `ALL|ANYONECANPAY`.
pub open spec fn ecdsa_signed(item: Seq<u8>) -> bool {
    ecdsa_signed_as(item, ecdsa_sighash_type(item))
}

/// Whether `item` starts as a DER signature does, with the tag of a sequence.
pub open spec fn starts_der(item: Seq<u8>) -> bool {
    item.len() > 0 && item[0] == 0x30
}

/// A witness without its annex, which stands last, behind another item, and starts with 0x50.
pub open spec fn without_annex(witness: Seq<Seq<u8>>) -> Seq<Seq<u8>> {
    if witness.len() >= 2 && witness.last().len() > 0 && witness.last()[0] == 0x50 {
        witness.drop_last()
    } else {
        witness
    }
}

/// Whether `item` is as long as a control block, which a taproot script-path witness ends with.
pub open spec fn control_block(item: Seq<u8>) -> bool {
    item.len() >= 33 && (item.len() - 33) % 32 == 0
}

/// Whether `item`, where it is as long as a taproot signature, has the hash type
/// `ALL|ANYONECANPAY`.
pub open spec fn no_other_taproot(item: Seq<u8>) -> bool {
    item.len() != 64 && (item.len() == 65 ==> item[64] == ALL_ANYONE_CAN_PAY)
}

/// Whether no signature of a taproot script-path witness has another hash type. They stand
/// before the script and the control block.
pub open spec fn script_path_signed(witness: Seq<Seq<u8>>) -> bool {
    let items = without_annex(witness);
    items.len() >= 3 && control_block(items.last()) ==> forall|i: int|
        0 <= i < items.len() - 2 ==> no_other_taproot(#[trigger] items[i])
}

/// The hash type of each item of a witness that parses as an ECDSA signature.
pub open spec fn item_types(witness: Seq<Seq<u8>>) -> Seq<Option<u32>> {
    Seq::new(witness.len(), |i: int| ecdsa_sighash_type(witness[i]))
}

/// Whether a segwit input is signed with `ALL|ANYONECANPAY`, given the hash type that each
/// item of its witness parses with. The signature is the first item, and no further
/// signature, ECDSA or taproot, has another hash type. A multisig witness starts with an empty
/// item instead and ends with the script: what stands between the two are its signatures.
pub open spec fn segwit_signed_as(witness: Seq<Seq<u8>>, types: Seq<Option<u32>>) -> bool {
    if witness[0].len() == 0 {
        witness.len() >= 3 && forall|i: int|
            1 <= i < witness.len() - 1 ==> ecdsa_signed_as(#[trigger] witness[i], types[i])
    } else {
        &&& taproot_signed(witness[0]) || ecdsa_signed_as(witness[0], types[0])
        &&& script_path_signed(witness)
        &&& forall|i: int|
            1 <= i < witness.len() && starts_der(#[trigger] witness[i]) && types[i] is Some
                ==> types[i] == Some(ALL_ANYONE_CAN_PAY as u32)
    }
}

/// Whether a segwit input is signed with `ALL|ANYONECANPAY`.
pub open spec fn segwit_signed(witness: Seq<Seq<u8>>) -> bool {
    segwit_signed_as(witness, item_types(witness))
}

/// The hash type of each instruction of a legacy unlocking script that pushes a signature.
pub open spec fn script_sig_types(script_sig: Seq<u8>) -> Seq<Option<u32>> {
    let items = script_instructions(script_sig);
    Seq::new(
        items.len(),
        |i: int|
            match items[i] {
                Some(data) => ecdsa_sighash_type(data),
                None => None,
            },
    )
}

/// There is a signature, and the hash type of every signature is `ALL|ANYONECANPAY`.
pub open spec fn all_anyone_can_pay(types: Seq<Option<u32>>) -> bool {
    &&& exists|i: int| 0 <= i < types.len() && (#[trigger] types[i]) is Some
    &&& forall|i: int|
        0 <= i < types.len() && (#[trigger] types[i]) is Some ==> types[i] == Some(
            ALL_ANYONE_CAN_PAY as u32,
        )
}

/// Whether an input is signed with `ALL|ANYONECANPAY`.
pub open spec fn input_signed(input: TxInView) -> bool {
    if input.witness.len() > 0 {
        segwit_signed(input.witness)
    } else {
        all_anyone_can_pay(script_sig_types(input.script_sig))
    }
}

/// Whether `script` is the burn output `want`; without one, any burn output of the protocol.
pub open spec fn burns(script: Seq<u8>, want: Option<Seq<u8>>) -> bool {
    match want {
        Some(existing) => script == existing,
        None => script == empty_burn_script() || script == ash_burn_script(),
    }
}

/// A dust disposal transaction: a single `OP_RETURN` output with the data that is asked
/// for, and one or more inputs, all signed with `ALL|ANYONECANPAY`.
pub open spec fn ddust_tx(tx: TransactionView, want: Option<Seq<u8>>) -> bool {
    &&& tx.output.len() == 1
    &&& op_return(tx.output[0].script_pubkey)
    &&& burns(tx.output[0].script_pubkey, want)
    &&& tx.input.len() > 0
    &&& forall|i: int| 0 <= i < tx.input.len() ==> input_signed(#[trigger] tx.input[i])
}

/// What `want` asks for.
pub open spec fn wanted(want: Option<Vec<u8>>) -> Option<Seq<u8>> {
    match want {
        Some(script) => Some(script@),
        None => None,
    }
}

/// Whether the signatures with the given hash types are there and all `ALL|ANYONECANPAY`.
pub fn signature_types_ok(types: &Vec<Option<u32>>) -> (r: bool)
    ensures
        r == all_anyone_can_pay(types@),
{
    let mut found = false;
    for i in 0..types.len()
        invariant
            found == exists|j: int| 0 <= j < i && (#[trigger] types@[j]) is Some,
            forall|j: int|
                0 <= j < i && (#[trigger] types@[j]) is Some ==> types@[j] == Some(
                    ALL_ANYONE_CAN_PAY as u32,
                ),
    {
        if let Some(t) = types[i] {
            assert(types@[i as int] is Some);
            if t != ALL_ANYONE_CAN_PAY as u32 {
                return false;
            }
            found = true;
        }
    }
    found
}

/// Whether a legacy input is signed with `ALL|ANYONECANPAY`.
pub fn script_sig_signed(script_sig: &Vec<u8>) -> (r: bool)
    ensures
        r == all_anyone_can_pay(script_sig_types(script_sig@)),
{
    let items = instructions(script_sig.as_slice());
    let mut types: Vec<Option<u32>> = Vec::new();
    for i in 0..items.len()
        invariant
            types@.len() == i,
            pushes(items@) == script_instructions(script_sig@),
            forall|j: int|
                0 <= j < i ==> #[trigger] types@[j] == script_sig_types(script_sig@)[j],
    {
        assert(pushes(items@)[i as int] == script_instructions(script_sig@)[i as int]);
        let t: Option<u32> = match &items[i] {
            Some(data) => signature_sighash_type(data.as_slice()),
            None => None,
        };
        types.push(t);
    }
    assert(types@ =~= script_sig_types(script_sig@));
    signature_types_ok(&types)
}

/// Whether a witness item is an ECDSA signature with `ALL|ANYONECANPAY`, given the hash type
/// that it parses with.
pub fn is_ecdsa_signed(item: &Vec<u8>, hash_type: Option<u32>) -> (r: bool)
    ensures
        r == ecdsa_signed_as(item@, hash_type),
{
    if 71 <= item.len() && item.len() <= 73 && item[item.len() - 1] == ALL_ANYONE_CAN_PAY {
        return true;
    }
    match hash_type {
        Some(t) => item.len() != 64 && t == ALL_ANYONE_CAN_PAY as u32,
        None => false,
    }
}

/// Whether no signature of a taproot script-path witness has another hash type than
/// `ALL|ANYONECANPAY`.
pub fn script_path_ok(witness: &Vec<Vec<u8>>) -> (r: bool)
    ensures
        r == script_path_signed(stack(witness@)),
{
    let ghost all = stack(witness@);
    let ghost items = without_annex(all);
    let mut n: usize = witness.len();
    if n >= 2 {
        assert(all.last() == witness@[n - 1]@);
        if witness[n - 1].len() > 0 && witness[n - 1][0] == 0x50 {
            n = n - 1;
        }
    }
    assert(items.len() == n);
    if n < 3 {
        return true;
    }
    assert(items.last() == witness@[n - 1]@);
    if witness[n - 1].len() < 33 || (witness[n - 1].len() - 33) % 32 != 0 {
        return true;
    }
    for i in 0..n - 2
        invariant
            all == stack(witness@),
            items == without_annex(all),
            items.len() == n,
            3 <= n <= witness@.len(),
            control_block(items.last()),
            forall|j: int| 0 <= j < i ==> no_other_taproot(#[trigger] items[j]),
    {
        assert(items[i as int] == witness@[i as int]@);
        if witness[i].len() == 64 || (witness[i].len() == 65 && witness[i][64]
            != ALL_ANYONE_CAN_PAY) {
            assert(!no_other_taproot(items[i as int]));
            return false;
        }
    }
    true
}

/// Whether a segwit input with the given witness is signed with `ALL|ANYONECANPAY`, given the
/// hash type that each item parses with.
pub fn witness_types_ok(witness: &Vec<Vec<u8>>, types: &Vec<Option<u32>>) -> (r: bool)
    requires
        witness@.len() > 0,
        types@.len() == witness@.len(),
    ensures
        r == segwit_signed_as(stack(witness@), types@),
{
    let ghost items = stack(witness@);
    let multisig = witness[0].len() == 0;
    if multisig && witness.len() < 3 {
        return false;
    }
    if !multisig {
        let taproot = witness[0].len() == 65 && witness[0][64] == ALL_ANYONE_CAN_PAY;
        if !taproot && !is_ecdsa_signed(&witness[0], types[0]) {
            return false;
        }
        if !script_path_ok(witness) {
            return false;
        }
    }
    for i in 1..witness.len()
        invariant
            items == stack(witness@),
            types@.len() == witness@.len() == items.len(),
            multisig == (items[0].len() == 0),
            multisig ==> items.len() >= 3,
            !multisig ==> taproot_signed(items[0]) || ecdsa_signed_as(items[0], types@[0]),
            !multisig ==> script_path_signed(items),
            multisig ==> forall|j: int|
                1 <= j < i && j < items.len() - 1 ==> ecdsa_signed_as(
                    #[trigger] items[j],
                    types@[j],
                ),
            !multisig ==> forall|j: int|
                1 <= j < i && starts_der(#[trigger] items[j]) && types@[j] is Some ==> types@[j]
                    == Some(ALL_ANYONE_CAN_PAY as u32),
    {
        assert(items[i as int] == witness@[i as int]@);
        if multisig {
            if i < witness.len() - 1 && !is_ecdsa_signed(&witness[i], types[i]) {
                assert(!ecdsa_signed_as(items[i as int], types@[i as int]));
                return false;
            }
        } else if witness[i].len() > 0 && witness[i][0] == 0x30 {
            assert(starts_der(items[i as int]));
            if let Some(t) = types[i] {
                if t != ALL_ANYONE_CAN_PAY as u32 {
                    return false;
                }
            }
        }
    }
    true
}

/// Whether a segwit input with the given witness is signed with `ALL|ANYONECANPAY`. Where its
/// first item is a signature, that ends with this hash type, and is not one of 64 bytes, which has
/// none.
pub fn witness_signed(witness: &Vec<Vec<u8>>) -> (r: bool)
    requires
        witness@.len() > 0,
    ensures
        r == segwit_signed(stack(witness@)),
        r && witness@[0]@.len() > 0 ==> witness@[0]@.last() == ALL_ANYONE_CAN_PAY
            && witness@[0]@.len() != 64,
{
    let mut types: Vec<Option<u32>> = Vec::new();
    for i in 0..witness.len()
        invariant
            types@.len() == i,
            forall|j: int|
                0 <= j < i ==> #[trigger] types@[j] == ecdsa_sighash_type(witness@[j]@),
            forall|j: int|
                0 <= j < i ==> (#[trigger] types@[j] matches Some(t) ==> t == witness@[j]@.last()),
    {
        types.push(signature_sighash_type(witness[i].as_slice()));
    }
    assert(types@ =~= item_types(stack(witness@)));
    witness_types_ok(witness, &types)
}

/// Whether an input is signed with `ALL|ANYONECANPAY`.
pub fn is_input_signed(input: &TxIn) -> (r: bool)
    ensures
        r == input_signed(input@),
{
    if input.witness.len() > 0 {
        witness_signed(&input.witness)
    } else {
        script_sig_signed(&input.script_sig)
    }
}

/// Whether `tx` is a dust disposal transaction whose burn output is `want_script`, or any
/// burn output of the protocol where none is given.
pub fn is_ddust_tx(tx: &Transaction, want_script: &Option<Vec<u8>>) -> (r: bool)
    ensures
        r == ddust_tx(tx@, wanted(*want_script)),
{
    if tx.output.len() != 1 {
        return false;
    }
    let script = &tx.output[0].script_pubkey;
    assert(tx@.output[0].script_pubkey == script@);
    if !is_op_return(script.as_slice()) {
        return false;
    }
    let burn = match want_script {
        Some(existing) => same_bytes(script.as_slice(), existing.as_slice()),
        None => {
            let empty: [u8; 2] = [0x6a, 0x00];
            let padded: [u8; 5] = [0x6a, 0x03, 0x61, 0x73, 0x68];
            assert(empty@ =~= empty_burn_script());
            assert(padded@ =~= ash_burn_script());
            same_bytes(script.as_slice(), empty.as_slice()) || same_bytes(
                script.as_slice(),
                padded.as_slice(),
            )
        },
    };
    if !burn || tx.input.len() == 0 {
        return false;
    }
    for i in 0..tx.input.len()
        invariant
            forall|j: int| 0 <= j < i ==> input_signed(#[trigger] tx@.input[j]),
    {
        if !is_input_signed(&tx.input[i]) {
            assert(!input_signed(tx@.input[i as int]));
            return false;
        }
    }
    true
}

/// The burn output of the first dust disposal transaction in `txs`.
pub open spec fn first_burn(txs: Seq<TransactionView>) -> Option<Seq<u8>>
    decreases txs.len(),
{
    if txs.len() == 0 {
        None
    } else {
        match first_burn(txs.drop_last()) {
            Some(script) => Some(script),
            None => if ddust_tx(txs.last(), None) {
                Some(txs.last().output[0].script_pubkey)
            } else {
                None
            },
        }
    }
}

/// The dust disposal transactions in `txs`, in order, that share the burn output of the
/// first one.
pub open spec fn unconfirmed_ddust(txs: Seq<TransactionView>) -> Seq<TransactionView> {
    match first_burn(txs) {
        Some(script) => txs.filter(|tx: TransactionView| ddust_tx(tx, Some(script))),
        None => Seq::empty(),
    }
}

/// The first burn output is one of the protocol's, and it is absent only where no
/// transaction is a dust disposal.
proof fn lemma_first_burn(txs: Seq<TransactionView>)
    ensures
        first_burn(txs) matches Some(script) ==> burns(script, None) && op_return(script),
        first_burn(txs) is None ==> forall|i: int|
            0 <= i < txs.len() ==> !ddust_tx(#[trigger] txs[i], None),
    decreases txs.len(),
{
    if txs.len() > 0 {
        lemma_first_burn(txs.drop_last());
        if first_burn(txs) is None {
            assert forall|i: int| 0 <= i < txs.len() implies !ddust_tx(
                #[trigger] txs[i],
                None,
            ) by {
                if i < txs.len() - 1 {
                    assert(txs.drop_last()[i] == txs[i]);
                }
            }
        }
    }
}

/// Adding one transaction to those seen so far.
proof fn lemma_unconfirmed_step(txs: Seq<TransactionView>, tx: TransactionView)
    ensures
        first_burn(txs.push(tx)) == match first_burn(txs) {
            Some(script) => Some(script),
            None => if ddust_tx(tx, None) {
                Some(tx.output[0].script_pubkey)
            } else {
                None
            },
        },
        unconfirmed_ddust(txs.push(tx)) == if ddust_tx(tx, first_burn(txs)) {
            unconfirmed_ddust(txs).push(tx)
        } else {
            unconfirmed_ddust(txs)
        },
{
    let all = txs.push(tx);
    assert(all.drop_last() =~= txs);
    lemma_first_burn(txs);
    lemma_first_burn(all);
    reveal(Seq::filter);
    if first_burn(txs) is None && ddust_tx(tx, None) {
        let script = tx.output[0].script_pubkey;
        let pred = |t: TransactionView| ddust_tx(t, Some(script));
        assert forall|i: int| 0 <= i < txs.len() implies !pred(#[trigger] txs[i]) by {
            assert(!ddust_tx(txs[i], None));
        }
        lemma_filter_none(txs, pred);
        assert(all.filter(pred) == txs.filter(pred).push(tx));
    }
}

/// The dust disposal transactions among the transactions of the mempool that can be merged
/// with one another: those that share the burn output of the first one.
pub fn find_unconfirmed_ddust_txs(mempool: &Vec<Transaction>) -> (r: Vec<Transaction>)
    ensures
        contents(r@) == unconfirmed_ddust(contents(mempool@)),
{
    let mut unconfirmed_txs: Vec<Transaction> = Vec::new();
    let mut first_found_script: Option<Vec<u8>> = None;
    let ghost all = contents(mempool@);
    assert(all.take(0) =~= Seq::<TransactionView>::empty());
    assert(contents(unconfirmed_txs@) =~= unconfirmed_ddust(all.take(0)));
    for i in 0..mempool.len()
        invariant
            all == contents(mempool@),
            wanted(first_found_script) == first_burn(all.take(i as int)),
            contents(unconfirmed_txs@) == unconfirmed_ddust(all.take(i as int)),
    {
        let tx = &mempool[i];
        proof {
            assert(all[i as int] == tx@);
            assert(all.take(i + 1) =~= all.take(i as int).push(tx@));
            lemma_unconfirmed_step(all.take(i as int), tx@);
        }
        if is_ddust_tx(tx, &first_found_script) {
            if first_found_script.is_none() {
                first_found_script = Some(copy_bytes(&tx.output[0].script_pubkey));
            }
            let ghost before = contents(unconfirmed_txs@);
            unconfirmed_txs.push(tx.clone());
            assert(contents(unconfirmed_txs@) =~= before.push(tx@));
        }
    }
    assert(all.take(all.len() as int) =~= all);
    unconfirmed_txs
}

/// A transaction that is found is a disposal transaction of the mempool, and has the burn
/// output of the first one found.
pub proof fn lemma_found_share_burn(mempool: Seq<TransactionView>, i: int)
    requires
        0 <= i < unconfirmed_ddust(mempool).len(),
    ensures
        mempool.contains(unconfirmed_ddust(mempool)[i]),
        ddust_tx(unconfirmed_ddust(mempool)[i], None),
        unconfirmed_ddust(mempool)[i].output[0].script_pubkey == unconfirmed_ddust(
            mempool,
        )[0].output[0].script_pubkey,
        first_burn(mempool) == Some(unconfirmed_ddust(mempool)[i].output[0].script_pubkey),
{
    lemma_first_burn(mempool);
    let script = first_burn(mempool)->0;
    let found = unconfirmed_ddust(mempool);
    let pred = |tx: TransactionView| ddust_tx(tx, Some(script));
    assert(found.contains(found[i]));
    assert(found.contains(found[0]));
    lemma_filter_contains(mempool, pred, found[i]);
    lemma_filter_contains(mempool, pred, found[0]);
}

/// Every disposal transaction of the mempool that has the burn output of the first one is
/// found.
pub proof fn lemma_all_found(mempool: Seq<TransactionView>, tx: TransactionView)
    requires
        mempool.contains(tx),
        ddust_tx(tx, None),
    ensures
        first_burn(mempool) is Some,
        unconfirmed_ddust(mempool).contains(tx) <==> first_burn(mempool) == Some(
            tx.output[0].script_pubkey,
        ),
{
    lemma_first_burn(mempool);
    let i = choose|i: int| 0 <= i < mempool.len() && mempool[i] == tx;
    assert(ddust_tx(mempool[i], None));
    let script = first_burn(mempool)->0;
    lemma_filter_contains(mempool, |t: TransactionView| ddust_tx(t, Some(script)), tx);
}

/// Asking for a burn output of the protocol picks the disposals that have it.
pub proof fn lemma_want_narrows(tx: TransactionView, script: Seq<u8>)
    requires
        burns(script, None),
    ensures
        ddust_tx(tx, Some(script)) <==> ddust_tx(tx, None) && tx.output[0].script_pubkey == script,
{
}

/// How the kinds of segwit inputs are signed: a key-path taproot input by its one item, and never
/// by one with the default hash type, an input with a key hash by its first item, and a multisig
/// input by all that stands between the empty item and the script.
pub proof fn lemma_segwit_kinds(witness: Seq<Seq<u8>>)
    ensures
        witness.len() == 1 && taproot_signed(witness[0]) ==> segwit_signed(witness),
        witness.len() > 0 && witness[0].len() == 64 ==> !segwit_signed(witness),
        witness.len() == 2 && witness[0].len() > 0 && ecdsa_signed(witness[0]) && !starts_der(
            witness[1],
        ) ==> segwit_signed(witness),
        witness.len() >= 3 && witness[0].len() == 0 ==> (segwit_signed(witness) <==> forall|i: int|
            1 <= i < witness.len() - 1 ==> ecdsa_signed(#[trigger] witness[i])),
{
}

/// The bytes of the protocol: the hash type, and the two burn outputs.
pub proof fn lemma_protocol_bytes()
    ensures
        ALL_ANYONE_CAN_PAY == 0x81,
        ash() == seq![0x61u8, 0x73u8, 0x68u8],
        empty_burn_script() == seq![0x6au8, 0x00u8],
        ash_burn_script() == seq![0x6au8, 0x03u8] + ash(),
        forall|script: Seq<u8>| #[trigger]
            burns(script, None) <==> script == seq![0x6au8, 0x00u8] || script == seq![
                0x6au8,
                0x03u8,
                0x61u8,
                0x73u8,
                0x68u8,
            ],
        forall|script: Seq<u8>, existing: Seq<u8>| #[trigger]
            burns(script, Some(existing)) <==> script == existing,
        wanted(None) is None,
        forall|script: Vec<u8>| #[trigger] wanted(Some(script)) == Some(script@),
{
    assert(ash_burn_script() =~= seq![0x6au8, 0x03u8] + ash());
}

/// When a multisig witness is signed: behind the empty item and before the script stands at least
/// one item, and each of these is 71 to 73 bytes that end with 0x81, or is not of 64 bytes and
/// parses as an ECDSA signature with the hash type 0x81.
pub proof fn lemma_multisig_signed(witness: Seq<Seq<u8>>, types: Seq<Option<u32>>)
    requires
        witness.len() > 0,
        witness[0].len() == 0,
    ensures
        segwit_signed_as(witness, types) <==> witness.len() >= 3 && forall|i: int|
            0 < i < witness.len() - 1 ==> {
                ||| 71 <= (#[trigger] witness[i]).len() <= 73 && witness[i].last() == 0x81
                ||| witness[i].len() != 64 && types[i] == Some(0x81u32)
            },
{
}

/// When any other witness is signed: its first item is a signature with the hash type 0x81; no
/// further item that starts as a DER signature parses as one with another; and where a taproot
/// control block ends it, annex aside, no item before the script is a taproot signature with
/// another.
pub proof fn lemma_single_signed(witness: Seq<Seq<u8>>, types: Seq<Option<u32>>)
    requires
        witness.len() > 0,
        witness[0].len() > 0,
    ensures
        ({
            let n = if witness.len() >= 2 && witness.last().len() > 0 && witness.last()[0] == 0x50 {
                witness.len() - 1
            } else {
                witness.len() as int
            };
            segwit_signed_as(witness, types) <==> {
                &&& {
                    ||| witness[0].len() == 65 && witness[0].last() == 0x81
                    ||| 71 <= witness[0].len() <= 73 && witness[0].last() == 0x81
                    ||| witness[0].len() != 64 && types[0] == Some(0x81u32)
                }
                &&& forall|i: int|
                    1 <= i < witness.len() && (#[trigger] witness[i]).len() > 0 && witness[i][0]
                        == 0x30 ==> types[i] is None || types[i] == Some(0x81u32)
                &&& n >= 3 && witness[n - 1].len() >= 33 && witness[n - 1].len() % 32 == 1
                    ==> forall|i: int|
                    0 <= i < n - 2 ==> (#[trigger] witness[i]).len() != 64 && (witness[i].len()
                        == 65 ==> witness[i][64] == 0x81)
            }
        }),
        script_path_signed(witness) <==> {
            let n = if witness.len() >= 2 && witness.last().len() > 0 && witness.last()[0] == 0x50 {
                witness.len() - 1
            } else {
                witness.len() as int
            };
            n >= 3 && witness[n - 1].len() >= 33 && witness[n - 1].len() % 32 == 1 ==> forall|
                i: int,
            |
                0 <= i < n - 2 ==> (#[trigger] witness[i]).len() != 64 && (witness[i].len() == 65
                    ==> witness[i][64] == 0x81)
        },
{
    let items = without_annex(witness);
    let n = items.len() as int;
    assert(forall|i: int| 0 <= i < n ==> #[trigger] items[i] == witness[i]);
    if n > 0 {
        assert(items.last() == witness[n - 1]);
        let len = witness[n - 1].len();
        assert(len >= 33 ==> ((len - 33) % 32 == 0 <==> len % 32 == 1));
    }
    if script_path_signed(witness) && n >= 3 && control_block(items.last()) {
        assert forall|i: int| 0 <= i < n - 2 implies (#[trigger] witness[i]).len() != 64 && (
        witness[i].len() == 65 ==> witness[i][64] == 0x81) by {
            assert(no_other_taproot(items[i]));
        }
    }
}

/// An item is an ECDSA signature with the hash type by its length and last byte, or by what it
/// parses as.
pub proof fn lemma_ecdsa_signed(item: Seq<u8>, hash_type: Option<u32>)
    ensures
        ecdsa_signed_as(item, hash_type) <==> {
            ||| 71 <= item.len() <= 73 && item.last() == 0x81
            ||| item.len() != 64 && hash_type == Some(0x81u32)
        },
        ecdsa_signed(item) <==> ecdsa_signed_as(item, ecdsa_sighash_type(item)),
{
}

/// Signatures are there and all of one hash type: there is one, and none with another than 0x81.
pub proof fn lemma_types_ok(types: Seq<Option<u32>>)
    ensures
        all_anyone_can_pay(types) <==> types.contains(Some(0x81u32)) && forall|t: u32| #[trigger]
            types.contains(Some(t)) ==> t == 0x81,
{
    if all_anyone_can_pay(types) {
        let i = choose|i: int| 0 <= i < types.len() && (#[trigger] types[i]) is Some;
        assert(types[i] == Some(0x81u32));
    }
    if types.contains(Some(0x81u32)) && forall|t: u32| #[trigger]
        types.contains(Some(t)) ==> t == 0x81 {
        let i = choose|i: int| 0 <= i < types.len() && types[i] == Some(0x81u32);
        assert(types[i] is Some);
        assert forall|j: int| 0 <= j < types.len() && (#[trigger] types[j]) is Some implies types[j]
            == Some(ALL_ANYONE_CAN_PAY as u32) by {
            assert(types.contains(Some(types[j]->0)));
        }
    }
}

/// How an input is signed: by its witness where it has one, each item taken by what it parses as;
/// else by its unlocking script, each push taken so.
pub proof fn lemma_input_signed(input: TxInView)
    ensures
        input.witness.len() > 0 ==> (input_signed(input) <==> segwit_signed_as(
            input.witness,
            input.witness.map_values(|item: Seq<u8>| ecdsa_sighash_type(item)),
        )),
        input.witness.len() > 0 ==> (input_signed(input) <==> segwit_signed(input.witness)),
        input.witness.len() == 0 ==> (input_signed(input) <==> all_anyone_can_pay(
            script_instructions(input.script_sig).map_values(
                |item: Option<Seq<u8>>|
                    if item is Some {
                        ecdsa_sighash_type(item->0)
                    } else {
                        None
                    },
            ),
        )),
        input.witness.len() == 0 ==> (input_signed(input) <==> all_anyone_can_pay(
            script_sig_types(input.script_sig),
        )),
{
    assert(item_types(input.witness) =~= input.witness.map_values(
        |item: Seq<u8>| ecdsa_sighash_type(item),
    ));
    assert(script_sig_types(input.script_sig) =~= script_instructions(
        input.script_sig,
    ).map_values(
        |item: Option<Seq<u8>>|
            if item is Some {
                ecdsa_sighash_type(item->0)
            } else {
                None
            },
    ));
}

/// A disposal has one output, `OP_RETURN` with nothing or with "ash", and at least one input, all
/// of them signed. Where a burn output is asked for, it has that one instead, which has to start
/// with `OP_RETURN`.
pub proof fn lemma_disposal_is(tx: TransactionView, existing: Seq<u8>)
    ensures
        ddust_tx(tx, None) <==> {
            &&& tx.output.len() == 1
            &&& tx.output[0].script_pubkey == seq![0x6au8, 0x00u8] || tx.output[0].script_pubkey
                == seq![0x6au8, 0x03u8, 0x61u8, 0x73u8, 0x68u8]
            &&& tx.input.len() >= 1
            &&& forall|i: int| 0 <= i < tx.input.len() ==> input_signed(#[trigger] tx.input[i])
        },
        ddust_tx(tx, Some(existing)) <==> {
            &&& tx.output.len() == 1
            &&& tx.output[0].script_pubkey == existing
            &&& existing.len() > 0 && existing[0] == 0x6a
            &&& tx.input.len() >= 1
            &&& forall|i: int| 0 <= i < tx.input.len() ==> input_signed(#[trigger] tx.input[i])
        },
{
}

/// A disposal stays one when signed inputs are added to it, and two with the same burn output
/// make one together.
pub proof fn lemma_disposals_combine(first: TransactionView, second: TransactionView)
    requires
        ddust_tx(first, None),
        ddust_tx(second, None),
    ensures
        ddust_tx(
            TransactionView {
                version: first.version,
                lock_time: first.lock_time,
                input: first.input + second.input,
                output: first.output,
            },
            None,
        ),
{
    let both = first.input + second.input;
    assert forall|i: int| 0 <= i < both.len() implies input_signed(#[trigger] both[i]) by {
        if i < first.input.len() {
            assert(both[i] == first.input[i]);
        } else {
            assert(both[i] == second.input[i - first.input.len()]);
        }
    }
}

/// The first burn output is that of the first disposal, wherever it stands, and there is none
/// where there is no disposal.
pub proof fn lemma_first_burn_is(txs: Seq<TransactionView>, first: int)
    ensures
        0 <= first < txs.len() && ddust_tx(txs[first], None) && (forall|i: int|
            0 <= i < first ==> !ddust_tx(#[trigger] txs[i], None)) ==> first_burn(txs) == Some(
            txs[first].output[0].script_pubkey,
        ),
        (forall|i: int| 0 <= i < txs.len() ==> !ddust_tx(#[trigger] txs[i], None)) ==> first_burn(
            txs,
        ) is None,
    decreases txs.len(),
{
    if txs.len() > 0 {
        let rest = txs.drop_last();
        lemma_first_burn_is(rest, first);
        if 0 <= first < rest.len() && ddust_tx(txs[first], None) && forall|i: int|
            0 <= i < first ==> !ddust_tx(#[trigger] txs[i], None) {
            assert(rest[first] == txs[first]);
            assert forall|i: int| 0 <= i < first implies !ddust_tx(#[trigger] rest[i], None) by {
                assert(rest[i] == txs[i]);
            }
        }
        if forall|i: int| 0 <= i < rest.len() ==> !ddust_tx(#[trigger] txs[i], None) {
            assert forall|i: int| 0 <= i < rest.len() implies !ddust_tx(
                #[trigger] rest[i],
                None,
            ) by {
                assert(rest[i] == txs[i]);
            }
        }
    }
}

/// What is found in a mempool: given the first disposal in it, all disposals with the burn output
/// of that one, in the order of the mempool, each as often as it is there; and nothing where there
/// is none.
pub proof fn lemma_found_are(mempool: Seq<TransactionView>, first: int)
    ensures
        0 <= first < mempool.len() && ddust_tx(mempool[first], None) && (forall|i: int|
            0 <= i < first ==> !ddust_tx(#[trigger] mempool[i], None)) ==> unconfirmed_ddust(
            mempool,
        ) == mempool.filter(
            |tx: TransactionView|
                ddust_tx(tx, None) && tx.output[0].script_pubkey
                    == mempool[first].output[0].script_pubkey,
        ) && unconfirmed_ddust(mempool).contains(mempool[first]),
        (forall|i: int| 0 <= i < mempool.len() ==> !ddust_tx(#[trigger] mempool[i], None))
            ==> unconfirmed_ddust(mempool).len() == 0,
{
    lemma_first_burn_is(mempool, first);
    if 0 <= first < mempool.len() && ddust_tx(mempool[first], None) && forall|i: int|
        0 <= i < first ==> !ddust_tx(#[trigger] mempool[i], None) {
        let script = mempool[first].output[0].script_pubkey;
        let pred = |tx: TransactionView| ddust_tx(tx, Some(script));
        let plain = |tx: TransactionView|
            ddust_tx(tx, None) && tx.output[0].script_pubkey
                == mempool[first].output[0].script_pubkey;
        assert forall|tx: TransactionView| #[trigger] pred(tx) == plain(tx) by {
            lemma_want_narrows(tx, script);
        }
        assert(pred =~= plain);
        assert(mempool.contains(mempool[first]));
        lemma_filter_contains(mempool, pred, mempool[first]);
    }
}

} // verus!
