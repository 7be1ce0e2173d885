//! Scripts as byte strings: the output kinds the disposal rules tell apart, the burn
//! output, and what a legacy unlocking script pushes.
use bdk_wallet::bitcoin::ecdsa::Signature;
use bdk_wallet::bitcoin::script::{Instruction, PushBytesBuf};
use bdk_wallet::bitcoin::{Script, ScriptBuf};
use vstd::prelude::*;

verus! {

/// A pay-to-public-key-hash output:
/// `OP_DUP OP_HASH160 <20 bytes> OP_EQUALVERIFY OP_CHECKSIG`.
pub open spec fn p2pkh(script: Seq<u8>) -> bool {
    &&& script.len() == 25
    &&& script[0] == 0x76
    &&& script[1] == 0xa9
    &&& script[2] == 0x14
    &&& script[23] == 0x88
    &&& script[24] == 0xac
}

/// A pay-to-script-hash output: `OP_HASH160 <20 bytes> OP_EQUAL`.
pub open spec fn p2sh(script: Seq<u8>) -> bool {
    &&& script.len() == 23
    &&& script[0] == 0xa9
    &&& script[1] == 0x14
    &&& script[22] == 0x87
}

/// A segwit output: a version opcode, then one push of 2 to 40 bytes and nothing else.
pub open spec fn witness_program(script: Seq<u8>) -> bool {
    &&& 4 <= script.len() <= 42
    &&& script[0] == 0 || 0x51 <= script[0] <= 0x60
    &&& script[1] == script.len() - 2
}

/// A version 0 witness program of 20 bytes.
pub open spec fn p2wpkh(script: Seq<u8>) -> bool {
    script.len() == 22 && script[0] == 0 && script[1] == 20
}

/// A version 0 witness program of 32 bytes.
pub open spec fn p2wsh(script: Seq<u8>) -> bool {
    script.len() == 34 && script[0] == 0 && script[1] == 32
}

/// A version 1 witness program of 32 bytes.
pub open spec fn p2tr(script: Seq<u8>) -> bool {
    script.len() == 34 && script[0] == 0x51 && script[1] == 32
}

/// An unspendable output: its script starts with `OP_RETURN`.
pub open spec fn op_return(script: Seq<u8>) -> bool {
    script.len() > 0 && script[0] == 0x6a
}

/// The opcode, with the length bytes it needs, that pushes `n` bytes.
pub open spec fn push_prefix(n: nat) -> Seq<u8> {
    if n < 0x4c {
        seq![n as u8]
    } else if n < 0x100 {
        seq![0x4cu8, n as u8]
    } else if n < 0x1_0000 {
        seq![0x4du8, (n % 0x100) as u8, (n / 0x100) as u8]
    } else {
        seq![
            0x4eu8,
            (n % 0x100) as u8,
            ((n / 0x100) % 0x100) as u8,
            ((n / 0x1_0000) % 0x100) as u8,
            (n / 0x100_0000) as u8,
        ]
    }
}

/// The burn output: `OP_RETURN` and one push of `data`.
pub open spec fn burn_script(data: Seq<u8>) -> Seq<u8> {
    seq![0x6au8] + push_prefix(data.len()) + data
}

/// `bitcoin::Script::is_p2pkh` holds of exactly the scripts of the shape [`p2pkh`].
#[verifier::external_body]
pub(crate) fn is_p2pkh(script: &[u8]) -> (r: bool)
    ensures
        r == p2pkh(script@),
{
    Script::from_bytes(script).is_p2pkh()
}

/// `bitcoin::Script::is_p2sh` holds of exactly the scripts of the shape [`p2sh`].
#[verifier::external_body]
pub(crate) fn is_p2sh(script: &[u8]) -> (r: bool)
    ensures
        r == p2sh(script@),
{
    Script::from_bytes(script).is_p2sh()
}

/// `bitcoin::Script::is_witness_program` holds of exactly the scripts of the shape
/// [`witness_program`].
#[verifier::external_body]
pub(crate) fn is_witness_program(script: &[u8]) -> (r: bool)
    ensures
        r == witness_program(script@),
{
    Script::from_bytes(script).is_witness_program()
}

/// `bitcoin::Script::is_p2wpkh` holds of exactly the scripts of the shape [`p2wpkh`].
#[verifier::external_body]
pub(crate) fn is_p2wpkh(script: &[u8]) -> (r: bool)
    ensures
        r == p2wpkh(script@),
{
    Script::from_bytes(script).is_p2wpkh()
}

/// `bitcoin::Script::is_p2wsh` holds of exactly the scripts of the shape [`p2wsh`].
#[verifier::external_body]
pub(crate) fn is_p2wsh(script: &[u8]) -> (r: bool)
    ensures
        r == p2wsh(script@),
{
    Script::from_bytes(script).is_p2wsh()
}

/// `bitcoin::Script::is_p2tr` holds of exactly the scripts of the shape [`p2tr`].
#[verifier::external_body]
pub(crate) fn is_p2tr(script: &[u8]) -> (r: bool)
    ensures
        r == p2tr(script@),
{
    Script::from_bytes(script).is_p2tr()
}

/// `bitcoin::Script::is_op_return` looks at the first byte alone.
#[verifier::external_body]
pub(crate) fn is_op_return(script: &[u8]) -> (r: bool)
    ensures
        r == op_return(script@),
{
    Script::from_bytes(script).is_op_return()
}

/// `bitcoin::ScriptBuf::new_op_return` writes `OP_RETURN` and pushes `data` with the
/// shortest opcode that carries its length. A push holds less than 2^32 bytes.
#[verifier::external_body]
pub(crate) fn new_op_return(data: &[u8]) -> (r: Vec<u8>)
    requires
        data@.len() <= 0xffff_ffff,
    ensures
        r@ == burn_script(data@),
{
    let push = PushBytesBuf::try_from(data.to_vec()).unwrap();
    ScriptBuf::new_op_return(push).into_bytes()
}

/// The instructions of `script` in order, as `bitcoin::Script::instructions` parses them:
/// the pushed bytes of a push, nothing for any other opcode or for an error.
pub uninterp spec fn script_instructions(script: Seq<u8>) -> Seq<Option<Seq<u8>>>;

/// What each instruction of a parsed script pushes.
pub open spec fn pushes(items: Seq<Option<Vec<u8>>>) -> Seq<Option<Seq<u8>>> {
    Seq::new(
        items.len(),
        |i: int|
            match items[i] {
                Some(data) => Some(data@),
                None => None,
            },
    )
}

/// `bitcoin::Script::instructions` on `script`, each instruction taken by what it pushes.
#[verifier::external_body]
pub(crate) fn instructions(script: &[u8]) -> (r: Vec<Option<Vec<u8>>>)
    ensures
        pushes(r@) == script_instructions(script@),
{
    Script::from_bytes(script)
        .instructions()
        .map(|item| match item {
            Ok(Instruction::PushBytes(data)) => Some(data.as_bytes().to_vec()),
            Ok(Instruction::Op(_)) => None,
            Err(_) => None,
        })
        .collect()
}

/// The signature hash type of `data`, where `bitcoin::ecdsa::Signature::from_slice` parses
/// it as a DER signature followed by a standard hash type.
pub uninterp spec fn ecdsa_sighash_type(data: Seq<u8>) -> Option<u32>;

/// `bitcoin::ecdsa::Signature::from_slice` on `data`. The hash type of what it accepts is
/// the last byte.
#[verifier::external_body]
pub(crate) fn signature_sighash_type(data: &[u8]) -> (r: Option<u32>)
    ensures
        r == ecdsa_sighash_type(data@),
        r matches Some(t) ==> data@.len() > 0 && t == data@.last(),
{
    match Signature::from_slice(data) {
        Ok(signature) => Some(signature.sighash_type.to_u32()),
        Err(_) => None,
    }
}

/// Each kind of output is a hash between fixed bytes: nothing else about the script matters.
pub proof fn lemma_script_kinds(script: Seq<u8>)
    ensures
        p2pkh(script) <==> script.len() == 25 && script.take(3) == seq![0x76u8, 0xa9u8, 0x14u8]
            && script.skip(23) == seq![0x88u8, 0xacu8],
        p2sh(script) <==> script.len() == 23 && script.take(2) == seq![0xa9u8, 0x14u8]
            && script.last() == 0x87,
        p2wpkh(script) <==> script.len() == 22 && script.take(2) == seq![0x00u8, 0x14u8],
        p2wsh(script) <==> script.len() == 34 && script.take(2) == seq![0x00u8, 0x20u8],
        p2tr(script) <==> script.len() == 34 && script.take(2) == seq![0x51u8, 0x20u8],
        witness_program(script) <==> 2 <= script.len() - 2 <= 40 && script[1] + 2 == script.len()
            && (script[0] == 0 || 1 <= script[0] - 0x50 <= 16),
        op_return(script) <==> script.len() >= 1 && script.first() == 0x6a,
        p2wpkh(script) || p2wsh(script) || p2tr(script) ==> witness_program(script),
        p2pkh(script) || p2sh(script) ==> !witness_program(script),
        !(p2tr(script) && p2wsh(script)) && !(p2pkh(script) && p2sh(script)),
{
    if script.len() == 25 {
        assert(p2pkh(script) ==> script.take(3) =~= seq![0x76u8, 0xa9u8, 0x14u8]);
        assert(p2pkh(script) ==> script.skip(23) =~= seq![0x88u8, 0xacu8]);
        assert(script.take(3)[0] == script[0] && script.take(3)[1] == script[1] && script.take(
            3,
        )[2] == script[2]);
        assert(script.skip(23)[0] == script[23] && script.skip(23)[1] == script[24]);
    }
    if script.len() >= 2 {
        let head = script.take(2);
        assert(head[0] == script[0] && head[1] == script[1]);
        assert(head =~= seq![script[0], script[1]]);
    }
}

/// A burn output is `OP_RETURN`, the shortest opcode that pushes as many bytes as there are, and
/// the data: it ends with all of it, and data of the same length is burned behind the same bytes.
pub proof fn lemma_burn_script(data: Seq<u8>)
    requires
        data.len() <= 0xffff_ffff,
    ensures
        data.len() <= 75 ==> burn_script(data) == seq![0x6au8, data.len() as u8] + data,
        76 <= data.len() <= 255 ==> burn_script(data) == seq![0x6au8, 0x4cu8, data.len() as u8]
            + data,
        256 <= data.len() <= 65_535 ==> burn_script(data).len() == data.len() + 4 && burn_script(
            data,
        )[1] == 0x4d && burn_script(data)[2] + 256 * burn_script(data)[3] == data.len(),
        data.len() >= 65_536 ==> burn_script(data).len() == data.len() + 6 && burn_script(data)[1]
            == 0x4e && burn_script(data)[2] + 256 * (burn_script(data)[3] + 256 * (burn_script(
            data,
        )[4] + 256 * burn_script(data)[5])) == data.len(),
        burn_script(data)[0] == 0x6a,
        burn_script(data).skip(burn_script(data).len() - data.len()) == data,
{
    let script = burn_script(data);
    let n = data.len();
    assert(script.skip(script.len() - n) =~= data);
    if n <= 75 {
        assert(script =~= seq![0x6au8, n as u8] + data);
    } else if n <= 255 {
        assert(script =~= seq![0x6au8, 0x4cu8, n as u8] + data);
    } else if n <= 65_535 {
        assert(n / 0x100 < 0x100);
    } else {
        assert((n / 0x100) / 0x100 == n / 0x1_0000) by (nonlinear_arith);
        assert((n / 0x1_0000) / 0x100 == n / 0x100_0000) by (nonlinear_arith);
        assert(n / 0x100_0000 < 0x100);
    }
}

/// What the instructions of a script push is what each of them pushes, at its place.
pub proof fn lemma_pushes(items: Seq<Option<Vec<u8>>>)
    ensures
        pushes(items).len() == items.len(),
        forall|i: int|
            0 <= i < items.len() ==> match (#[trigger] pushes(items)[i]) {
                Some(data) => items[i] is Some && data == items[i]->0@,
                None => items[i] is None,
            },
{
}

} // verus!
