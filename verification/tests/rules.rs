use bdk_wallet::bitcoin::Network;
use ddust::address::{is_addressable, parse_address, read_address, AddressError};
use ddust::batch::{
    are_supported, can_merge, estimate_input_vsize, find_batchable_txs, is_supported, MempoolEntry,
    MAX_REPLACED,
};
use ddust::calc::{InputType, MultisigConfig, P2SHInner, TxSizeCalculator};
use ddust::disposal::{
    find_unconfirmed_ddust_txs, is_ddust_tx, is_ecdsa_signed, is_input_signed, script_path_ok,
    script_sig_signed, signature_types_ok, witness_signed, witness_types_ok,
};
use ddust::dust::{
    checked_sum_values, cmd_list, holds_non_dust, is_disposable, is_dust, is_listable, select_dust,
    sum_values, LocalOutput,
};
use ddust::size::{get_input_vsize, is_weighable, satisfaction_weight};
use ddust::spend::{add_foreign_utxos, can_plan, op_return_data, plan_spend, SighashKind};
use ddust::tx::{copy_bytes, copy_stack, same_bytes, tx_ids, OutPoint, Transaction, TxIn, TxOut};

const REGTEST: Network = Network::Regtest;

fn p2pkh() -> Vec<u8> {
    let mut script = vec![0x76, 0xa9, 0x14];
    script.extend(vec![7; 20]);
    script.extend(vec![0x88, 0xac]);
    script
}

fn p2sh() -> Vec<u8> {
    let mut script = vec![0xa9, 0x14];
    script.extend(vec![7; 20]);
    script.push(0x87);
    script
}

fn program(version: u8, len: usize) -> Vec<u8> {
    let mut script = vec![version, len as u8];
    script.extend(vec![7; len]);
    script
}

fn p2wpkh() -> Vec<u8> {
    program(0, 20)
}

fn p2wsh() -> Vec<u8> {
    program(0, 32)
}

fn p2tr() -> Vec<u8> {
    program(0x51, 32)
}

fn outpoint(n: u8) -> OutPoint {
    OutPoint {
        txid: [n; 32],
        vout: 0,
    }
}

/// What signing adds to an input: for one key, or two of three behind a witness script.
fn signing(script: &[u8]) -> u64 {
    match (script.first(), script.len()) {
        (Some(0x51), 34) => 66,
        (Some(0x00), 22) => 107,
        (Some(0x00), 34) => 253,
        (Some(0x76), 25) => 428,
        (Some(0xa9), 23) => 199,
        _ => 0,
    }
}

fn local(n: u8, script: &[u8], value: u64) -> LocalOutput {
    weighing(n, script, value, signing(script))
}

fn weighing(n: u8, script: &[u8], value: u64, satisfaction_weight: u64) -> LocalOutput {
    LocalOutput {
        outpoint: outpoint(n),
        txout: TxOut {
            value,
            script_pubkey: script.to_vec(),
        },
        is_spent: false,
        is_confirmed: true,
        satisfaction_weight,
    }
}

fn ecdsa(hash_type: u8) -> Vec<u8> {
    let mut sig = vec![0x30, 0x44, 0x02, 0x20];
    sig.extend(vec![0x11; 32]);
    sig.extend(vec![0x02, 0x20]);
    sig.extend(vec![0x22; 32]);
    sig.push(hash_type);
    sig
}

fn schnorr(hash_type: u8) -> Vec<u8> {
    let mut sig = vec![0x33; 64];
    sig.push(hash_type);
    sig
}

fn push(data: &[u8]) -> Vec<u8> {
    let mut script = vec![data.len() as u8];
    script.extend(data);
    script
}

fn legacy_unlock(hash_type: u8) -> Vec<u8> {
    let mut script = push(&ecdsa(hash_type));
    script.extend(push(&[0x02; 33]));
    script
}

fn input(n: u8, script_sig: Vec<u8>, witness: Vec<Vec<u8>>) -> TxIn {
    TxIn {
        previous_output: outpoint(n),
        script_sig,
        sequence: 0xffff_fffd,
        witness,
    }
}

fn taproot_input(n: u8) -> TxIn {
    input(n, vec![], vec![schnorr(0x81)])
}

fn burning(burn: &[u8], inputs: Vec<TxIn>) -> Transaction {
    Transaction {
        version: 2,
        lock_time: 0,
        input: inputs,
        output: vec![TxOut {
            value: 0,
            script_pubkey: burn.to_vec(),
        }],
    }
}

const EMPTY: &[u8] = &[0x6a, 0x00];
const ASH: &[u8] = &[0x6a, 0x03, 0x61, 0x73, 0x68];

// Recognising disposals.

#[test]
fn a_disposal_has_one_burn_output() {
    assert!(is_ddust_tx(&burning(EMPTY, vec![taproot_input(1)]), &None));
    assert!(is_ddust_tx(&burning(ASH, vec![taproot_input(1)]), &None));
    // other data, no push, another kind of output
    assert!(!is_ddust_tx(&burning(&[0x6a, 0x01, 0x61], vec![taproot_input(1)]), &None));
    assert!(!is_ddust_tx(&burning(&[0x6a], vec![taproot_input(1)]), &None));
    assert!(!is_ddust_tx(&burning(&p2tr(), vec![taproot_input(1)]), &None));
    assert!(!is_ddust_tx(&burning(&[], vec![taproot_input(1)]), &None));
    // no output, two outputs
    let mut tx = burning(EMPTY, vec![taproot_input(1)]);
    tx.output.clear();
    assert!(!is_ddust_tx(&tx, &None));
    let mut tx = burning(EMPTY, vec![taproot_input(1)]);
    let again = tx.output[0].clone();
    tx.output.push(again);
    assert!(!is_ddust_tx(&tx, &None));
}

#[test]
fn a_disposal_spends_something() {
    assert!(!is_ddust_tx(&burning(EMPTY, vec![]), &None));
}

#[test]
fn a_wanted_burn_output_is_met_exactly() {
    let tx = burning(EMPTY, vec![taproot_input(1)]);
    assert!(is_ddust_tx(&tx, &Some(EMPTY.to_vec())));
    assert!(!is_ddust_tx(&tx, &Some(ASH.to_vec())));
    // any data will do where it is asked for, but only behind OP_RETURN
    let other = burning(&[0x6a, 0x01, 0x61], vec![taproot_input(1)]);
    assert!(is_ddust_tx(&other, &Some(vec![0x6a, 0x01, 0x61])));
    let paid = burning(&p2tr(), vec![taproot_input(1)]);
    assert!(!is_ddust_tx(&paid, &Some(p2tr())));
}

#[test]
fn every_input_of_a_disposal_is_signed() {
    let good = taproot_input(1);
    let bad = input(2, vec![], vec![schnorr(0x01)]);
    assert!(is_ddust_tx(&burning(EMPTY, vec![good.clone(), taproot_input(2)]), &None));
    assert!(!is_ddust_tx(&burning(EMPTY, vec![good, bad]), &None));
}

#[test]
fn segwit_signatures() {
    assert!(witness_signed(&vec![schnorr(0x81)]));
    assert!(!witness_signed(&vec![schnorr(0x83)]));
    // the default hash type of taproot is left out
    assert!(!witness_signed(&vec![vec![0x33; 64]]));
    assert!(witness_signed(&vec![ecdsa(0x81), vec![0x02; 33]]));
    assert!(!witness_signed(&vec![ecdsa(0x01), vec![0x02; 33]]));
    // lengths around those of signatures
    for (len, good) in [(70, false), (71, true), (72, true), (73, true), (74, false)] {
        let mut sig = vec![0x30; len];
        sig[len - 1] = 0x81;
        assert_eq!(witness_signed(&vec![sig]), good);
    }
}

/// A DER signature with one number a byte short.
fn short_ecdsa(hash_type: u8) -> Vec<u8> {
    let mut sig = vec![0x30, 0x43, 0x02, 0x1f];
    sig.extend(vec![0x11; 31]);
    sig.extend(vec![0x02, 0x20]);
    sig.extend(vec![0x22; 32]);
    sig.push(hash_type);
    sig
}

#[test]
fn short_segwit_signatures() {
    assert_eq!(short_ecdsa(0x81).len(), 70);
    assert!(witness_signed(&vec![short_ecdsa(0x81), vec![0x02; 33]]));
    assert!(!witness_signed(&vec![short_ecdsa(0x01), vec![0x02; 33]]));
    let script = vec![0x52; 105];
    assert!(witness_signed(&vec![vec![], short_ecdsa(0x81), ecdsa(0x81), script.clone()]));
    assert!(!witness_signed(&vec![vec![], short_ecdsa(0x01), ecdsa(0x81), script]));
    // a legacy input alike
    assert!(script_sig_signed(&push(&short_ecdsa(0x81))));
}

#[test]
fn a_signature_of_64_bytes_leaves_out_its_hash_type() {
    // one that also reads as DER with the hash type at its end
    let mut sig = vec![0x30, 0x3d, 0x02, 0x1c];
    sig.extend(vec![0x11; 28]);
    sig.extend(vec![0x02, 0x1d]);
    sig.extend(vec![0x22; 29]);
    sig.push(0x81);
    assert_eq!(sig.len(), 64);
    assert!(!is_ddust_tx(&burning(EMPTY, vec![input(1, vec![], vec![sig.clone()])]), &None));
    assert!(!witness_signed(&vec![sig.clone()]));
    assert!(!is_ecdsa_signed(&sig, Some(0x81)));
    assert!(!witness_signed(&vec![vec![0x33; 64]]));
}

#[test]
fn taproot_script_path_signatures() {
    let script = vec![0x20; 68];
    let annex = vec![0x50, 1, 2];
    for len in [33, 65, 97] {
        let control = vec![0xc0; len];
        let path = |items: Vec<Vec<u8>>| {
            let mut witness = items;
            witness.extend(vec![script.clone(), control.clone()]);
            witness
        };
        for second in [schnorr(0x81), vec![], vec![1]] {
            assert!(witness_signed(&path(vec![schnorr(0x81), second])));
        }
        for second in [vec![0x33; 64], schnorr(0x01), schnorr(0x83)] {
            let mut witness = path(vec![schnorr(0x81), second]);
            assert!(!script_path_ok(&witness));
            assert!(!witness_signed(&witness));
            witness.push(annex.clone());
            assert!(!witness_signed(&witness));
        }
        // a script or a control block is no signature, however long it is
        for script in [vec![0x20; 64], vec![0x20; 65]] {
            assert!(witness_signed(&vec![schnorr(0x81), script, control.clone()]));
        }
        let mut witness = path(vec![schnorr(0x81)]);
        assert!(witness_signed(&witness));
        witness.push(annex.clone());
        assert!(witness_signed(&witness));
    }
    // no control block at the end
    assert!(witness_signed(&vec![ecdsa(0x81), vec![0x33; 64], script]));
}

#[test]
fn no_further_signature_has_another_hash_type() {
    let script = vec![0x21; 70];
    assert!(witness_signed(&vec![ecdsa(0x81), ecdsa(0x81), script.clone()]));
    assert!(!witness_signed(&vec![ecdsa(0x81), ecdsa(0x01), script.clone()]));
    assert!(!witness_signed(&vec![ecdsa(0x81), short_ecdsa(0x01), script]));
    assert!(!witness_signed(&vec![ecdsa(0x81), ecdsa(0x01)]));
}

#[test]
fn witnesses_by_the_hash_types_of_their_items() {
    let pair = vec![vec![0x30; 70], vec![0x30; 70]];
    assert!(witness_types_ok(&pair, &vec![Some(0x81), None]));
    assert!(witness_types_ok(&pair, &vec![Some(0x81), Some(0x81)]));
    assert!(!witness_types_ok(&pair, &vec![Some(0x81), Some(0x01)]));
    assert!(!witness_types_ok(&pair, &vec![None, Some(0x81)]));
    assert!(is_ecdsa_signed(&vec![0x30; 9], Some(0x81)));
    assert!(!is_ecdsa_signed(&vec![0x30; 9], Some(0x01)));
    assert!(!is_ecdsa_signed(&vec![0x30; 9], None));
}

#[test]
fn segwit_multisig_signatures() {
    let script = vec![0x52; 105];
    let two = vec![vec![], ecdsa(0x81), ecdsa(0x81), script.clone()];
    assert!(witness_signed(&two));
    let mixed = vec![vec![], ecdsa(0x81), ecdsa(0x01), script.clone()];
    assert!(!witness_signed(&mixed));
    assert!(!witness_signed(&vec![vec![], script]));
    assert!(!witness_signed(&vec![vec![]]));
}

#[test]
fn legacy_signatures() {
    assert!(script_sig_signed(&legacy_unlock(0x81)));
    assert!(!script_sig_signed(&legacy_unlock(0x01)));
    assert!(is_input_signed(&input(1, legacy_unlock(0x81), vec![])));
    assert!(!is_input_signed(&input(1, legacy_unlock(0x02), vec![])));
    // two signatures of a bare multisig
    let mut both = vec![0x00];
    both.extend(push(&ecdsa(0x81)));
    both.extend(push(&ecdsa(0x81)));
    assert!(script_sig_signed(&both));
    both.extend(push(&ecdsa(0x03)));
    assert!(!script_sig_signed(&both));
    // no signature at all
    assert!(!script_sig_signed(&push(&[0x02; 33])));
    assert!(!script_sig_signed(&vec![]));
    assert!(!script_sig_signed(&vec![0x51]));
    // a push that is cut short
    assert!(!script_sig_signed(&vec![71, 0x30]));
}

#[test]
fn hash_types_of_signatures() {
    assert!(signature_types_ok(&vec![None, Some(0x81), Some(0x81)]));
    assert!(!signature_types_ok(&vec![Some(0x81), Some(0x01)]));
    assert!(!signature_types_ok(&vec![None, None]));
    assert!(!signature_types_ok(&vec![]));
}

#[test]
fn disposals_with_the_burn_output_of_the_first_are_found() {
    let mempool = vec![
        burning(&p2tr(), vec![taproot_input(1)]),
        burning(ASH, vec![taproot_input(2)]),
        burning(EMPTY, vec![taproot_input(3)]),
        burning(ASH, vec![input(4, vec![], vec![schnorr(1)])]),
        burning(ASH, vec![taproot_input(5)]),
    ];
    let found = find_unconfirmed_ddust_txs(&mempool);
    assert_eq!(found.len(), 2);
    assert_eq!(found[0].input[0].previous_output, outpoint(2));
    assert_eq!(found[1].input[0].previous_output, outpoint(5));
    assert!(found.iter().all(|tx| tx.output[0].script_pubkey == ASH));
    assert_eq!(find_unconfirmed_ddust_txs(&vec![]).len(), 0);
}

// Dust.

#[test]
fn dust_is_unspent_confirmed_and_within_the_threshold() {
    assert!(is_dust(&local(1, &p2tr(), 546), 546));
    assert!(!is_dust(&local(1, &p2tr(), 547), 546));
    let mut spent = local(1, &p2tr(), 1);
    spent.is_spent = true;
    assert!(!is_dust(&spent, 546));
    let mut unconfirmed = local(1, &p2tr(), 1);
    unconfirmed.is_confirmed = false;
    assert!(!is_dust(&unconfirmed, 546));
}

#[test]
fn addresses_that_guard_funds_are_skipped() {
    let mut outputs = vec![
        local(1, &p2tr(), 400),
        local(2, &p2tr(), 700),
        local(3, &p2pkh(), 400),
    ];
    assert!(holds_non_dust(&p2tr(), &outputs, 546));
    assert!(!holds_non_dust(&p2pkh(), &outputs, 546));
    assert!(!is_disposable(&outputs[0], &outputs, 546, false));
    assert!(is_disposable(&outputs[0], &outputs, 546, true));
    assert!(is_disposable(&outputs[2], &outputs, 546, false));
    assert_eq!(select_dust(&outputs, &p2tr(), 546, false).len(), 0);
    assert_eq!(select_dust(&outputs, &p2tr(), 546, true).len(), 1);
    // once they are spent, nothing is exposed
    outputs[1].is_spent = true;
    assert!(!holds_non_dust(&p2tr(), &outputs, 546));
    assert_eq!(select_dust(&outputs, &p2tr(), 546, false).len(), 1);
    // funds that are not confirmed yet count too
    outputs[1].is_spent = false;
    outputs[1].is_confirmed = false;
    assert!(holds_non_dust(&p2tr(), &outputs, 546));
}

#[test]
fn all_dust_of_one_address_is_selected_and_no_other() {
    let outputs = vec![
        local(1, &p2tr(), 400),
        local(2, &p2pkh(), 300),
        local(3, &p2tr(), 200),
    ];
    let dust = select_dust(&outputs, &p2tr(), 546, false);
    assert_eq!(dust.len(), 2);
    assert_eq!(dust[0].outpoint, outpoint(1));
    assert_eq!(dust[1].outpoint, outpoint(3));
    assert!(dust.iter().all(|out| out.txout.script_pubkey == p2tr()));
    assert_eq!(sum_values(&dust), 600);
}

#[test]
fn dust_is_listed_by_address() {
    let wallets = vec![
        vec![local(1, &p2tr(), 400), local(2, &p2wpkh(), 300)],
        vec![],
        vec![local(3, &p2pkh(), 1), local(4, &p2sh(), 2), local(5, &p2wsh(), 3)],
    ];
    let list = cmd_list(&wallets, REGTEST, 546, false);
    let addresses: Vec<&str> = list.iter().map(|dust| dust.address.as_str()).collect();
    assert_eq!(
        addresses,
        vec![
            "bcrt1pqurswpc8qurswpc8qurswpc8qurswpc8qurswpc8qurswpc8qurs2ajwcf",
            "bcrt1qqurswpc8qurswpc8qurswpc8qurswpc8dxm0gk",
            "mgA7SfyBBrVGVSpQ7oqGHPhxpp2gUZWtfc",
            "2MstP8uJfYBsk1HfmCU9MW3qqKgvrw3ESd1",
            "bcrt1qqurswpc8qurswpc8qurswpc8qurswpc8qurswpc8qurswpc8qursq2j8q4",
        ]
    );
    let values: Vec<u32> = list.iter().map(|dust| dust.value).collect();
    assert_eq!(values, vec![400, 300, 1, 2, 3]);
    // what is listed is found again by its address
    for (dust, script) in list.iter().zip([p2tr(), p2wpkh(), p2pkh(), p2sh(), p2wsh()]) {
        assert_eq!(parse_address(&dust.address, REGTEST), Ok(script));
    }
    let main = cmd_list(&wallets, Network::Bitcoin, 546, false);
    assert_eq!(main[1].address, "bc1qqurswpc8qurswpc8qurswpc8qurswpc89fe3yv");
    assert_eq!(main[2].address, "1eA9ctCNq41iLLnQErtTUVdxpRyZ9hZmW");
}

#[test]
fn a_listed_value_keeps_its_low_bits() {
    let wallets = vec![vec![local(1, &p2tr(), 0x1_0000_0005)]];
    assert_eq!(cmd_list(&wallets, REGTEST, u64::MAX, false)[0].value, 5);
}

#[test]
fn a_witness_program_of_a_later_version_has_an_address() {
    let wallets = vec![vec![local(1, &program(0x60, 2), 1)]];
    let list = cmd_list(&wallets, REGTEST, 546, false);
    assert_eq!(parse_address(&list[0].address, REGTEST), Ok(program(0x60, 2)));
}

// Addresses.

#[test]
fn addresses_are_read_for_one_network() {
    let tb = "tb1qqurswpc8qurswpc8qurswpc8qurswpc800zzll";
    assert_eq!(parse_address(tb, Network::Testnet), Ok(p2wpkh()));
    assert_eq!(parse_address(tb, Network::Signet), Ok(p2wpkh()));
    assert_eq!(parse_address(tb, Network::Bitcoin), Err(AddressError::WrongNetwork));
    assert_eq!(parse_address(tb, REGTEST), Err(AddressError::WrongNetwork));
    // legacy addresses do not tell the test networks apart
    let test = "mgA7SfyBBrVGVSpQ7oqGHPhxpp2gUZWtfc";
    assert_eq!(parse_address(test, REGTEST), Ok(p2pkh()));
    assert_eq!(parse_address(test, Network::Testnet4), Ok(p2pkh()));
    assert_eq!(parse_address(test, Network::Bitcoin), Err(AddressError::WrongNetwork));
    let main = "32LB5ANdvjNPoW3DXLXUt6ra7Lih9WeBJN";
    assert_eq!(parse_address(main, Network::Bitcoin), Ok(p2sh()));
}

#[test]
fn texts_that_are_no_addresses_are_refused() {
    for text in ["", "ash", "bcrt1qqurswpc8qurswpc8qurswpc8qurswpc8dxm0gq"] {
        assert_eq!(parse_address(text, REGTEST), Err(AddressError::Malformed));
    }
}

#[test]
fn what_reading_an_address_comes_to() {
    assert_eq!(read_address(true, Some(vec![1])), Ok(vec![1]));
    assert_eq!(read_address(true, None), Err(AddressError::WrongNetwork));
    assert_eq!(read_address(false, None), Err(AddressError::Malformed));
    assert_eq!(read_address(false, Some(vec![1])), Err(AddressError::Malformed));
}

// Sizes of inputs.

#[test]
fn input_sizes_by_kind() {
    assert_eq!(estimate_input_vsize(&p2tr()).quarters, 231);
    assert_eq!(estimate_input_vsize(&p2wpkh()).quarters, 272);
    assert_eq!(estimate_input_vsize(&p2wsh()).quarters, 420);
    assert_eq!(estimate_input_vsize(&p2pkh()).quarters, 592);
    assert_eq!(estimate_input_vsize(&p2sh()).quarters, 1188);
}

#[test]
fn kinds_of_outputs() {
    for script in [p2pkh(), p2sh(), p2wpkh(), p2wsh(), p2tr()] {
        assert!(is_supported(&script));
        assert!(is_addressable(&script));
    }
    // later versions have addresses, but their inputs are not known
    assert!(is_addressable(&program(0x60, 40)) && !is_supported(&program(0x60, 40)));
    // no address: version 0 of another length, a length that is off, no known kind
    for script in [program(0, 21), program(0x51, 1), program(0x51, 41), vec![], EMPTY.to_vec()] {
        assert!(!is_addressable(&script) && !is_supported(&script));
    }
    let mut short = p2tr();
    short.pop();
    assert!(!is_addressable(&short));
    // one byte off
    for (mut script, at) in [(p2pkh(), 24), (p2sh(), 22), (p2wpkh(), 1), (p2wsh(), 1), (p2tr(), 0)] {
        script[at] = 0xff;
        assert!(!is_supported(&script) && !is_addressable(&script));
    }
}

#[test]
fn estimates_cover_the_calculated_sizes() {
    let cfg = MultisigConfig::new(2, 3);
    let size = |t| TxSizeCalculator::single_input_vsize(t).quarters;
    assert_eq!(estimate_input_vsize(&p2tr()).quarters, size(InputType::P2TR));
    assert_eq!(estimate_input_vsize(&p2wpkh()).quarters, size(InputType::P2WPKH));
    assert_eq!(estimate_input_vsize(&p2pkh()).quarters, size(InputType::P2PKH));
    assert_eq!(
        estimate_input_vsize(&p2sh()).quarters,
        size(InputType::P2SH(P2SHInner::Multisig(cfg)))
    );
    assert!(estimate_input_vsize(&p2wsh()).quarters >= size(InputType::P2WSH(cfg)));
    assert!(estimate_input_vsize(&p2sh()).quarters >= size(InputType::P2SH(P2SHInner::P2WPKH)));
}

#[test]
fn sizes_of_signed_inputs() {
    // outpoint, empty script and sequence, then a count, a length and 65 bytes
    assert_eq!(get_input_vsize(&taproot_input(1)).quarters, 4 * 41 + 67);
    assert_eq!(satisfaction_weight(&taproot_input(1)), 231);
    // an input without a witness has a count of no items
    let legacy = input(1, legacy_unlock(0x81), vec![]);
    assert_eq!(get_input_vsize(&legacy).quarters, 4 * 147 + 1);
    assert_eq!(satisfaction_weight(&legacy), 589);
    // longer lengths
    let long = input(1, vec![0; 253], vec![vec![0; 253], vec![0; 0x1_0000]]);
    assert_eq!(
        get_input_vsize(&long).quarters,
        4 * (36 + 3 + 253 + 4) + 1 + (3 + 253) + (5 + 0x1_0000)
    );
}

// Merging.

fn disposals(n: u8) -> Vec<Transaction> {
    (1..=n).map(|i| burning(ASH, vec![taproot_input(i)])).collect()
}

fn entry(fee: u64, vsize: u64) -> MempoolEntry {
    MempoolEntry { fee, vsize }
}

fn merged(batch: &[Transaction]) -> Vec<u8> {
    batch.iter().map(|tx| tx.input[0].previous_output.txid[0]).collect()
}

#[test]
fn nothing_is_merged_without_dust_or_disposals() {
    assert_eq!(find_batchable_txs(&vec![entry(1, 83)], &vec![], &disposals(1)).len(), 0);
    let dust = vec![local(9, &p2tr(), 400)];
    assert_eq!(find_batchable_txs(&vec![], &dust, &vec![]).len(), 0);
}

#[test]
fn disposals_are_merged_by_ascending_rate() {
    let dust = vec![local(9, &p2tr(), 10_000)];
    let entries = vec![entry(300, 83), entry(100, 83), entry(200, 83), entry(100, 83)];
    let batch = find_batchable_txs(&entries, &dust, &disposals(4));
    assert_eq!(merged(&batch), vec![2, 4, 3, 1]);
}

#[test]
fn merging_stops_at_the_first_that_is_not_outbid() {
    let dust = vec![local(9, &p2tr(), 400)];
    // 82.25 vB: 500 / 140 = 3.57 > 1.2, then 1500 / 197.75 = 7.6 < 12
    let entries = vec![entry(1000, 83), entry(100, 83)];
    let batch = find_batchable_txs(&entries, &dust, &disposals(2));
    assert_eq!(merged(&batch), vec![2]);
}

#[test]
fn an_equal_rate_is_not_enough() {
    // (56 + 84) / 140 = 1
    let dust = vec![local(9, &p2tr(), 56)];
    assert_eq!(find_batchable_txs(&vec![entry(84, 84)], &dust, &disposals(1)).len(), 0);
    let dust = vec![local(9, &p2tr(), 57)];
    assert_eq!(find_batchable_txs(&vec![entry(84, 84)], &dust, &disposals(1)).len(), 1);
}

#[test]
fn a_replacement_evicts_a_hundred_at_most() {
    let dust = vec![local(255, &p2tr(), 100_000)];
    let entries = vec![entry(100, 83); 120];
    assert_eq!(find_batchable_txs(&entries, &dust, &disposals(120)).len(), MAX_REPLACED);
    assert_eq!(MAX_REPLACED, 100);
}

#[test]
fn the_size_of_a_replacement_goes_by_the_burn_output() {
    // 10.5 + 57.75 + 11 + 57.75 = 137 with the empty output, 140 with "ash"
    let dust = vec![local(9, &p2tr(), 14)];
    let mut txs = disposals(1);
    assert_eq!(find_batchable_txs(&vec![entry(1, 83)], &dust, &txs).len(), 1);
    let dust = vec![local(9, &p2tr(), 54)];
    assert_eq!(find_batchable_txs(&vec![entry(84, 84)], &dust, &txs).len(), 0);
    txs[0].output[0].script_pubkey = EMPTY.to_vec();
    assert_eq!(find_batchable_txs(&vec![entry(84, 84)], &dust, &txs).len(), 1);
}

// Plans.

#[test]
fn a_plan_without_dust_is_none() {
    assert!(plan_spend(&vec![], &vec![], &vec![]).is_none());
}

#[test]
fn a_plan_pays_a_tenth_of_a_satoshi_a_virtual_byte() {
    // the least that one input of each kind has to be worth
    for (script, signing, least) in [
        (p2tr(), 66, 9),               // 82.25 virtual bytes
        (p2wpkh(), 107, 10),           // 92.5
        (p2wsh(), 253, 13),            // 129
        (p2wsh(), 394, 17),            // 164.25, three of five
        (p2pkh(), 428, 17),            // 169.75
        (p2sh(), 199, 12),             // 112.5, a witness program inside
        (p2sh(), 1024, 32),            // 318.75, a bare two of three
        (program(0x60, 2), 66, 9),     // 82.25
        (program(0x60, 2), 1000, 32),  // 315.75
    ] {
        let dust = |value| vec![weighing(1, &script, value, signing)];
        assert!(plan_spend(&dust(least - 1), &vec![], &vec![]).is_none());
        let plan = plan_spend(&dust(least), &vec![], &vec![]).unwrap();
        assert_eq!(plan.fee, least);
    }
    // two taproot inputs: 10.5 + 115.5 + 11 = 137
    let two = |value| vec![local(1, &p2tr(), value), local(2, &p2tr(), 1)];
    assert!(plan_spend(&two(12), &vec![], &vec![]).is_none());
    assert!(plan_spend(&two(13), &vec![], &vec![]).is_some());
    // with a merged input, its value and its size count: 137 + 3 for "ash"
    let batch = vec![burning(ASH, vec![taproot_input(3)])];
    let prev = |value| {
        let mut tx = burning(&p2tr(), vec![]);
        tx.output[0].value = value;
        vec![vec![tx]]
    };
    let one = vec![local(1, &p2tr(), 5)];
    assert!(plan_spend(&one, &batch, &prev(8)).is_none());
    assert!(plan_spend(&one, &batch, &prev(9)).is_some());
    // dust and a disposal that each pay for themselves do so together
    assert!(plan_spend(&vec![local(1, &p2tr(), 9)], &vec![], &vec![]).is_some());
    assert!(plan_spend(&vec![local(1, &p2tr(), 9)], &batch, &prev(9)).is_some());
    // an input of a kind that is not estimated counts by its weight too: 223.5
    let other = |value| vec![weighing(1, &program(0x60, 2), value, 400)];
    assert!(plan_spend(&other(14), &batch, &prev(8)).is_none());
    assert!(plan_spend(&other(14), &batch, &prev(9)).is_some());
    // so does the heaviest there can be
    let heaviest = vec![weighing(1, &p2wsh(), 546, u64::MAX)];
    assert!(plan_spend(&heaviest, &vec![], &vec![]).is_none());
}

#[test]
fn a_plan_covers_the_signed_transaction() {
    // a witness program inside P2SH, once signed: 450 weight units
    let mut unlock = vec![0x16, 0x00, 0x14];
    unlock.extend(vec![7; 20]);
    let signed = input(1, unlock, vec![ecdsa(0x81), vec![0x02; 33]]);
    assert!(get_input_vsize(&signed).quarters <= 165 + 199);
    assert!(plan_spend(&vec![local(1, &p2sh(), 20)], &vec![], &vec![]).is_some());
    // many inputs take a longer count: 253 * 57.75 + 10.5 + 2 + 11
    let many = |value| {
        let mut dust: Vec<LocalOutput> = (0..252).map(|_| local(1, &p2tr(), 5)).collect();
        dust.push(local(1, &p2tr(), value));
        dust
    };
    assert!(plan_spend(&many(203), &vec![], &vec![]).is_none());
    assert!(plan_spend(&many(204), &vec![], &vec![]).is_some());
}

#[test]
fn what_can_be_planned() {
    let dust = vec![local(9, &p2tr(), 500)];
    let batch = vec![burning(ASH, vec![taproot_input(1)])];
    let prev = burning(&p2tr(), vec![]);
    assert!(can_plan(&dust, &batch, &vec![vec![prev.clone()]]));
    assert!(can_plan(&dust, &vec![], &vec![]));
    // a transaction that is spent from is missing, or its output is
    assert!(!can_plan(&dust, &batch, &vec![]));
    assert!(!can_plan(&dust, &batch, &vec![vec![]]));
    let mut bare = prev.clone();
    bare.output.clear();
    assert!(!can_plan(&dust, &batch, &vec![vec![bare]]));
    // no burn output to keep
    let mut unburned = batch.clone();
    unburned[0].output.clear();
    assert!(!can_plan(&dust, &unburned, &vec![vec![prev.clone()]]));
    // more value than a machine integer holds
    let mut rich = prev;
    rich.output[0].value = u64::MAX;
    assert!(!can_plan(&dust, &batch, &vec![vec![rich]]));
    assert_eq!(checked_sum_values(&dust), Some(500));
    assert_eq!(checked_sum_values(&vec![local(1, &[], u64::MAX), local(2, &[], 1)]), None);
}

#[test]
fn what_can_be_merged() {
    let dust = vec![local(9, &p2tr(), 500)];
    assert!(can_merge(&vec![entry(1, 83)], &dust, &disposals(1)));
    assert!(!can_merge(&vec![], &dust, &disposals(1)));
    assert!(!can_merge(&vec![entry(0, 0)], &dust, &disposals(1)));
    assert!(!can_merge(&vec![entry(u64::MAX, 83)], &dust, &disposals(1)));
    let unknown = vec![local(9, &program(0x60, 2), 500)];
    assert!(!can_merge(&vec![entry(1, 83)], &unknown, &disposals(1)));
    assert!(are_supported(&dust) && !are_supported(&unknown));
    let mut unburned = disposals(1);
    unburned[0].output.clear();
    assert!(!can_merge(&vec![entry(1, 83)], &dust, &unburned));
    assert!(is_weighable(&taproot_input(1)));
}

#[test]
fn what_can_be_listed() {
    let outputs = vec![local(1, &p2tr(), 400), local(2, &[0x51], 4_000)];
    assert!(is_listable(&outputs, 546, false));
    assert!(!is_listable(&outputs, 4_000, false));
}

#[test]
fn data_of_burn_outputs() {
    assert_eq!(op_return_data(&EMPTY.to_vec()), Vec::<u8>::new());
    assert_eq!(op_return_data(&ASH.to_vec()), b"ash");
    assert_eq!(op_return_data(&vec![0x6a]), Vec::<u8>::new());
    assert_eq!(op_return_data(&vec![0x00, 0x01, 0x02]), Vec::<u8>::new());
    assert_eq!(op_return_data(&vec![]), Vec::<u8>::new());
}

#[test]
fn burn_outputs_of_plans() {
    for (script, burn) in [
        (p2tr(), ASH),
        (p2wpkh(), ASH),
        (p2wsh(), ASH),
        (p2pkh(), EMPTY),
        (p2sh(), EMPTY),
    ] {
        let one = plan_spend(&vec![local(1, &script, 500)], &vec![], &vec![]).unwrap();
        assert_eq!(one.sighash.hash_type(), 0x81);
        assert_eq!(one.burn, burn);
        assert_eq!(one.sequence, 0xffff_fffd);
        assert_eq!(one.lock_height, 0);
        let two = vec![local(1, &script, 500), local(2, &script, 600)];
        let two = plan_spend(&two, &vec![], &vec![]).unwrap();
        assert_eq!(two.burn, EMPTY);
        assert_eq!(two.fee, 1100);
        assert_eq!(two.utxos, vec![outpoint(1), outpoint(2)]);
    }
}

#[test]
fn a_merging_plan_keeps_the_burn_output() {
    let dust = vec![local(9, &p2pkh(), 500)];
    let prev = burning(&p2tr(), vec![]);
    for burn in [EMPTY, ASH] {
        let batch = vec![burning(burn, vec![taproot_input(1)])];
        let plan = plan_spend(&dust, &batch, &vec![vec![prev.clone()]]).unwrap();
        assert_eq!(plan.burn, burn);
        assert_eq!(plan.sighash, SighashKind::Ecdsa);
    }
}

#[test]
fn long_burn_data_is_pushed_with_its_length() {
    // what follows the push opcode of the output that is merged is one push again
    let mut burn = vec![0x6a, 0x4c];
    burn.extend(vec![9; 76]);
    let dust = vec![local(9, &p2tr(), 500)];
    let batch = vec![burning(&burn, vec![])];
    let plan = plan_spend(&dust, &batch, &vec![vec![]]).unwrap();
    assert_eq!(plan.data, vec![9; 76]);
    assert_eq!(plan.burn, burn[..2].iter().chain(&[76]).chain(&burn[2..]).copied().collect::<Vec<u8>>());
    let mut burn = vec![0x6a, 0x4d];
    burn.extend(vec![9; 256]);
    let batch = vec![burning(&burn, vec![])];
    let plan = plan_spend(&dust, &batch, &vec![vec![]]).unwrap();
    assert_eq!(plan.burn[..4], [0x6a, 0x4d, 0x00, 0x01]);
    assert_eq!(plan.burn.len(), 4 + 256);
}

#[test]
fn inputs_are_taken_over_unchanged() {
    let segwit = input(1, vec![], vec![ecdsa(0x81), vec![2; 33]]);
    let legacy = input(2, legacy_unlock(0x81), vec![]);
    let taproot = taproot_input(3);
    let txs = vec![
        burning(EMPTY, vec![segwit.clone(), legacy.clone()]),
        burning(EMPTY, vec![taproot.clone()]),
    ];
    let prev = |script: &[u8], value: u64| {
        let mut tx = burning(script, vec![]);
        tx.output[0].value = value;
        tx
    };
    let prevs = vec![
        vec![prev(&p2wpkh(), 1), prev(&p2pkh(), 20)],
        vec![prev(&p2tr(), 300)],
    ];
    let (added, amount) = add_foreign_utxos(&txs, &prevs);
    assert_eq!(amount, 321);
    assert_eq!(added.len(), 3);
    for (foreign, input) in added.iter().zip([&segwit, &legacy, &taproot]) {
        assert_eq!(foreign.outpoint, input.previous_output);
        assert_eq!(foreign.sequence, input.sequence);
        assert_eq!(foreign.satisfaction_weight, satisfaction_weight(input));
        assert_eq!(foreign.final_script_sig.clone().unwrap_or_default(), input.script_sig);
        assert_eq!(foreign.final_script_witness.clone().unwrap_or_default(), input.witness);
    }
    assert_eq!(added[0].non_witness_utxo.as_ref().unwrap().output[0].value, 1);
    assert!(added[0].witness_utxo.is_none() && added[0].final_script_sig.is_none());
    assert_eq!(added[1].non_witness_utxo.as_ref().unwrap().output[0].value, 20);
    assert!(added[1].final_script_witness.is_none());
    assert_eq!(added[2].witness_utxo.as_ref().unwrap().value, 300);
    assert!(added[2].non_witness_utxo.is_none());
}

// Plain values.

#[test]
fn ids_of_transactions() {
    // the first transaction there is
    let mut unlock = vec![0x04, 0xff, 0xff, 0x00, 0x1d, 0x01, 0x04, 0x45];
    unlock.extend("The Times 03/Jan/2009 Chancellor on brink of second bailout for banks".bytes());
    let mut script = vec![0x41];
    script.extend(GENESIS_KEY);
    script.push(0xac);
    let genesis = Transaction {
        version: 1,
        lock_time: 0,
        input: vec![TxIn {
            previous_output: OutPoint { txid: [0; 32], vout: u32::MAX },
            script_sig: unlock,
            sequence: u32::MAX,
            witness: vec![],
        }],
        output: vec![TxOut { value: 50 * 100_000_000, script_pubkey: script }],
    };
    let mut id: Vec<u8> = GENESIS_ID.to_vec();
    id.reverse();
    assert_eq!(tx_ids(&vec![genesis])[0].to_vec(), id);
    // witnesses do not count, all else does
    let tx = burning(ASH, vec![taproot_input(1)]);
    let mut unsigned = tx.clone();
    unsigned.input[0].witness.clear();
    let mut later = tx.clone();
    later.lock_time = 1;
    let mut newer = tx.clone();
    newer.version = 3;
    let mut other = tx.clone();
    other.input[0].sequence = 0;
    let mut elsewhere = tx.clone();
    elsewhere.input[0].previous_output.vout = 1;
    let mut unlocked = tx.clone();
    unlocked.input[0].script_sig.push(1);
    let mut paying = tx.clone();
    paying.output[0].value = 1;
    let mut burned = tx.clone();
    burned.output[0].script_pubkey = EMPTY.to_vec();
    let ids = tx_ids(&vec![
        tx, unsigned, later, newer, other, elsewhere, unlocked, paying, burned,
    ]);
    assert_eq!(ids.len(), 9);
    assert_eq!(ids[0], ids[1]);
    for id in &ids[2..] {
        assert_ne!(ids[0], *id);
    }
    assert!(tx_ids(&vec![]).is_empty());
}

/// The key of the first output there is.
const GENESIS_KEY: [u8; 65] = [
    0x04, 0x67, 0x8a, 0xfd, 0xb0, 0xfe, 0x55, 0x48, 0x27, 0x19, 0x67, 0xf1, 0xa6, 0x71, 0x30, 0xb7,
    0x10, 0x5c, 0xd6, 0xa8, 0x28, 0xe0, 0x39, 0x09, 0xa6, 0x79, 0x62, 0xe0, 0xea, 0x1f, 0x61, 0xde,
    0xb6, 0x49, 0xf6, 0xbc, 0x3f, 0x4c, 0xef, 0x38, 0xc4, 0xf3, 0x55, 0x04, 0xe5, 0x1e, 0xc1, 0x12,
    0xde, 0x5c, 0x38, 0x4d, 0xf7, 0xba, 0x0b, 0x8d, 0x57, 0x8a, 0x4c, 0x70, 0x2b, 0x6b, 0xf1, 0x1d,
    0x5f,
];

/// Its transaction, as it is written down.
const GENESIS_ID: [u8; 32] = [
    0x4a, 0x5e, 0x1e, 0x4b, 0xaa, 0xb8, 0x9f, 0x3a, 0x32, 0x51, 0x8a, 0x88, 0xc3, 0x1b, 0xc8, 0x7f,
    0x61, 0x8f, 0x76, 0x67, 0x3e, 0x2c, 0xc7, 0x7a, 0xb2, 0x12, 0x7b, 0x7a, 0xfd, 0xed, 0xa3, 0x3b,
];

#[test]
fn copies_are_equal() {
    let bytes = vec![1, 2, 3];
    assert_eq!(copy_bytes(&bytes), bytes);
    let items = vec![vec![1], vec![], vec![2, 3]];
    assert_eq!(copy_stack(&items), items);
    assert!(same_bytes(&bytes, &[1, 2, 3]));
    assert!(!same_bytes(&bytes, &[1, 2]));
    assert!(!same_bytes(&bytes, &[1, 2, 4]));
    let tx = burning(ASH, vec![taproot_input(1)]);
    let copy = tx.clone();
    assert_eq!(format!("{:?}", copy), format!("{:?}", tx));
}
