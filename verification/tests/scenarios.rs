use bdk_wallet::bitcoin::Network;
use ddust::address::parse_address;
use ddust::batch::MempoolEntry;
use ddust::calc::{InputType, TxSizeCalculator};
use ddust::disposal::is_ddust_tx;
use ddust::dust::{cmd_list, Dust, LocalOutput};
use ddust::session::{can_answer, cmd_spend, SpendEvent, SpendRequest, SpendState};
use ddust::size::get_input_vsize;
use ddust::spend::{SighashKind, SpendPlan};
use ddust::tx::{OutPoint, Transaction, TxIn, TxOut};
use ddust::wallet::{
    cmd_add, sync_wallet, AddAction, BlockId, SyncEvent, SyncState, WalletSync,
};

const NETWORK: Network = Network::Regtest;
const EMPTY: &[u8] = &[0x6a, 0x00];
const ASH: &[u8] = &[0x6a, 0x03, 0x61, 0x73, 0x68];

#[derive(Clone, Copy)]
enum AddressType {
    Legacy,
    P2shSegwit,
    Bech32,
    Bech32m,
}

/// A chain with one wallet that owns every output, and a mempool.
struct TestContext {
    confirmed: Vec<Transaction>,
    unspent: Vec<LocalOutput>,
    mempool: Vec<Transaction>,
    next: u8,
}

impl TestContext {
    fn new() -> Self {
        TestContext {
            confirmed: Vec::new(),
            unspent: Vec::new(),
            mempool: Vec::new(),
            next: 0,
        }
    }

    /// The script of a new address.
    fn new_address(&mut self, addr_type: AddressType) -> Vec<u8> {
        self.next += 1;
        let n = self.next;
        match addr_type {
            AddressType::Legacy => {
                let mut script = vec![0x76, 0xa9, 0x14];
                script.extend(vec![n; 20]);
                script.extend(vec![0x88, 0xac]);
                script
            }
            AddressType::P2shSegwit => {
                let mut script = vec![0xa9, 0x14];
                script.extend(vec![n; 20]);
                script.push(0x87);
                script
            }
            AddressType::Bech32 => {
                let mut script = vec![0x00, 0x14];
                script.extend(vec![n; 20]);
                script
            }
            AddressType::Bech32m => {
                let mut script = vec![0x51, 0x20];
                script.extend(vec![n; 32]);
                script
            }
        }
    }

    fn txid(&self, index: usize) -> [u8; 32] {
        let mut txid = [0; 32];
        txid[0] = (index % 256) as u8;
        txid[1] = (index / 256) as u8;
        txid
    }

    fn send(&mut self, script: &Vec<u8>, sats: u64, is_confirmed: bool) {
        let txout = TxOut {
            value: sats,
            script_pubkey: script.clone(),
        };
        let outpoint = OutPoint {
            txid: self.txid(self.confirmed.len()),
            vout: 0,
        };
        self.confirmed.push(Transaction {
            version: 2,
            lock_time: 0,
            input: vec![],
            output: vec![txout.clone()],
        });
        let satisfaction_weight = match script[0] {
            0x76 => 428,
            0xa9 => 199,
            0x00 => 107,
            _ => 66,
        };
        self.unspent.push(LocalOutput {
            outpoint,
            txout,
            is_spent: false,
            is_confirmed,
            satisfaction_weight,
        });
    }

    fn previous(&self, outpoint: &OutPoint) -> Transaction {
        self.confirmed[outpoint.txid[0] as usize + 256 * outpoint.txid[1] as usize].clone()
    }

    /// The fee of a transaction whose output is worth nothing.
    fn fee(&self, tx: &Transaction) -> u64 {
        tx.input
            .iter()
            .map(|input| {
                let prev = self.previous(&input.previous_output);
                prev.output[input.previous_output.vout as usize].value
            })
            .sum()
    }

    fn entry(&self, tx: &Transaction) -> MempoolEntry {
        let inputs: u64 = tx.input.iter().map(|input| get_input_vsize(input).quarters).sum();
        let segwit = tx.input.iter().any(|input| !input.witness.is_empty());
        let output = 4 * (9 + tx.output[0].script_pubkey.len() as u64);
        let weight = if segwit {
            40 + 2 + inputs + output
        } else {
            // no counts of witness items
            40 + inputs - tx.input.len() as u64 + output
        };
        MempoolEntry {
            fee: self.fee(tx),
            vsize: (weight + 3) / 4,
        }
    }

    fn list(&self, dust_sats: u64, allow_exposed: bool) -> Vec<Dust> {
        cmd_list(&vec![self.unspent.clone()], NETWORK, dust_sats, allow_exposed)
    }

    /// Answers what is asked until there is a plan, or no more dust to be found.
    fn spend(&self, script: &Vec<u8>, dust_sats: u64) -> Option<SpendPlan> {
        let request = SpendRequest {
            script: script.clone(),
            dust_amount: dust_sats,
            allow_exposed: false,
        };
        let wallet = SpendEvent::Wallet(self.unspent.clone());
        let mut state = cmd_spend(&request, SpendState::Wallets, wallet);
        loop {
            let event = match &state {
                SpendState::Wallets | SpendState::BelowFloor => return None,
                SpendState::Mempool(_) => SpendEvent::Mempool(self.mempool.clone()),
                SpendState::Entries(_, unconfirmed) => {
                    SpendEvent::Entries(unconfirmed.iter().map(|tx| self.entry(tx)).collect())
                }
                SpendState::Previous(_, batch) => {
                    SpendEvent::Previous(batch.iter().map(|tx| self.previous_txs(tx)).collect())
                }
                SpendState::Planned(_) => break,
            };
            assert!(can_answer(&state, &event));
            state = cmd_spend(&request, state, event);
        }
        match state {
            SpendState::Planned(plan) => Some(plan),
            _ => unreachable!(),
        }
    }

    fn previous_txs(&self, tx: &Transaction) -> Vec<Transaction> {
        tx.input
            .iter()
            .map(|input| self.previous(&input.previous_output))
            .collect()
    }

    fn sign(&self, plan: &SpendPlan) -> Transaction {
        let mut input = Vec::new();
        for outpoint in &plan.utxos {
            let prev = self.previous(outpoint);
            let script = &prev.output[outpoint.vout as usize].script_pubkey;
            let (script_sig, witness) = unlock(script);
            input.push(TxIn {
                previous_output: *outpoint,
                script_sig,
                sequence: plan.sequence,
                witness,
            });
        }
        for foreign in &plan.foreign {
            input.push(TxIn {
                previous_output: foreign.outpoint,
                script_sig: foreign.final_script_sig.clone().unwrap_or_default(),
                sequence: foreign.sequence,
                witness: foreign.final_script_witness.clone().unwrap_or_default(),
            });
        }
        Transaction {
            version: 2,
            lock_time: plan.lock_height,
            input,
            output: vec![TxOut {
                value: 0,
                script_pubkey: plan.burn.clone(),
            }],
        }
    }

    /// Puts a transaction into the mempool in place of those whose inputs it spends, and
    /// marks what it spends.
    fn broadcast(&mut self, tx: Transaction) {
        self.mempool.retain(|other| {
            !other.input.iter().any(|a| {
                tx.input
                    .iter()
                    .any(|b| a.previous_output == b.previous_output)
            })
        });
        for out in &mut self.unspent {
            if tx.input.iter().any(|a| a.previous_output == out.outpoint) {
                out.is_spent = true;
            }
        }
        self.mempool.push(tx);
    }

    fn broadcast_and_assert(&mut self, plan: SpendPlan, expected_inputs: usize, burn: &[u8]) {
        let tx = self.sign(&plan);
        assert!(is_ddust_tx(&tx, &None));
        assert_eq!(tx.input.len(), expected_inputs);
        assert_eq!(tx.output.len(), 1);
        assert_eq!(tx.output[0].script_pubkey, burn);
        assert_eq!(plan.fee, self.fee(&tx));
        self.broadcast(tx);
    }
}

/// A DER signature of 70 bytes with the hash type `ALL|ANYONECANPAY`.
fn ecdsa_signature() -> Vec<u8> {
    let mut sig = vec![0x30, 0x44, 0x02, 0x20];
    sig.extend(vec![0x11; 32]);
    sig.extend(vec![0x02, 0x20]);
    sig.extend(vec![0x22; 32]);
    sig.push(0x81);
    sig
}

fn unlock(script: &[u8]) -> (Vec<u8>, Vec<Vec<u8>>) {
    match script[0] {
        0x51 => {
            let mut sig = vec![0x33; 64];
            sig.push(0x81);
            (vec![], vec![sig])
        }
        0x00 => (vec![], vec![ecdsa_signature(), vec![0x02; 33]]),
        0x76 => {
            let mut script_sig = vec![71];
            script_sig.extend(ecdsa_signature());
            script_sig.push(33);
            script_sig.extend(vec![0x02; 33]);
            (script_sig, vec![])
        }
        _ => {
            let mut script_sig = vec![22, 0x00, 0x14];
            script_sig.extend(vec![0x55; 20]);
            (script_sig, vec![ecdsa_signature(), vec![0x02; 33]])
        }
    }
}

/// The fewest satoshis with which the size calculator sees a replacement reach the rate of
/// what it replaces, with the burn output that it keeps.
fn min_sats_for_batching(
    orig_tx_fee: u64,
    orig_tx_input_types: &[InputType],
    replacement_tx_input_type: InputType,
    burn: &[u8],
) -> u64 {
    let vsize = |tx: &TxSizeCalculator| {
        let size = tx.calculate_with_op_return(burn == ASH).vsize;
        (size.quarters as f64 / 4.0).ceil()
    };
    let mut orig_tx = TxSizeCalculator::new();
    for input_type in orig_tx_input_types {
        orig_tx = orig_tx.add_input(*input_type);
    }
    let orig_tx_vsize = vsize(&orig_tx);
    let replacement_tx_vsize = vsize(&orig_tx.add_input(replacement_tx_input_type));
    let fee_rate = orig_tx_fee as f64 / orig_tx_vsize;
    let rate_min_sats = (fee_rate * replacement_tx_vsize) as u64 - orig_tx_fee;
    let bandwidth_min_sats = (0.1 * replacement_tx_vsize) as u64;
    bandwidth_min_sats.max(rate_min_sats)
}

#[test]
fn test_cmd_add_list() {
    let mut ctx = TestContext::new();
    let dust_sats = 555;
    let addr1 = ctx.new_address(AddressType::Bech32m);
    // dust UTXO 1
    ctx.send(&addr1, 400, true);
    // non dust UTXO
    ctx.send(&addr1, 700, true);
    // dust UTXO 2
    ctx.send(&addr1, 401, true);
    let addr2 = ctx.new_address(AddressType::Bech32);
    // dust UTXO 3
    ctx.send(&addr2, 500, true);
    let addr3 = ctx.new_address(AddressType::Legacy);
    // dust UTXO 4
    ctx.send(&addr3, 546, true);
    // non-dust UTXO
    ctx.send(&addr3, 600, true);

    let dust = ctx.list(dust_sats, true);
    assert_eq!(dust.len(), 4);
    let values: Vec<u32> = dust.iter().map(|d| d.value).collect();
    assert_eq!(values, vec![400, 401, 500, 546]);

    // the first and the last address hold more than dust
    let dust = ctx.list(dust_sats, false);
    assert_eq!(dust.len(), 1);
    assert_eq!(dust[0].value, 500);
    assert_eq!(dust[0].outpoint, ctx.unspent[3].outpoint);
}

#[test]
fn test_cmd_add_start_height() {
    let mut ctx = TestContext::new();
    let dust_sats = 555;
    let start_height = 103;
    let addr = ctx.new_address(AddressType::Bech32m);

    // a node with 104 blocks, of which the last three pay to the address
    let paid = |height: u32| match height {
        102 => Some(400),
        103 => Some(401),
        104 => Some(402),
        _ => None,
    };
    let block = |height: u32| BlockId { height, hash: [height as u8; 32] };

    let desc = "tr([9a6a2580/84'/1'/0']tpubDDnGNapGEY6AZAdQbfRJgMg9fvz8pUBrLwvyvUqEgcUfgzM6zc2eVK4vY9x9L5FJWdX8WumXuLEDV5zDZnTfbn87vLe9XceCFwTu9so9Kks/0/*)";
    let plans = match cmd_add(desc, NETWORK, start_height, false) {
        Ok(AddAction::Create(plans)) => plans,
        other => panic!("unexpected {:?}", other),
    };
    assert_eq!(plans.len(), 1);

    // a new wallet is at the first block; the block it starts from is connected to that
    let mut sync = WalletSync { state: SyncState::Blocks, tip: block(0), unsaved: false };
    let mut applied = vec![];
    if let Some(height) = plans[0].start {
        sync = WalletSync { state: SyncState::Blocks, tip: block(height), unsaved: true };
        applied.push(height);
    }
    // the node goes on from the tip of the wallet
    while sync.state != SyncState::Done {
        let event = match sync.state {
            SyncState::Blocks if sync.tip.height < 104 => {
                SyncEvent::Block(block(sync.tip.height + 1))
            }
            SyncState::Blocks => SyncEvent::NoBlock,
            _ => SyncEvent::Unconfirmed,
        };
        let (next, action) = sync_wallet(sync, event);
        if let (SyncEvent::Block(block), true) = (event, action.apply) {
            applied.push(block.height);
        }
        sync = next;
    }
    assert_eq!(sync.tip, block(104));
    assert!(!sync.unsaved);

    for height in applied {
        if let Some(sats) = paid(height) {
            ctx.send(&addr, sats, true);
        }
    }
    let dust = ctx.list(dust_sats, false);
    assert_eq!(
        dust.len(),
        2,
        "should only find dust sent at or after start_height"
    );
}

#[test]
fn test_cmd_list_unconfirmed_dust() {
    let mut ctx = TestContext::new();
    let dust_sats = 555;
    let addr = ctx.new_address(AddressType::Bech32m);
    ctx.send(&addr, 400, true);
    ctx.send(&addr, 401, false);
    let dust = ctx.list(dust_sats, false);
    assert_eq!(dust.len(), 1, "should only find confirmed dust utxos");
    assert_eq!(dust[0].value, 400);
}

fn run_spend_test(addr_type: AddressType, dust_sats: u64, utxo_count: usize, burn: &[u8]) {
    let mut ctx = TestContext::new();
    let addr = ctx.new_address(addr_type);
    let send_amt = match addr_type {
        AddressType::Legacy | AddressType::P2shSegwit => 555,
        _ => 400,
    };
    for _ in 0..utxo_count {
        ctx.send(&addr, send_amt, true);
    }
    // by the address that is listed
    let listed = ctx.list(dust_sats, false);
    let script = parse_address(&listed[0].address, NETWORK).unwrap();
    assert_eq!(script, addr);
    let plan = ctx.spend(&script, dust_sats);
    assert!(plan.is_some(), "expected a psbt to be created");
    let plan = plan.unwrap();
    assert_eq!(plan.utxos.len(), utxo_count);
    assert_eq!(plan.fee, send_amt * utxo_count as u64);
    assert_eq!(plan.lock_height, 0);
    assert_eq!(plan.sequence, 0xffff_fffd);
    assert_eq!(
        plan.sighash,
        match addr_type {
            AddressType::Bech32m => SighashKind::Taproot,
            _ => SighashKind::Ecdsa,
        }
    );
    ctx.broadcast_and_assert(plan, utxo_count, burn);
}

#[test]
fn test_spend_single_non_witness() {
    run_spend_test(AddressType::Legacy, 600, 1, EMPTY);
    run_spend_test(AddressType::P2shSegwit, 600, 1, EMPTY);
}

#[test]
fn test_spend_single_witness() {
    run_spend_test(AddressType::Bech32m, 546, 1, ASH);
}

#[test]
fn test_spend_multiple_utxos() {
    run_spend_test(AddressType::Legacy, 600, 3, EMPTY);
    run_spend_test(AddressType::Bech32m, 546, 3, EMPTY);
}

#[test]
fn test_non_dust_spend() {
    let mut ctx = TestContext::new();
    let dust_sats = 600;
    let addr = ctx.new_address(AddressType::Bech32m);
    ctx.send(&addr, 1500, true);
    let result = ctx.spend(&addr, dust_sats);
    assert!(result.is_none(), "expected no Psbt created");
}

#[test]
fn test_spend_multisig() {
    let mut ctx = TestContext::new();
    let addr = ctx.new_address(AddressType::P2shSegwit);
    ctx.send(&addr, 555, true);
    let result = ctx.spend(&addr, 600);
    assert!(result.is_some(), "expected a psbt to be created");
    let plan = result.unwrap();
    // 2-of-2: both keys sign
    let mut tx = ctx.sign(&plan);
    let mut script_sig = vec![0x00];
    for _ in 0..2 {
        script_sig.push(71);
        script_sig.extend(ecdsa_signature());
    }
    script_sig.push(71);
    script_sig.extend(vec![0x52]);
    script_sig.extend(vec![0x21; 68]);
    script_sig.extend(vec![0x52, 0xae]);
    tx.input[0].script_sig = script_sig;
    tx.input[0].witness = vec![];
    assert!(is_ddust_tx(&tx, &None));
    assert_eq!(tx.input.len(), 1);
    assert_eq!(tx.output.len(), 1);
    assert_eq!(tx.output[0].script_pubkey, EMPTY);
}

#[test]
fn test_batch_legacy_bech32() {
    let mut ctx = TestContext::new();
    let addr1 = ctx.new_address(AddressType::Legacy);
    let amt1 = 555;
    ctx.send(&addr1, amt1, true);
    let addr2 = ctx.new_address(AddressType::Bech32m);
    let min_sats = min_sats_for_batching(amt1, &[InputType::P2PKH], InputType::P2WPKH, EMPTY);
    ctx.send(&addr2, min_sats + 1, true);

    let dust_sats = 600;
    let plan = ctx.spend(&addr1, dust_sats).unwrap();
    ctx.broadcast_and_assert(plan, 1, EMPTY);

    // the output of the transaction that is replaced is kept
    let plan = ctx.spend(&addr2, dust_sats).unwrap();
    assert_eq!(plan.fee, amt1 + min_sats + 1);
    ctx.broadcast_and_assert(plan, 2, EMPTY);
    assert_eq!(ctx.mempool.len(), 1);
}

#[test]
fn test_batch_bech32_legacy() {
    let mut ctx = TestContext::new();
    let addr1 = ctx.new_address(AddressType::Bech32);
    let amt1 = 555;
    ctx.send(&addr1, amt1, true);
    let addr2 = ctx.new_address(AddressType::Legacy);
    let min_sats = min_sats_for_batching(amt1, &[InputType::P2WPKH], InputType::P2PKH, ASH);
    ctx.send(&addr2, min_sats, true);

    let dust_sats = 1000;
    let plan = ctx.spend(&addr1, dust_sats).unwrap();
    ctx.broadcast_and_assert(plan, 1, ASH);

    // the output of the transaction that is replaced is kept
    let plan = ctx.spend(&addr2, dust_sats).unwrap();
    ctx.broadcast_and_assert(plan, 2, ASH);
    assert_eq!(ctx.mempool.len(), 1);
}

#[test]
fn test_batch_bech32_bech32() {
    let mut ctx = TestContext::new();
    let addr1 = ctx.new_address(AddressType::Bech32m);
    let amt1 = 400;
    ctx.send(&addr1, amt1, true);
    let addr2 = ctx.new_address(AddressType::Bech32m);
    let min_sats = min_sats_for_batching(amt1, &[InputType::P2TR], InputType::P2TR, ASH);
    ctx.send(&addr2, min_sats + 1, true);

    let dust_sats = 600;
    let plan = ctx.spend(&addr1, dust_sats).unwrap();
    ctx.broadcast_and_assert(plan, 1, ASH);

    // the output of the transaction that is replaced is kept
    let plan = ctx.spend(&addr2, dust_sats).unwrap();
    ctx.broadcast_and_assert(plan, 2, ASH);
    assert_eq!(ctx.mempool.len(), 1);
}

#[test]
fn test_batch_pick_batchable() {
    let mut ctx = TestContext::new();
    let addr1 = ctx.new_address(AddressType::Bech32m);
    let addr2 = ctx.new_address(AddressType::Bech32m);
    let addr3 = ctx.new_address(AddressType::Legacy);
    let addr4 = ctx.new_address(AddressType::Bech32);
    let addr5 = ctx.new_address(AddressType::Bech32m);

    // step 1: any valid starting dust (no mempool ddust yet)
    let amt1 = 300;
    ctx.send(&addr1, amt1, true);
    // step 2 (new P2TR input): batches the previous P2TR input
    let amt_batch_p2tr_p2tr =
        min_sats_for_batching(amt1, &[InputType::P2TR], InputType::P2TR, ASH) + 1;
    ctx.send(&addr2, amt_batch_p2tr_p2tr, true);
    // step 3 (new P2PKH input): doesn't batch
    let amt_no_batch_2p2tr_p2pkh = min_sats_for_batching(
        amt1 + amt_batch_p2tr_p2tr,
        &[InputType::P2TR, InputType::P2TR],
        InputType::P2PKH,
        ASH,
    ) - 1;
    ctx.send(&addr3, amt_no_batch_2p2tr_p2pkh, true);
    // step 4 (new P2WPKH input): doesn't batch
    let amt_p2wpkh_no_batch = min_sats_for_batching(
        amt_no_batch_2p2tr_p2pkh,
        &[InputType::P2PKH],
        InputType::P2WPKH,
        EMPTY,
    ) - 1;
    ctx.send(&addr4, amt_p2wpkh_no_batch, true);
    // step 5 (new P2TR input): just enough to batch the P2WPKH input
    ctx.send(&addr5, amt_p2wpkh_no_batch + 1, true);

    let dust_sats = 2500;
    // 1. standalone (no mempool ddust yet)
    let plan = ctx.spend(&addr1, dust_sats).unwrap();
    ctx.broadcast_and_assert(plan, 1, ASH);
    // 2. batches the input of the transaction before
    let plan = ctx.spend(&addr2, dust_sats).unwrap();
    ctx.broadcast_and_assert(plan, 2, ASH);
    // 3. standalone (P2PKH amount below the lowest batch threshold)
    let plan = ctx.spend(&addr3, dust_sats).unwrap();
    ctx.broadcast_and_assert(plan, 1, EMPTY);
    // 4. standalone (P2WPKH amount below the lowest batch threshold)
    let plan = ctx.spend(&addr4, dust_sats).unwrap();
    ctx.broadcast_and_assert(plan, 1, ASH);
    // 5. batches 1 unconfirmed transaction into a single 2-input replacement
    let plan = ctx.spend(&addr5, dust_sats).unwrap();
    ctx.broadcast_and_assert(plan, 2, ASH);
    assert_eq!(ctx.mempool.len(), 3);
}

#[test]
fn test_no_batch_insufficient_rate() {
    let mut ctx = TestContext::new();
    let addr1 = ctx.new_address(AddressType::Bech32m);
    let amt1 = 400;
    ctx.send(&addr1, amt1, true);
    let addr2 = ctx.new_address(AddressType::Bech32m);
    // less than what a replacement of a segwit input would take
    ctx.send(&addr2, 235, true);

    let dust_sats = 1000;
    let plan = ctx.spend(&addr1, dust_sats).unwrap();
    ctx.broadcast_and_assert(plan, 1, ASH);
    // the new rate would not exceed that of the first transaction
    let plan = ctx.spend(&addr2, dust_sats).unwrap();
    ctx.broadcast_and_assert(plan, 1, ASH);
    assert_eq!(ctx.mempool.len(), 2);
}

#[test]
fn test_batch_mempool_eviction_limit() {
    let mut ctx = TestContext::new();
    let mut addresses = vec![];
    // more than 100 dust UTXOs
    for _ in 0..120 {
        let addr = ctx.new_address(AddressType::Bech32m);
        ctx.send(&addr, 300, true);
        addresses.push(addr);
    }
    let addr_batcher1 = ctx.new_address(AddressType::Bech32m);
    ctx.send(&addr_batcher1, 1000, true);
    let addr_batcher2 = ctx.new_address(AddressType::Bech32m);
    ctx.send(&addr_batcher2, 1000, true);

    let dust_sats = 1000;
    // each by itself, with nothing in the mempool to merge
    let mut standalone = vec![];
    for addr in addresses {
        let plan = ctx.spend(&addr, dust_sats).unwrap();
        ctx.broadcast_and_assert(plan, 1, ASH);
        standalone.append(&mut ctx.mempool);
    }
    ctx.mempool = standalone;

    // 101 = one self + 100 from mempool
    let plan = ctx.spend(&addr_batcher1, dust_sats).unwrap();
    ctx.broadcast_and_assert(plan, 101, ASH);
    assert_eq!(ctx.mempool.len(), 21);

    // the remaining 20 and the one before
    let plan = ctx.spend(&addr_batcher2, dust_sats).unwrap();
    ctx.broadcast_and_assert(plan, 122, ASH);
    assert_eq!(ctx.mempool.len(), 1);
}

#[test]
fn a_taproot_disposal_is_merged_and_keeps_its_ash() {
    let mut ctx = TestContext::new();
    let addr1 = ctx.new_address(AddressType::Bech32m);
    ctx.send(&addr1, 400, true);
    let addr2 = ctx.new_address(AddressType::Bech32m);
    // 675 / 140 = 4.8214 just exceeds 400 / 83 = 4.8193
    ctx.send(&addr2, 275, true);
    let addr3 = ctx.new_address(AddressType::Bech32m);
    ctx.send(&addr3, 274, true);
    let plan = ctx.spend(&addr1, 600).unwrap();
    ctx.broadcast_and_assert(plan, 1, ASH);
    // 674 / 140 does not
    let plan = ctx.spend(&addr3, 600).unwrap();
    assert_eq!(plan.foreign.len(), 0);
    let plan = ctx.spend(&addr2, 600).unwrap();
    ctx.broadcast_and_assert(plan, 2, ASH);
    assert_eq!(ctx.mempool.len(), 1);
}

#[test]
fn a_segwit_disposal_is_merged_into_a_legacy_one_with_its_ash() {
    let mut ctx = TestContext::new();
    let addr1 = ctx.new_address(AddressType::Bech32);
    ctx.send(&addr1, 555, true);
    let addr2 = ctx.new_address(AddressType::Legacy);
    ctx.send(&addr2, 900, true);
    let plan = ctx.spend(&addr1, 1000).unwrap();
    ctx.broadcast_and_assert(plan, 1, ASH);
    let plan = ctx.spend(&addr2, 1000).unwrap();
    assert_eq!(plan.data, b"ash");
    assert_eq!(plan.foreign.len(), 1);
    // the transaction that is spent from stands by, and the signature is taken over
    assert!(plan.foreign[0].witness_utxo.is_none());
    assert!(plan.foreign[0].non_witness_utxo.is_some());
    assert_eq!(plan.foreign[0].final_script_witness, Some(ctx.mempool[0].input[0].witness.clone()));
    assert_eq!(plan.foreign[0].final_script_sig, None);
    assert_eq!(plan.foreign[0].satisfaction_weight, 41 * 4 + 107);
    assert_eq!(plan.foreign[0].sequence, 0xffff_fffd);
    ctx.broadcast_and_assert(plan, 2, ASH);
}

#[test]
fn dust_that_does_not_pay_for_its_bandwidth_merges_nothing() {
    let mut ctx = TestContext::new();
    let addr1 = ctx.new_address(AddressType::Bech32m);
    ctx.send(&addr1, 9, true);
    let addr2 = ctx.new_address(AddressType::Bech32m);
    // 13 < 0.1 * 140, though the rate would do
    ctx.send(&addr2, 13, true);
    let addr3 = ctx.new_address(AddressType::Bech32m);
    ctx.send(&addr3, 14, true);
    let plan = ctx.spend(&addr1, 600).unwrap();
    ctx.broadcast_and_assert(plan, 1, ASH);
    assert_eq!(ctx.spend(&addr2, 600).unwrap().foreign.len(), 0);
    assert_eq!(ctx.spend(&addr3, 600).unwrap().foreign.len(), 1);
}

#[test]
fn the_first_wallet_with_dust_spends() {
    let mut ctx = TestContext::new();
    let addr = ctx.new_address(AddressType::Bech32m);
    ctx.send(&addr, 400, true);
    ctx.send(&addr, 300, true);
    let request = SpendRequest {
        script: addr.clone(),
        dust_amount: 546,
        allow_exposed: false,
    };
    let first = vec![ctx.unspent[0].clone()];
    let second = vec![ctx.unspent[1].clone()];
    let state = cmd_spend(&request, SpendState::Wallets, SpendEvent::Wallet(vec![]));
    assert!(matches!(state, SpendState::Wallets));
    let state = cmd_spend(&request, state, SpendEvent::Wallet(first));
    let state = cmd_spend(&request, state, SpendEvent::Wallet(second));
    match state {
        SpendState::Mempool(dust) => {
            assert_eq!(dust.len(), 1);
            assert_eq!(dust[0].outpoint, ctx.unspent[0].outpoint);
        }
        other => panic!("unexpected {:?}", other),
    }
}

#[test]
fn an_answer_out_of_turn_is_ignored() {
    let mut ctx = TestContext::new();
    let addr = ctx.new_address(AddressType::Bech32m);
    ctx.send(&addr, 400, true);
    let request = SpendRequest {
        script: addr,
        dust_amount: 546,
        allow_exposed: false,
    };
    let state = cmd_spend(&request, SpendState::Wallets, SpendEvent::Mempool(vec![]));
    assert!(matches!(state, SpendState::Wallets));
    let state = cmd_spend(&request, state, SpendEvent::Wallet(ctx.unspent.clone()));
    let state = cmd_spend(&request, state, SpendEvent::Entries(vec![]));
    assert!(matches!(state, SpendState::Mempool(_)));
}

#[test]
fn dust_at_an_address_that_guards_funds_is_spent_on_demand_only() {
    let mut ctx = TestContext::new();
    let addr = ctx.new_address(AddressType::Bech32m);
    ctx.send(&addr, 400, true);
    ctx.send(&addr, 4000, true);
    assert!(ctx.spend(&addr, 546).is_none());
    let request = SpendRequest {
        script: addr,
        dust_amount: 546,
        allow_exposed: true,
    };
    let wallet = SpendEvent::Wallet(ctx.unspent.clone());
    let state = cmd_spend(&request, SpendState::Wallets, wallet);
    assert!(matches!(state, SpendState::Mempool(dust) if dust.len() == 1));
}

#[test]
fn dust_that_does_not_pay_for_itself_is_not_spent() {
    let mut ctx = TestContext::new();
    let addr = ctx.new_address(AddressType::Bech32m);
    // 5 / 82.25 = 0.06
    ctx.send(&addr, 5, true);
    let request = SpendRequest {
        script: addr.clone(),
        dust_amount: 546,
        allow_exposed: false,
    };
    let wallet = SpendEvent::Wallet(ctx.unspent.clone());
    let mut state = cmd_spend(&request, SpendState::Wallets, wallet);
    for event in [
        SpendEvent::Mempool(vec![]),
        SpendEvent::Entries(vec![]),
        SpendEvent::Previous(vec![]),
    ] {
        state = cmd_spend(&request, state, event);
    }
    assert!(matches!(state, SpendState::BelowFloor));
    assert!(ctx.spend(&addr, 546).is_none());
    // with more dust at the address it is: 14 / 137
    ctx.send(&addr, 9, true);
    assert!(ctx.spend(&addr, 546).is_some());
}

#[test]
fn answers_that_cannot_be_taken() {
    let mut ctx = TestContext::new();
    let addr = ctx.new_address(AddressType::Bech32m);
    ctx.send(&addr, 400, true);
    let plan = ctx.spend(&addr, 546).unwrap();
    let tx = ctx.sign(&plan);
    let state = SpendState::Entries(ctx.unspent.clone(), vec![tx.clone()]);
    assert!(can_answer(&state, &SpendEvent::Entries(vec![ctx.entry(&tx)])));
    assert!(!can_answer(&state, &SpendEvent::Entries(vec![])));
    // without disposals nothing is asked of the dust
    let mut odd = ctx.unspent[0].clone();
    odd.txout.script_pubkey = vec![0x51];
    let alone = SpendState::Entries(vec![odd.clone()], vec![]);
    assert!(can_answer(&alone, &SpendEvent::Entries(vec![])));
    let state = SpendState::Entries(vec![odd], vec![tx.clone()]);
    assert!(!can_answer(&state, &SpendEvent::Entries(vec![ctx.entry(&tx)])));
    let state = SpendState::Previous(ctx.unspent.clone(), vec![tx.clone()]);
    assert!(can_answer(&state, &SpendEvent::Previous(vec![ctx.previous_txs(&tx)])));
    assert!(!can_answer(&state, &SpendEvent::Previous(vec![])));
}
