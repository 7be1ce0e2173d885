use bdk_wallet::bitcoin::absolute::LockTime;
use bdk_wallet::bitcoin::consensus::encode::serialize;
use bdk_wallet::bitcoin::transaction::Version;
use bdk_wallet::bitcoin::{
    Amount, Network, OutPoint, Psbt, ScriptBuf, Sequence, Transaction, TxIn, TxOut, Witness,
};
use ddust::chain::{
    db_file_name, decimal_text, default_auth, default_rpc_port, default_url, Chain,
};
use ddust::psbt::{cmd_broadcast, finish_broadcast, parse_psbt, BroadcastError};
use ddust::wallet::{
    add_descriptor, choose_descriptors, cmd_add, create_wallet, emitter_height, is_selected,
    max_satisfaction_weight, parse_descriptor, plan_wallets, sync_wallet, table_wallet, wallet_name, wallet_names,
    AddAction, BlockId, DescriptorError, SyncAction, SyncEvent, SyncState, WalletSync,
};

const KEY: &str = "[9a6a2580/84'/1'/0']tpubDDnGNapGEY6AZAdQbfRJgMg9fvz8pUBrLwvyvUqEgcUfgzM6zc2eVK4vY9x9L5FJWdX8WumXuLEDV5zDZnTfbn87vLe9XceCFwTu9so9Kks";

fn receive() -> String {
    format!("wpkh({}/0/*)#76ngmkux", KEY)
}

fn change() -> String {
    format!("wpkh({}/1/*)#0wkfxrv7", KEY)
}

fn both() -> String {
    format!("wpkh({}/<0;1>/*)#06w0t393", KEY)
}

// Networks.

#[test]
fn networks_by_name() {
    for (chain, network) in [
        (Chain::Main, Network::Bitcoin),
        (Chain::Test, Network::Testnet),
        (Chain::Testnet4, Network::Testnet4),
        (Chain::Signet, Network::Signet),
        (Chain::Regtest, Network::Regtest),
    ] {
        assert_eq!(Network::from(chain), network);
    }
}

#[test]
fn where_a_local_node_answers() {
    for (network, port, url) in [
        (Network::Bitcoin, 8332, "http://127.0.0.1:8332"),
        (Network::Testnet, 18332, "http://127.0.0.1:18332"),
        (Network::Testnet4, 48332, "http://127.0.0.1:48332"),
        (Network::Signet, 38332, "http://127.0.0.1:38332"),
        (Network::Regtest, 18443, "http://127.0.0.1:18443"),
    ] {
        assert_eq!(default_rpc_port(&network), port);
        assert_eq!(default_url(&network), url);
    }
}

#[test]
fn decimal_numbers() {
    for n in [0, 7, 9, 10, 99, 100, 12345, 65535] {
        assert_eq!(decimal_text(n), n.to_string());
    }
}

#[test]
fn where_the_cookie_and_the_wallets_are() {
    assert_eq!(default_auth(&Network::Bitcoin), vec![".cookie"]);
    assert_eq!(default_auth(&Network::Testnet), vec!["testnet", ".cookie"]);
    assert_eq!(default_auth(&Network::Testnet4), vec!["testnet4", ".cookie"]);
    assert_eq!(default_auth(&Network::Signet), vec!["signet", ".cookie"]);
    assert_eq!(default_auth(&Network::Regtest), vec!["regtest", ".cookie"]);
    for network in [
        Network::Bitcoin,
        Network::Testnet,
        Network::Testnet4,
        Network::Signet,
        Network::Regtest,
    ] {
        let name = format!("ddust-{}.redb", network.to_string().to_lowercase());
        assert_eq!(db_file_name(&network), name);
    }
}

// Descriptors.

#[test]
fn a_descriptor_is_read_with_its_checksum() {
    let text = format!("wpkh({}/0/*)", KEY);
    assert_eq!(parse_descriptor(&text), Ok(receive()));
    assert_eq!(parse_descriptor(&receive()), Ok(receive()));
    assert!(parse_descriptor("wpkh(ash)").is_err());
    assert!(parse_descriptor(&format!("{}#aaaaaaaa", text)).is_err());
}

#[test]
fn a_wallet_is_named_by_the_checksum_of_its_descriptor() {
    assert_eq!(wallet_name(&receive(), Network::Regtest), Ok("76ngmkux".to_string()));
    assert_eq!(wallet_name(&both(), Network::Testnet), Ok("06w0t393".to_string()));
    assert_eq!(
        wallet_name(&receive(), Network::Bitcoin),
        Err(DescriptorError::NoWallet)
    );
}

#[test]
fn the_weight_of_signatures_goes_by_the_descriptor() {
    for (descriptor, weight) in [
        (receive(), 107),
        (format!("pkh({}/0/*)", KEY), 428),
        (format!("sh(wpkh({}/0/*))", KEY), 199),
        (format!("tr({}/0/*)", KEY), 66),
        (format!("wsh(multi(2,{}/0/*,{}/1/*,{}/2/*))", KEY, KEY, KEY), 253),
        (format!("sh(multi(2,{}/0/*,{}/1/*,{}/2/*))", KEY, KEY, KEY), 1024),
        (format!("wsh(pk({}/0/*))", KEY), 109),
    ] {
        assert_eq!(max_satisfaction_weight(&descriptor), Some(weight));
    }
    assert_eq!(max_satisfaction_weight("wpkh()"), None);
    assert_eq!(max_satisfaction_weight(""), None);
}

#[test]
fn a_descriptor_with_one_path_makes_one_wallet() {
    let plans = add_descriptor(&receive(), Network::Regtest, 0).unwrap();
    assert_eq!(plans.len(), 1);
    assert_eq!(plans[0].name, "76ngmkux");
    // the name by which it is looked for when it is added again
    assert_eq!(Ok(plans[0].name.clone()), wallet_name(&receive(), Network::Regtest));
    assert_eq!(plans[0].descriptor, receive());
    assert_eq!(plans[0].start, None);
}

#[test]
fn a_descriptor_with_two_paths_makes_two_wallets() {
    let plans = add_descriptor(&both(), Network::Regtest, 103).unwrap();
    assert_eq!(plans.len(), 2);
    assert_eq!(plans[0].name, "76ngmkux");
    assert_eq!(plans[0].descriptor, receive());
    assert_eq!(plans[1].name, "0wkfxrv7");
    assert_eq!(plans[1].descriptor, change());
    assert_eq!(plans[0].start, Some(103));
    assert_eq!(plans[1].start, Some(103));
}

#[test]
fn descriptors_that_make_no_wallets() {
    assert_eq!(
        add_descriptor("ash", Network::Regtest, 0).unwrap_err(),
        DescriptorError::Malformed
    );
    // three paths and two
    let uneven = format!("wsh(sortedmulti(1,{}/<0;1;2>/*,{}/<3;4>/*))", KEY, KEY);
    assert_eq!(
        add_descriptor(&uneven, Network::Regtest, 0).unwrap_err(),
        DescriptorError::PathMismatch
    );
    assert_eq!(
        add_descriptor(&receive(), Network::Bitcoin, 0).unwrap_err(),
        DescriptorError::NoWallet
    );
}

#[test]
fn which_descriptors_are_chosen() {
    let singles = || Some(vec!["a".to_string(), "b".to_string()]);
    assert_eq!(
        choose_descriptors("d", Some(true), singles()),
        Ok(vec!["a".to_string(), "b".to_string()])
    );
    assert_eq!(choose_descriptors("d", Some(false), singles()), Ok(vec!["d".to_string()]));
    assert_eq!(
        choose_descriptors("d", Some(true), None),
        Err(DescriptorError::PathMismatch)
    );
    assert_eq!(choose_descriptors("d", None, None), Err(DescriptorError::Malformed));
}

#[test]
fn which_wallets_are_planned() {
    let descriptors = vec!["a".to_string(), "b".to_string()];
    let names = vec![Some("x".to_string()), Some("y".to_string())];
    let plans = plan_wallets(&descriptors, &names, 7).unwrap();
    assert_eq!(plans.len(), 2);
    assert_eq!((plans[1].name.as_str(), plans[1].descriptor.as_str()), ("y", "b"));
    let names = vec![Some("x".to_string()), None];
    assert_eq!(
        plan_wallets(&descriptors, &names, 7).unwrap_err(),
        DescriptorError::NoWallet
    );
    let plan = create_wallet("x".to_string(), "a".to_string(), 0);
    assert_eq!(plan.start, None);
}

#[test]
fn a_known_wallet_is_only_synced() {
    assert!(matches!(cmd_add(&receive(), Network::Regtest, 0, true), Ok(AddAction::Sync)));
    match cmd_add(&receive(), Network::Regtest, 0, false) {
        Ok(AddAction::Create(plans)) => assert_eq!(plans.len(), 1),
        other => panic!("unexpected {:?}", other),
    }
    assert!(matches!(
        cmd_add("ash", Network::Regtest, 0, false),
        Err(DescriptorError::Malformed)
    ));
}

// Tables.

#[test]
fn wallets_are_named_by_their_tables() {
    let tables: Vec<String> = ["a_keychain", "a_network", "_keychain", "b", "keychain", "b_keychain"]
        .iter()
        .map(|name| name.to_string())
        .collect();
    assert_eq!(wallet_names(&tables), vec!["a", "", "b"]);
    assert_eq!(table_wallet("76ngmkux_keychain"), Some("76ngmkux".to_string()));
    assert_eq!(table_wallet("_keychain_keychain"), Some("_keychain".to_string()));
    assert_eq!(table_wallet("a_keychain_"), None);
    assert_eq!(table_wallet("\u{e9}_keychain"), Some("\u{e9}".to_string()));
}

#[test]
fn wallets_are_selected_by_fingerprint() {
    assert!(is_selected(None, &vec![]));
    assert!(is_selected(None, &vec![1]));
    assert!(is_selected(Some(2), &vec![1, 2]));
    assert!(!is_selected(Some(3), &vec![1, 2]));
    assert!(!is_selected(Some(3), &vec![]));
}

// Bringing wallets up to date.

#[test]
fn blocks_are_asked_for_from_below_the_tip() {
    assert_eq!(emitter_height(0), 0);
    assert_eq!(emitter_height(199), 0);
    assert_eq!(emitter_height(200), 0);
    assert_eq!(emitter_height(850_000), 849_800);
}

fn block(height: u32) -> BlockId {
    BlockId { height, hash: [height as u8; 32] }
}

fn loaded(tip: u32) -> WalletSync {
    WalletSync { state: SyncState::Blocks, tip: block(tip), unsaved: false }
}

#[test]
fn a_wallet_is_stored_along_the_way_and_at_the_end() {
    let events = [
        SyncEvent::Block(block(9_999)),
        SyncEvent::Block(block(10_000)),
        SyncEvent::Block(block(10_001)),
        SyncEvent::NoBlock,
        SyncEvent::Unconfirmed,
    ];
    let mut sync = loaded(9_998);
    let mut steps = Vec::new();
    for event in events {
        let (next, action) = sync_wallet(sync, event);
        sync = next;
        steps.push((action.apply, action.persist, sync.unsaved));
    }
    assert_eq!(
        steps,
        vec![
            (true, false, true),
            (true, true, false),
            (true, false, true),
            (false, false, true),
            (true, true, false),
        ]
    );
    assert_eq!(sync.state, SyncState::Done);
    // the tip of the node
    assert_eq!(sync.tip, block(10_001));
}

#[test]
fn a_wallet_at_the_tip_of_the_node_keeps_it() {
    let (sync, _) = sync_wallet(loaded(7), SyncEvent::NoBlock);
    let (sync, action) = sync_wallet(sync, SyncEvent::Unconfirmed);
    assert_eq!(action, SyncAction { apply: true, persist: true });
    assert_eq!(sync, WalletSync { state: SyncState::Done, tip: block(7), unsaved: false });
}

#[test]
fn replaced_blocks_are_scanned_again() {
    for (tip, replaced) in [(1_000, 200), (150, 150), (200, 200), (5, 1), (0, 0)] {
        assert!(emitter_height(tip) <= tip - replaced);
    }
}

#[test]
fn an_answer_that_was_not_asked_for_changes_nothing() {
    let nothing = SyncAction { apply: false, persist: false };
    for (state, event) in [
        (SyncState::Blocks, SyncEvent::Unconfirmed),
        (SyncState::Mempool, SyncEvent::Block(block(1))),
        (SyncState::Mempool, SyncEvent::NoBlock),
        (SyncState::Done, SyncEvent::Unconfirmed),
    ] {
        let sync = WalletSync { state, tip: block(3), unsaved: true };
        assert_eq!(sync_wallet(sync, event), (sync, nothing));
    }
}

// Broadcasting.

fn unsigned(value: u64, sent: u64) -> Psbt {
    let tx = Transaction {
        version: Version::TWO,
        lock_time: LockTime::ZERO,
        input: vec![TxIn {
            previous_output: OutPoint::null(),
            script_sig: ScriptBuf::new(),
            sequence: Sequence(0xffff_fffd),
            witness: Witness::new(),
        }],
        output: vec![TxOut {
            value: Amount::from_sat(sent),
            script_pubkey: ScriptBuf::from_bytes(vec![0x6a, 0x00]),
        }],
    };
    let mut psbt = Psbt::from_unsigned_tx(tx).unwrap();
    psbt.inputs[0].witness_utxo = Some(TxOut {
        value: Amount::from_sat(value),
        script_pubkey: ScriptBuf::new(),
    });
    psbt
}

#[test]
fn a_signed_psbt_is_broadcast_with_its_signatures() {
    let mut psbt = unsigned(400, 0);
    psbt.inputs[0].final_script_witness = Some(Witness::from_slice(&[vec![0x81; 65]]));
    let mut signed = psbt.unsigned_tx.clone();
    signed.input[0].witness = Witness::from_slice(&[vec![0x81; 65]]);

    let bytes = parse_psbt(&psbt.to_string()).unwrap();
    assert_eq!(bytes, psbt.serialize());
    assert_eq!(cmd_broadcast(&bytes).unwrap(), serialize(&signed));
}

#[test]
fn what_is_no_psbt_is_refused() {
    assert!(parse_psbt("ash").is_err());
    assert!(parse_psbt("").is_err());
    assert!(matches!(cmd_broadcast(&vec![1, 2, 3]), Err(BroadcastError::Fee(_))));
}

#[test]
fn a_psbt_whose_fee_cannot_be_told_is_refused() {
    let mut missing = unsigned(400, 0);
    missing.inputs[0].witness_utxo = None;
    assert!(matches!(cmd_broadcast(&missing.serialize()), Err(BroadcastError::Fee(_))));
    let too_much = unsigned(400, 401);
    assert!(matches!(cmd_broadcast(&too_much.serialize()), Err(BroadcastError::Fee(_))));
    // the output that is spent is not in the transaction that is given for it
    let mut outside = unsigned(400, 0);
    outside.inputs[0].witness_utxo = None;
    outside.inputs[0].non_witness_utxo = Some(unsigned(400, 0).unsigned_tx);
    assert!(matches!(cmd_broadcast(&outside.serialize()), Err(BroadcastError::Fee(_))));
}

#[test]
fn an_absurd_fee_rate_is_refused() {
    let absurd = unsigned(100_000_000, 0);
    assert!(matches!(
        cmd_broadcast(&absurd.serialize()),
        Err(BroadcastError::AbsurdFeeRate)
    ));
    assert!(cmd_broadcast(&unsigned(250_000, 0).serialize()).is_ok());
}

#[test]
fn what_is_broadcast() {
    assert_eq!(finish_broadcast(Ok(1), Some(vec![7])).unwrap(), vec![7]);
    assert!(matches!(finish_broadcast(Ok(1), None), Err(BroadcastError::AbsurdFeeRate)));
    match finish_broadcast(Err("no".to_string()), Some(vec![7])) {
        Err(BroadcastError::Fee(text)) => assert_eq!(text, "no"),
        other => panic!("unexpected {:?}", other),
    }
}
