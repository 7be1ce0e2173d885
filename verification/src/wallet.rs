//! Wallets: which ones a descriptor makes, how they are named and found again, and how they
//! are brought up to date with a node.
use crate::chain::texts;
use crate::lists::lemma_push_contains;
use bdk_wallet::bitcoin::secp256k1::Secp256k1;
use bdk_wallet::bitcoin::Network;
use bdk_wallet::descriptor::ExtendedDescriptor;
use bdk_wallet::wallet_name_from_descriptor;
use std::str::FromStr;
use vstd::prelude::*;
use vstd::string::*;

verus! {

/// What `miniscript::Descriptor::parse_descriptor` makes of `text`: the descriptor with its
/// public keys and checksum, or the text of the error.
pub uninterp spec fn parsed_descriptor(text: Seq<char>) -> Result<Seq<char>, Seq<char>>;

/// The descriptors that `miniscript::Descriptor::into_single_descriptors` makes of a
/// descriptor, one for each of its paths.
pub uninterp spec fn single_descriptors(descriptor: Seq<char>) -> Option<Seq<Seq<char>>>;

/// Whether a descriptor has several paths, by `miniscript::Descriptor::is_multipath`.
pub uninterp spec fn multipath(descriptor: Seq<char>) -> Option<bool>;

/// The name that `bdk_wallet::wallet_name_from_descriptor` gives the wallet of a descriptor.
pub uninterp spec fn descriptor_name(descriptor: Seq<char>, network: Network) -> Option<Seq<char>>;

/// The most weight units that signing adds to an input that spends an output of a descriptor, by
/// `miniscript::Descriptor::max_weight_to_satisfy`.
pub uninterp spec fn descriptor_weight(descriptor: Seq<char>) -> Option<u64>;

/// What `r` holds.
pub open spec fn result_text(r: Result<String, String>) -> Result<Seq<char>, Seq<char>> {
    match r {
        Ok(text) => Ok(text@),
        Err(e) => Err(e@),
    }
}

/// What `r` holds.
pub open spec fn option_text(r: Option<String>) -> Option<Seq<char>> {
    match r {
        Some(text) => Some(text@),
        None => None,
    }
}

/// What `r` holds.
pub open spec fn option_texts(r: Option<Vec<String>>) -> Option<Seq<Seq<char>>> {
    match r {
        Some(list) => Some(texts(list@)),
        None => None,
    }
}

/// `miniscript::Descriptor::parse_descriptor`, the descriptor and the error each as text.
/// Secret keys in the text are replaced by their public keys.
#[verifier::external_body]
fn parse_public_descriptor(text: &str) -> (r: Result<String, String>)
    ensures
        result_text(r) == parsed_descriptor(text@),
{
    match ExtendedDescriptor::parse_descriptor(&Secp256k1::new(), text) {
        Ok((descriptor, _)) => Ok(descriptor.to_string()),
        Err(e) => Err(e.to_string()),
    }
}

/// `miniscript::Descriptor::is_multipath` of the descriptor with the given text, nothing where
/// the text is none.
#[verifier::external_body]
fn is_multipath(descriptor: &str) -> (r: Option<bool>)
    ensures
        r == multipath(descriptor@),
{
    match ExtendedDescriptor::from_str(descriptor) {
        Ok(descriptor) => Some(descriptor.is_multipath()),
        Err(_) => None,
    }
}

/// `miniscript::Descriptor::into_single_descriptors` of the descriptor with the given text, each
/// as text. There is at least one; nothing where the text is none or where its keys differ in
/// the number of their paths.
#[verifier::external_body]
fn into_single_descriptors(descriptor: &str) -> (r: Option<Vec<String>>)
    ensures
        option_texts(r) == single_descriptors(descriptor@),
        r matches Some(singles) ==> singles@.len() > 0,
{
    let parsed = ExtendedDescriptor::from_str(descriptor).ok()?;
    let singles = parsed.into_single_descriptors().ok()?;
    Some(singles.iter().map(|single| single.to_string()).collect())
}

/// `bdk_wallet::wallet_name_from_descriptor` of the descriptor with the given text and no change
/// descriptor. Nothing where the text is none or its keys are of another network.
#[verifier::external_body]
fn name_from_descriptor(descriptor: &str, network: Network) -> (r: Option<String>)
    ensures
        option_text(r) == descriptor_name(descriptor@, network),
{
    let parsed = ExtendedDescriptor::from_str(descriptor).ok()?;
    wallet_name_from_descriptor(parsed, None, network, &Secp256k1::new()).ok()
}

/// `miniscript::Descriptor::max_weight_to_satisfy` of the descriptor with the given text, in
/// weight units. Nothing where the text is none or where no signatures satisfy it.
#[verifier::external_body]
fn weight_to_satisfy(descriptor: &str) -> (r: Option<u64>)
    ensures
        r == descriptor_weight(descriptor@),
{
    let parsed = ExtendedDescriptor::from_str(descriptor).ok()?;
    Some(parsed.max_weight_to_satisfy().ok()?.to_wu())
}

/// Why a descriptor makes no wallets.
#[derive(Debug, Clone, Copy, PartialEq, Eq, Structural)]
pub enum DescriptorError {
    /// It is no public descriptor.
    Malformed,
    /// Its keys differ in the number of their paths.
    PathMismatch,
    /// It makes no wallet on the network at hand.
    NoWallet,
}

/// A wallet to create.
#[derive(Debug)]
pub struct WalletPlan {
    /// The name it is stored under.
    pub name: String,
    /// Its descriptor.
    pub descriptor: String,
    /// The height of the block to start from, where that is not the first one: the wallet is
    /// connected from the first block straight to this one.
    pub start: Option<u32>,
}

/// What a [`WalletPlan`] holds.
#[verifier::ext_equal]
pub struct WalletPlanView {
    pub name: Seq<char>,
    pub descriptor: Seq<char>,
    pub start: Option<u32>,
}

impl View for WalletPlan {
    type V = WalletPlanView;

    open spec fn view(&self) -> WalletPlanView {
        WalletPlanView { name: self.name@, descriptor: self.descriptor@, start: self.start }
    }
}

/// The contents of each plan.
pub open spec fn plans_of(plans: Seq<WalletPlan>) -> Seq<WalletPlanView> {
    Seq::new(plans.len(), |i: int| plans[i]@)
}

/// What `r` holds.
pub open spec fn result_texts(
    r: Result<Vec<String>, DescriptorError>,
) -> Result<Seq<Seq<char>>, DescriptorError> {
    match r {
        Ok(list) => Ok(texts(list@)),
        Err(e) => Err(e),
    }
}

/// What `r` holds.
pub open spec fn result_plans(
    r: Result<Vec<WalletPlan>, DescriptorError>,
) -> Result<Seq<WalletPlanView>, DescriptorError> {
    match r {
        Ok(plans) => Ok(plans_of(plans@)),
        Err(e) => Err(e),
    }
}

/// The contents of each name.
pub open spec fn names_of(names: Seq<Option<String>>) -> Seq<Option<Seq<char>>> {
    Seq::new(names.len(), |i: int| option_text(names[i]))
}

/// The descriptors of the wallets that `descriptor` makes: one for each of its paths, and
/// itself where it has only one.
pub open spec fn chosen_descriptors(
    descriptor: Seq<char>,
    several: Option<bool>,
    singles: Option<Seq<Seq<char>>>,
) -> Result<Seq<Seq<char>>, DescriptorError> {
    match several {
        None => Err(DescriptorError::Malformed),
        Some(false) => Ok(seq![descriptor]),
        Some(true) => match singles {
            Some(list) => Ok(list),
            None => Err(DescriptorError::PathMismatch),
        },
    }
}

/// The block to start from, for a wallet that looks for transactions from `start_height` on.
pub open spec fn start_block(start_height: u32) -> Option<u32> {
    if start_height > 0 {
        Some(start_height)
    } else {
        None
    }
}

/// The wallets to create for `descriptors`, which are named `names`.
pub open spec fn planned_wallets(
    descriptors: Seq<Seq<char>>,
    names: Seq<Option<Seq<char>>>,
    start_height: u32,
) -> Result<Seq<WalletPlanView>, DescriptorError> {
    if exists|i: int| 0 <= i < names.len() && (#[trigger] names[i]) is None {
        Err(DescriptorError::NoWallet)
    } else {
        Ok(
            Seq::new(
                descriptors.len(),
                |i: int|
                    WalletPlanView {
                        name: names[i]->0,
                        descriptor: descriptors[i],
                        start: start_block(start_height),
                    },
            ),
        )
    }
}

/// The names of the wallets of `descriptors`.
pub open spec fn wallet_names_on(
    descriptors: Seq<Seq<char>>,
    network: Network,
) -> Seq<Option<Seq<char>>> {
    Seq::new(descriptors.len(), |i: int| descriptor_name(descriptors[i], network))
}

/// The wallets to create for `descriptor`.
pub open spec fn added_wallets(
    descriptor: Seq<char>,
    network: Network,
    start_height: u32,
) -> Result<Seq<WalletPlanView>, DescriptorError> {
    match chosen_descriptors(descriptor, multipath(descriptor), single_descriptors(descriptor)) {
        Ok(list) => planned_wallets(list, wallet_names_on(list, network), start_height),
        Err(e) => Err(e),
    }
}

/// Reads a descriptor. What comes back is its public form with a checksum, by which all else
/// here goes.
pub fn parse_descriptor(s: &str) -> (r: Result<String, String>)
    ensures
        result_text(r) == parsed_descriptor(s@),
{
    parse_public_descriptor(s)
}

/// The name of the wallet of `descriptor`.
pub fn wallet_name(descriptor: &str, network: Network) -> (r: Result<String, DescriptorError>)
    ensures
        match r {
            Ok(name) => descriptor_name(descriptor@, network) == Some(name@),
            Err(e) => descriptor_name(descriptor@, network) is None && e
                == DescriptorError::NoWallet,
        },
{
    match name_from_descriptor(descriptor, network) {
        Some(name) => Ok(name),
        None => Err(DescriptorError::NoWallet),
    }
}

/// The most weight units that signing adds to an input that spends an output of `descriptor`,
/// where that can be spent.
pub fn max_satisfaction_weight(descriptor: &str) -> (r: Option<u64>)
    ensures
        r == descriptor_weight(descriptor@),
{
    weight_to_satisfy(descriptor)
}

/// The descriptors of the wallets that `descriptor` makes, given whether it has several
/// paths and the descriptor of each.
pub fn choose_descriptors(
    descriptor: &str,
    several: Option<bool>,
    singles: Option<Vec<String>>,
) -> (r: Result<Vec<String>, DescriptorError>)
    ensures
        result_texts(r) == chosen_descriptors(descriptor@, several, option_texts(singles)),
{
    match several {
        None => Err(DescriptorError::Malformed),
        Some(true) => match singles {
            Some(list) => Ok(list),
            None => Err(DescriptorError::PathMismatch),
        },
        Some(false) => {
            let mut list: Vec<String> = Vec::new();
            list.push(descriptor.to_owned());
            assert(texts(list@) =~= seq![descriptor@]);
            Ok(list)
        },
    }
}

/// The wallet to create for `descriptor`, given its name.
pub fn create_wallet(name: String, descriptor: String, start_height: u32) -> (r: WalletPlan)
    ensures
        r@ == (WalletPlanView {
            name: name@,
            descriptor: descriptor@,
            start: start_block(start_height),
        }),
{
    let start: Option<u32> = if start_height > 0 {
        Some(start_height)
    } else {
        None
    };
    WalletPlan { name, descriptor, start }
}

/// The wallets to create for `descriptors`, given the name of each.
pub fn plan_wallets(
    descriptors: &Vec<String>,
    names: &Vec<Option<String>>,
    start_height: u32,
) -> (r: Result<Vec<WalletPlan>, DescriptorError>)
    requires
        names@.len() == descriptors@.len(),
    ensures
        result_plans(r) == planned_wallets(texts(descriptors@), names_of(names@), start_height),
{
    let mut plans: Vec<WalletPlan> = Vec::new();
    for i in 0..descriptors.len()
        invariant
            names@.len() == descriptors@.len(),
            plans@.len() == i,
            forall|j: int| 0 <= j < i ==> (#[trigger] names_of(names@)[j]) is Some,
            forall|j: int|
                0 <= j < i ==> (#[trigger] plans@[j])@ == (WalletPlanView {
                    name: names_of(names@)[j]->0,
                    descriptor: texts(descriptors@)[j],
                    start: start_block(start_height),
                }),
    {
        assert(names_of(names@)[i as int] == option_text(names@[i as int]));
        match &names[i] {
            Some(name) => {
                plans.push(create_wallet(name.clone(), descriptors[i].clone(), start_height));
            },
            None => {
                assert(names_of(names@)[i as int] is None);
                return Err(DescriptorError::NoWallet);
            },
        }
    }
    proof {
        let wanted = planned_wallets(texts(descriptors@), names_of(names@), start_height);
        assert(wanted is Ok);
        assert(plans_of(plans@) =~= wanted->Ok_0);
    }
    Ok(plans)
}

/// The wallets to create for `descriptor`.
pub fn add_descriptor(
    descriptor: &str,
    network: Network,
    start_height: u32,
) -> (r: Result<Vec<WalletPlan>, DescriptorError>)
    ensures
        result_plans(r) == added_wallets(descriptor@, network, start_height),
        r matches Ok(plans) ==> plans@.len() > 0,
{
    let several = is_multipath(descriptor);
    let singles = match several {
        Some(true) => into_single_descriptors(descriptor),
        _ => None,
    };
    assert(singles matches Some(list) ==> texts(list@).len() > 0);
    let list = match choose_descriptors(descriptor, several, singles) {
        Ok(list) => list,
        Err(e) => return Err(e),
    };
    assert(texts(list@).len() > 0);
    let mut names: Vec<Option<String>> = Vec::new();
    for i in 0..list.len()
        invariant
            names@.len() == i,
            forall|j: int|
                0 <= j < i ==> option_text(#[trigger] names@[j]) == descriptor_name(
                    list@[j]@,
                    network,
                ),
    {
        names.push(name_from_descriptor(list[i].as_str(), network));
    }
    assert(names_of(names@) =~= wallet_names_on(texts(list@), network));
    let r = plan_wallets(&list, &names, start_height);
    assert(r matches Ok(plans) ==> plans_of(plans@).len() == texts(list@).len());
    r
}

/// What adding a descriptor comes to.
#[derive(Debug)]
pub enum AddAction {
    /// Its wallet is there already and only brought up to date.
    Sync,
    /// These wallets are created and brought up to date.
    Create(Vec<WalletPlan>),
}

/// Adds `descriptor`. `known` tells whether there is a wallet of its name.
pub fn cmd_add(
    descriptor: &str,
    network: Network,
    start_height: u32,
    known: bool,
) -> (r: Result<AddAction, DescriptorError>)
    ensures
        known <==> r matches Ok(AddAction::Sync),
        !known ==> match r {
            Ok(AddAction::Create(plans)) => added_wallets(descriptor@, network, start_height)
                == Ok::<Seq<WalletPlanView>, DescriptorError>(plans_of(plans@)) && plans@.len() > 0,
            Ok(AddAction::Sync) => false,
            Err(e) => added_wallets(descriptor@, network, start_height) == Err::<
                Seq<WalletPlanView>,
                DescriptorError,
            >(e),
        },
{
    if known {
        return Ok(AddAction::Sync);
    }
    match add_descriptor(descriptor, network, start_height) {
        Ok(plans) => Ok(AddAction::Create(plans)),
        Err(e) => Err(e),
    }
}

/// The end of the name of a table that belongs to a wallet.
pub open spec fn table_suffix() -> Seq<char> {
    "_keychain"@
}

/// The name of the wallet that the table `table` belongs to.
pub open spec fn wallet_of_table(table: Seq<char>) -> Option<Seq<char>> {
    let n = table.len() - table_suffix().len();
    if n >= 0 && table.skip(n) == table_suffix() {
        Some(table.take(n))
    } else {
        None
    }
}

/// The names of the wallets that `tables` belong to, in order.
pub open spec fn wallets_of_tables(tables: Seq<Seq<char>>) -> Seq<Seq<char>>
    decreases tables.len(),
{
    if tables.len() == 0 {
        Seq::empty()
    } else {
        match wallet_of_table(tables.last()) {
            Some(name) => wallets_of_tables(tables.drop_last()).push(name),
            None => wallets_of_tables(tables.drop_last()),
        }
    }
}

/// Whether two texts are equal.
fn same_text(a: &str, b: &str) -> (r: bool)
    ensures
        r == (a@ == b@),
{
    let n = a.unicode_len();
    if n != b.unicode_len() {
        return false;
    }
    for i in 0..n
        invariant
            n == a@.len() == b@.len(),
            forall|j: int| 0 <= j < i ==> a@[j] == b@[j],
    {
        if a.get_char(i) != b.get_char(i) {
            return false;
        }
    }
    assert(a@ =~= b@);
    true
}

/// The name of the wallet that the table `table` belongs to.
pub fn table_wallet(table: &str) -> (r: Option<String>)
    ensures
        option_text(r) == wallet_of_table(table@),
{
    let suffix = "_keychain";
    let len = table.unicode_len();
    let suffix_len = suffix.unicode_len();
    if len < suffix_len {
        return None;
    }
    let n: usize = len - suffix_len;
    assert(table@.subrange(n as int, len as int) =~= table@.skip(n as int));
    assert(table@.subrange(0, n as int) =~= table@.take(n as int));
    if same_text(table.substring_char(n, len), suffix) {
        Some(table.substring_char(0, n).to_owned())
    } else {
        None
    }
}

/// The names of the wallets whose tables a database holds.
pub fn wallet_names(tables: &Vec<String>) -> (r: Vec<String>)
    ensures
        texts(r@) == wallets_of_tables(texts(tables@)),
{
    let ghost all = texts(tables@);
    let mut names: Vec<String> = Vec::new();
    proof {
        assert(all.take(0) =~= Seq::<Seq<char>>::empty());
        assert(texts(names@) =~= wallets_of_tables(all.take(0)));
    }
    for i in 0..tables.len()
        invariant
            all == texts(tables@),
            texts(names@) == wallets_of_tables(all.take(i as int)),
    {
        let ghost before = texts(names@);
        assert(all.take(i + 1).drop_last() =~= all.take(i as int));
        assert(all.take(i + 1).last() == tables@[i as int]@);
        if let Some(name) = table_wallet(tables[i].as_str()) {
            let ghost text = name@;
            names.push(name);
            assert(texts(names@) =~= before.push(text));
        }
    }
    assert(all.take(all.len() as int) =~= all);
    names
}

/// The table of a wallet belongs to that wallet.
pub proof fn lemma_wallet_found(name: Seq<char>)
    ensures
        wallet_of_table(name + table_suffix()) == Some(name),
{
    let table = name + table_suffix();
    assert(table.skip(name.len() as int) =~= table_suffix());
    assert(table.take(name.len() as int) =~= name);
}

/// Whether a wallet whose keys have the given fingerprints is asked for: any is where no
/// fingerprint is given.
pub fn is_selected(fingerprint: Option<u32>, keys: &Vec<u32>) -> (r: bool)
    ensures
        r == match fingerprint {
            None => true,
            Some(wanted) => keys@.contains(wanted),
        },
{
    match fingerprint {
        None => true,
        Some(wanted) => {
            for i in 0..keys.len()
                invariant
                    fingerprint == Some(wanted),
                    forall|j: int| 0 <= j < i ==> keys@[j] != wanted,
            {
                if keys[i] == wanted {
                    return true;
                }
            }
            false
        },
    }
}

/// How many blocks below its tip a wallet is brought up to date from, in case the chain was
/// reorganised.
pub const REORG_DEPTH: u32 = 200;

/// A wallet that is brought up to date is stored whenever it reaches a multiple of this
/// height.
pub const PERSIST_INTERVAL: u32 = 10_000;

/// The height from which blocks are asked for, for a wallet with its tip at `tip_height`.
pub open spec fn scan_start(tip_height: u32) -> u32 {
    if tip_height >= REORG_DEPTH {
        (tip_height - REORG_DEPTH) as u32
    } else {
        0
    }
}

/// The height from which blocks are asked for, for a wallet with its tip at `tip_height`.
pub fn emitter_height(tip_height: u32) -> (r: u32)
    ensures
        r == scan_start(tip_height),
{
    tip_height.saturating_sub(REORG_DEPTH)
}

/// A block, by its height and its hash.
#[derive(Debug, Clone, Copy, PartialEq, Eq)]
pub struct BlockId {
    pub height: u32,
    /// The hash in internal byte order.
    pub hash: [u8; 32],
}

/// What is being done to bring a wallet up to date.
#[derive(Debug, Clone, Copy, PartialEq, Eq, Structural)]
pub enum SyncState {
    /// Blocks are applied.
    Blocks,
    /// The unconfirmed transactions are applied.
    Mempool,
    /// It is up to date.
    Done,
}

/// How far a wallet is brought up to date.
#[derive(Debug, Clone, Copy, PartialEq, Eq)]
pub struct WalletSync {
    /// What is being done.
    pub state: SyncState,
    /// The last block that was applied.
    pub tip: BlockId,
    /// Whether anything was applied that is not stored.
    pub unsaved: bool,
}

/// What a node answers.
#[derive(Debug, Clone, Copy, PartialEq, Eq)]
pub enum SyncEvent {
    /// The next block.
    Block(BlockId),
    /// There are no more blocks.
    NoBlock,
    /// The unconfirmed transactions.
    Unconfirmed,
}

/// What to do with an answer.
#[derive(Debug, Clone, Copy, PartialEq, Eq, Structural)]
pub struct SyncAction {
    /// Apply what was answered to the wallet.
    pub apply: bool,
    /// Then store the wallet.
    pub persist: bool,
}

/// What an answer comes to. Blocks come first, then the unconfirmed transactions; an answer
/// that was not asked for changes nothing.
pub open spec fn sync_next(sync: WalletSync, event: SyncEvent) -> (WalletSync, SyncAction) {
    match (sync.state, event) {
        (SyncState::Blocks, SyncEvent::Block(block)) => {
            let persist = block.height % PERSIST_INTERVAL == 0;
            (
                WalletSync { state: SyncState::Blocks, tip: block, unsaved: !persist },
                SyncAction { apply: true, persist },
            )
        },
        (SyncState::Blocks, SyncEvent::NoBlock) => (
            WalletSync { state: SyncState::Mempool, ..sync },
            SyncAction { apply: false, persist: false },
        ),
        (SyncState::Mempool, SyncEvent::Unconfirmed) => (
            WalletSync { state: SyncState::Done, tip: sync.tip, unsaved: false },
            SyncAction { apply: true, persist: true },
        ),
        _ => (sync, SyncAction { apply: false, persist: false }),
    }
}

/// One step of bringing a wallet up to date.
pub fn sync_wallet(sync: WalletSync, event: SyncEvent) -> (r: (WalletSync, SyncAction))
    ensures
        r == sync_next(sync, event),
{
    match (sync.state, event) {
        (SyncState::Blocks, SyncEvent::Block(block)) => {
            let persist = block.height % PERSIST_INTERVAL == 0;
            (
                WalletSync { state: SyncState::Blocks, tip: block, unsaved: !persist },
                SyncAction { apply: true, persist },
            )
        },
        (SyncState::Blocks, SyncEvent::NoBlock) => (
            WalletSync { state: SyncState::Mempool, tip: sync.tip, unsaved: sync.unsaved },
            SyncAction { apply: false, persist: false },
        ),
        (SyncState::Mempool, SyncEvent::Unconfirmed) => (
            WalletSync { state: SyncState::Done, tip: sync.tip, unsaved: false },
            SyncAction { apply: true, persist: true },
        ),
        _ => (sync, SyncAction { apply: false, persist: false }),
    }
}

/// What the answers `events` come to, one after the other.
pub open spec fn sync_run(start: WalletSync, events: Seq<SyncEvent>) -> WalletSync
    decreases events.len(),
{
    if events.len() == 0 {
        start
    } else {
        sync_next(sync_run(start, events.drop_last()), events.last()).0
    }
}

/// What was done with answer `i` of `events`.
pub open spec fn sync_action(start: WalletSync, events: Seq<SyncEvent>, i: int) -> SyncAction {
    sync_next(sync_run(start, events.take(i)), events[i]).1
}

/// The answers of a node with the blocks `blocks` to apply.
pub open spec fn node_answers(blocks: Seq<BlockId>) -> Seq<SyncEvent> {
    Seq::new(blocks.len(), |i: int| SyncEvent::Block(blocks[i]))
}

/// A wallet that is up to date was stored after the last thing that was applied to it.
pub proof fn lemma_stored_when_done(start: WalletSync, events: Seq<SyncEvent>)
    requires
        start.state == SyncState::Blocks,
        sync_run(start, events).state == SyncState::Done,
    ensures
        !sync_run(start, events).unsaved,
        exists|i: int|
            0 <= i < events.len() && (#[trigger] sync_action(start, events, i)).persist
                && forall|j: int|
                i < j < events.len() ==> !(#[trigger] sync_action(start, events, j)).apply,
    decreases events.len(),
{
    let rest = events.drop_last();
    let last = events.len() - 1;
    assert(events.take(last) =~= rest);
    if sync_run(start, rest).state == SyncState::Done {
        lemma_stored_when_done(start, rest);
        let i = choose|i: int|
            0 <= i < rest.len() && (#[trigger] sync_action(start, rest, i)).persist && forall|
                j: int,
            |
                i < j < rest.len() ==> !(#[trigger] sync_action(start, rest, j)).apply;
        assert(rest.take(i) =~= events.take(i));
        assert(sync_action(start, events, i).persist);
        assert forall|j: int| i < j < events.len() implies !(#[trigger] sync_action(
            start,
            events,
            j,
        )).apply by {
            if j < last {
                assert(rest.take(j) =~= events.take(j));
                assert(!sync_action(start, rest, j).apply);
            }
        }
    } else {
        assert(sync_action(start, events, last).persist);
    }
}

/// Every block of a node is applied, in its order, and the last of them is then the tip.
proof fn lemma_blocks_applied(start: WalletSync, blocks: Seq<BlockId>)
    requires
        start.state == SyncState::Blocks,
    ensures
        sync_run(start, node_answers(blocks)).state == SyncState::Blocks,
        sync_run(start, node_answers(blocks)).tip == if blocks.len() == 0 {
            start.tip
        } else {
            blocks.last()
        },
        forall|i: int|
            0 <= i < blocks.len() ==> (#[trigger] sync_action(
                start,
                node_answers(blocks),
                i,
            )).apply,
    decreases blocks.len(),
{
    let events = node_answers(blocks);
    if blocks.len() > 0 {
        let rest = blocks.drop_last();
        lemma_blocks_applied(start, rest);
        assert(events.drop_last() =~= node_answers(rest));
        assert forall|i: int| 0 <= i < blocks.len() implies (#[trigger] sync_action(
            start,
            events,
            i,
        )).apply by {
            if i < rest.len() {
                assert(events.take(i) =~= node_answers(rest).take(i));
                assert(sync_action(start, node_answers(rest), i).apply);
            } else {
                assert(events.take(i) =~= node_answers(rest));
            }
        }
    }
}

/// A wallet is brought up to the tip of the node: after all the blocks that the node has for it
/// and its unconfirmed transactions, the last block that was applied is the last of the node,
/// and nothing is left that is not stored.
pub proof fn lemma_synced_to_tip(start: WalletSync, blocks: Seq<BlockId>)
    requires
        start.state == SyncState::Blocks,
    ensures
        ({
            let events = node_answers(blocks) + seq![SyncEvent::NoBlock, SyncEvent::Unconfirmed];
            let end = sync_run(start, events);
            &&& end.state == SyncState::Done
            &&& !end.unsaved
            &&& end.tip == if blocks.len() == 0 {
                start.tip
            } else {
                blocks.last()
            }
            &&& forall|i: int|
                0 <= i < blocks.len() ==> (#[trigger] sync_action(start, events, i)).apply
        }),
{
    let e0 = node_answers(blocks);
    let e1 = e0.push(SyncEvent::NoBlock);
    let e2 = e1.push(SyncEvent::Unconfirmed);
    lemma_blocks_applied(start, blocks);
    assert(e0 + seq![SyncEvent::NoBlock, SyncEvent::Unconfirmed] =~= e2);
    assert(e1.drop_last() =~= e0);
    assert(e2.drop_last() =~= e1);
    assert(sync_run(start, e1).state == SyncState::Mempool);
    assert forall|i: int| 0 <= i < blocks.len() implies (#[trigger] sync_action(
        start,
        e2,
        i,
    )).apply by {
        assert(e2.take(i) =~= e0.take(i));
        assert(sync_action(start, e0, i).apply);
    }
}

/// Whether `blocks` holds a block of the given height.
pub open spec fn reaches(blocks: Seq<BlockId>, height: u32) -> bool {
    exists|i: int| 0 <= i < blocks.len() && (#[trigger] blocks[i]).height == height
}

/// Where no more than the last 200 blocks of a wallet were replaced, blocks are asked for from
/// no higher than the last one that was not. So where the node has its blocks from there on, up
/// to a tip that is no lower, each height at which a block was replaced gets a block of the
/// node.
pub proof fn lemma_reorg_covered(tip: u32, replaced: u32, blocks: Seq<BlockId>)
    requires
        replaced <= tip,
        replaced <= REORG_DEPTH,
        forall|i: int|
            0 <= i < blocks.len() ==> (#[trigger] blocks[i]).height == scan_start(tip) + i,
        scan_start(tip) + blocks.len() > tip,
    ensures
        scan_start(tip) <= tip - replaced,
        forall|height: u32|
            tip - replaced < height <= tip ==> #[trigger] reaches(blocks, height),
{
    assert forall|height: u32| tip - replaced < height <= tip implies #[trigger] reaches(
        blocks,
        height,
    ) by {
        let i = height - scan_start(tip);
        assert(blocks[i].height == height);
    }
}

/// A descriptor with one path makes one wallet, under the name by which it is looked for: adding
/// the descriptor again finds it.
pub proof fn lemma_found_again(descriptor: Seq<char>, network: Network, start_height: u32)
    requires
        multipath(descriptor) == Some(false),
        descriptor_name(descriptor, network) is Some,
    ensures
        added_wallets(descriptor, network, start_height) == Ok::<
            Seq<WalletPlanView>,
            DescriptorError,
        >(
            seq![
                WalletPlanView {
                    name: descriptor_name(descriptor, network)->0,
                    descriptor,
                    start: start_block(start_height),
                },
            ],
        ),
{
    let list = seq![descriptor];
    let names = wallet_names_on(list, network);
    assert forall|i: int| 0 <= i < names.len() implies (#[trigger] names[i]) is Some by {
        assert(list[i] == descriptor);
    }
    let made = added_wallets(descriptor, network, start_height);
    assert(made is Ok);
    assert(made->Ok_0 =~= seq![
        WalletPlanView {
            name: descriptor_name(descriptor, network)->0,
            descriptor,
            start: start_block(start_height),
        },
    ]);
}

/// What wallets to create, and results, hold is what their fields hold.
pub proof fn lemma_wallet_fields(
    plan: WalletPlan,
    text: Result<String, String>,
    name: Option<String>,
    list: Option<Vec<String>>,
)
    ensures
        plan@.name == plan.name@,
        plan@.descriptor == plan.descriptor@,
        plan@.start == plan.start,
        match result_text(text) {
            Ok(t) => text is Ok && t == text->Ok_0@,
            Err(e) => text is Err && e == text->Err_0@,
        },
        match option_text(name) {
            Some(t) => name is Some && t == name->0@,
            None => name is None,
        },
        match option_texts(list) {
            Some(t) => list is Some && t == texts(list->0@),
            None => list is None,
        },
{
}

/// What results that are lists hold is what each of their elements holds, at its place.
pub proof fn lemma_wallet_lists(
    plans: Seq<WalletPlan>,
    names: Seq<Option<String>>,
    made: Result<Vec<String>, DescriptorError>,
    planned: Result<Vec<WalletPlan>, DescriptorError>,
)
    ensures
        plans_of(plans).len() == plans.len(),
        forall|i: int| 0 <= i < plans.len() ==> #[trigger] plans_of(plans)[i] == plans[i]@,
        names_of(names).len() == names.len(),
        forall|i: int|
            0 <= i < names.len() ==> #[trigger] names_of(names)[i] == option_text(names[i]),
        match result_texts(made) {
            Ok(list) => made is Ok && list == texts(made->Ok_0@),
            Err(e) => made is Err && e == made->Err_0,
        },
        match result_plans(planned) {
            Ok(list) => planned is Ok && list == plans_of(planned->Ok_0@),
            Err(e) => planned is Err && e == planned->Err_0,
        },
{
}

/// What a descriptor comes to: itself alone where it has one path, the descriptors of its paths
/// where it has several; it is malformed where it is none, and its paths mismatch where it has
/// several that cannot be told apart.
pub proof fn lemma_descriptors_chosen(
    descriptor: Seq<char>,
    several: Option<bool>,
    singles: Option<Seq<Seq<char>>>,
)
    ensures
        match chosen_descriptors(descriptor, several, singles) {
            Ok(list) => {
                ||| several == Some(false) && list.len() == 1 && list[0] == descriptor
                ||| several == Some(true) && singles == Some(list)
            },
            Err(DescriptorError::Malformed) => several is None,
            Err(DescriptorError::PathMismatch) => several == Some(true) && singles is None,
            Err(DescriptorError::NoWallet) => false,
        },
{
}

/// The wallets for several descriptors: one for each, with its name, where all have names, looking
/// from the start height on where that is not 0; none where any has no name.
pub proof fn lemma_wallets_planned(
    descriptors: Seq<Seq<char>>,
    names: Seq<Option<Seq<char>>>,
    start_height: u32,
)
    requires
        names.len() == descriptors.len(),
    ensures
        match planned_wallets(descriptors, names, start_height) {
            Ok(plans) => {
                &&& plans.len() == descriptors.len()
                &&& forall|i: int|
                    0 <= i < plans.len() ==> (#[trigger] plans[i]).descriptor == descriptors[i]
                        && Some(plans[i].name) == names[i] && (plans[i].start is None
                        <==> start_height == 0) && (start_height > 0 ==> plans[i].start == Some(
                        start_height,
                    ))
            },
            Err(e) => e == DescriptorError::NoWallet && names.contains(None),
        },
        names.contains(None) ==> planned_wallets(descriptors, names, start_height) is Err,
        start_height > 0 ==> start_block(start_height) == Some(start_height),
        start_height == 0 ==> start_block(start_height) is None,
{
    if planned_wallets(descriptors, names, start_height) is Err {
        let i = choose|i: int| 0 <= i < names.len() && (#[trigger] names[i]) is None;
        assert(names[i] == None::<Seq<char>>);
    } else {
        assert forall|i: int| 0 <= i < names.len() implies Some(names[i]->0)
            == #[trigger] names[i] by {
            assert(!(names[i] is None));
        }
        let plans = planned_wallets(descriptors, names, start_height)->Ok_0;
        assert forall|i: int| 0 <= i < plans.len() implies (#[trigger] plans[i]).descriptor
            == descriptors[i] && Some(plans[i].name) == names[i] by {
            assert(Some(names[i]->0) == names[i]);
        }
    }
    if names.contains(None) {
        let i = choose|i: int| 0 <= i < names.len() && names[i] == None::<Seq<char>>;
        assert(names[i] is None);
    }
}

/// What adding a descriptor makes: where its descriptors can be told and all make wallets on the
/// network, one wallet for each, under the name that the wallet crate gives it there.
pub proof fn lemma_wallets_added(descriptor: Seq<char>, network: Network, start_height: u32)
    ensures
        match added_wallets(descriptor, network, start_height) {
            Ok(plans) => {
                &&& multipath(descriptor) is Some
                &&& multipath(descriptor) == Some(false) ==> plans.len() == 1
                    && plans[0].descriptor == descriptor
                &&& multipath(descriptor) == Some(true) ==> single_descriptors(descriptor) is Some
                    && plans.len() == (single_descriptors(descriptor)->0).len() && forall|i: int|
                    0 <= i < plans.len() ==> (#[trigger] plans[i]).descriptor == (
                    single_descriptors(descriptor)->0)[i]
                &&& forall|i: int|
                    0 <= i < plans.len() ==> descriptor_name(
                        (#[trigger] plans[i]).descriptor,
                        network,
                    ) == Some(plans[i].name) && (plans[i].start == if start_height == 0 {
                        None
                    } else {
                        Some(start_height)
                    })
            },
            Err(DescriptorError::Malformed) => multipath(descriptor) is None,
            Err(DescriptorError::PathMismatch) => multipath(descriptor) == Some(true)
                && single_descriptors(descriptor) is None,
            Err(DescriptorError::NoWallet) => {
                ||| multipath(descriptor) == Some(false) && descriptor_name(
                    descriptor,
                    network,
                ) is None
                ||| multipath(descriptor) == Some(true) && single_descriptors(descriptor) is Some
                    && exists|i: int|
                    0 <= i < (single_descriptors(descriptor)->0).len() && descriptor_name(
                        #[trigger] (single_descriptors(descriptor)->0)[i],
                        network,
                    ) is None
            },
        },
{
    lemma_descriptors_chosen(descriptor, multipath(descriptor), single_descriptors(descriptor));
    match chosen_descriptors(descriptor, multipath(descriptor), single_descriptors(descriptor)) {
        Ok(list) => {
            let names = wallet_names_on(list, network);
            lemma_wallets_planned(list, names, start_height);
            match planned_wallets(list, names, start_height) {
                Ok(plans) => {
                    assert forall|i: int| 0 <= i < plans.len() implies descriptor_name(
                        (#[trigger] plans[i]).descriptor,
                        network,
                    ) == Some(plans[i].name) by {
                        assert(names[i] == descriptor_name(list[i], network));
                    }
                },
                Err(_) => {
                    let i = choose|i: int| 0 <= i < names.len() && names[i] == None::<Seq<char>>;
                    assert(names[i] == descriptor_name(list[i], network));
                },
            }
        },
        Err(_) => {},
    }
}

/// A table belongs to a wallet exactly where its name is that of the wallet and "_keychain"
/// behind it.
pub proof fn lemma_table_is(table: Seq<char>, name: Seq<char>)
    ensures
        wallet_of_table(table) == Some(name) <==> table == name + "_keychain"@,
        wallet_of_table(table) is None <==> forall|n: Seq<char>| table != #[trigger] (n
            + "_keychain"@),
{
    let n = table.len() - "_keychain"@.len();
    if n >= 0 && table.skip(n) == "_keychain"@ {
        assert(table =~= table.take(n) + "_keychain"@);
    }
    if table == name + "_keychain"@ {
        lemma_wallet_found(name);
    }
    if exists|m: Seq<char>| table == #[trigger] (m + "_keychain"@) {
        let m = choose|m: Seq<char>| table == #[trigger] (m + "_keychain"@);
        lemma_wallet_found(m);
    }
}

/// The wallets of a database are those that its tables belong to, in the order of the tables, and
/// a table that belongs to none adds none.
pub proof fn lemma_wallets_of_tables(tables: Seq<Seq<char>>)
    ensures
        wallets_of_tables(tables) == tables.filter_map(
            |table: Seq<char>| wallet_of_table(table),
        ),
        forall|name: Seq<char>|
            wallets_of_tables(tables).contains(name) <==> tables.contains(
                #[trigger] (name + "_keychain"@),
            ),
    decreases tables.len(),
{
    let pick = |table: Seq<char>| wallet_of_table(table);
    if tables.len() > 0 {
        let rest = tables.drop_last();
        let last = tables.last();
        lemma_wallets_of_tables(rest);
        assert forall|name: Seq<char>|
            wallets_of_tables(tables).contains(name) <==> tables.contains(
                #[trigger] (name + "_keychain"@),
            ) by {
            let table = name + "_keychain"@;
            lemma_table_is(last, name);
            assert(rest.contains(table) <==> wallets_of_tables(rest).contains(name));
            assert(tables =~= rest.push(last));
            lemma_push_contains(rest, last, table);
            if let Some(found) = wallet_of_table(last) {
                lemma_push_contains(wallets_of_tables(rest), found, name);
            }
        }
    } else {
        assert(wallets_of_tables(tables) =~= tables.filter_map(pick));
    }
}

/// A wallet is scanned again from 200 blocks below its tip, or from the first block where there
/// are not as many, and is stored every ten thousand blocks.
pub proof fn lemma_scan_is(tip: u32)
    ensures
        tip >= 200 ==> scan_start(tip) + 200 == tip,
        tip < 200 ==> scan_start(tip) == 0,
        REORG_DEPTH == 200,
        PERSIST_INTERVAL == 10_000,
{
}

/// One step of bringing a wallet up to date: while blocks are asked for, a block is applied and
/// becomes the tip, and is stored where its height is a multiple of ten thousand; no more blocks
/// lead on to the unconfirmed transactions, which are applied and stored, and that ends it. All
/// else leaves everything as it is.
pub proof fn lemma_sync_step(sync: WalletSync, event: SyncEvent)
    ensures
        ({
            let (next, action) = sync_next(sync, event);
            let block = sync.state == SyncState::Blocks && event is Block;
            let end = sync.state == SyncState::Blocks && event is NoBlock;
            let last = sync.state == SyncState::Mempool && event is Unconfirmed;
            &&& block ==> next.state == SyncState::Blocks && next.tip == event->Block_0
                && action.apply && (action.persist <==> event->Block_0.height % 10_000 == 0)
                && next.unsaved != action.persist
            &&& end ==> next.state == SyncState::Mempool && next.tip == sync.tip && next.unsaved
                == sync.unsaved && !action.apply && !action.persist
            &&& last ==> next.state == SyncState::Done && next.tip == sync.tip && !next.unsaved
                && action.apply && action.persist
            &&& !block && !end && !last ==> next == sync && !action.apply && !action.persist
        }),
{
}

} // verus!
