//! Spending, as a dialogue: what is asked of the wallets and the node, one after the other, and
//! what the answers come to.
use crate::batch::{
    batch_input, batch_of, can_merge, estimated_sizes, find_batchable_txs, lemma_batch_exists,
    pays_bandwidth, MempoolEntry,
};
use crate::disposal::{find_unconfirmed_ddust_txs, unconfirmed_ddust};
use crate::dust::{
    dust_at, lemma_dust_selected, lemma_selection_sound, outputs_of, select_dust, LocalOutput,
    LocalOutputView,
};
use crate::lists::lemma_filter_contains;
use crate::size::transaction_weight;
use crate::spend::{
    built_by, can_plan, foreign_value, lemma_batch_pays_floor, lemma_plan_spends_dust,
    lemma_signed_floor, lists_of, pays_floor, plan_size, plan_spend, signed_weight, signed_within,
    spend_input, spend_plan, SpendPlan, SpendPlanView,
};
use crate::tx::{contents, Transaction, TransactionView, TxInView};
use vstd::prelude::*;

verus! {

/// What is to be spent.
#[derive(Debug)]
pub struct SpendRequest {
    /// The script of the address.
    pub script: Vec<u8>,
    /// The most that dust is worth.
    pub dust_amount: u64,
    /// Whether dust at an address that guards funds is spent too.
    pub allow_exposed: bool,
}

/// What is known so far, and with it what is asked next.
#[derive(Debug)]
pub enum SpendState {
    /// No dust yet. Asked: the unspent outputs of the next wallet.
    Wallets,
    /// The dust of a wallet. Asked: the transactions of the mempool.
    Mempool(Vec<LocalOutput>),
    /// The dust, and the unconfirmed disposals. Asked: what the node says of each of these.
    Entries(Vec<LocalOutput>, Vec<Transaction>),
    /// The dust, and the disposals to merge. Asked: the transactions that these spend from.
    Previous(Vec<LocalOutput>, Vec<Transaction>),
    /// The transaction to build with the wallet that has the dust.
    Planned(SpendPlan),
    /// The dust is worth too little: a transaction that spends it could pay less than 0.1
    /// satoshi a virtual byte once it is signed.
    BelowFloor,
}

/// An answer.
#[derive(Debug)]
pub enum SpendEvent {
    /// The unspent outputs of a wallet.
    Wallet(Vec<LocalOutput>),
    /// The transactions of the mempool.
    Mempool(Vec<Transaction>),
    /// What the node says of each unconfirmed disposal.
    Entries(Vec<MempoolEntry>),
    /// For each input of each disposal to merge, the transaction that it spends from.
    Previous(Vec<Vec<Transaction>>),
}

/// What a [`SpendRequest`] holds.
#[verifier::ext_equal]
pub struct SpendRequestView {
    pub script: Seq<u8>,
    pub dust_amount: u64,
    pub allow_exposed: bool,
}

/// What a [`SpendState`] holds.
#[verifier::ext_equal]
pub enum SpendStateView {
    Wallets,
    Mempool(Seq<LocalOutputView>),
    Entries(Seq<LocalOutputView>, Seq<TransactionView>),
    Previous(Seq<LocalOutputView>, Seq<TransactionView>),
    Planned(SpendPlanView),
    BelowFloor,
}

/// What a [`SpendEvent`] holds.
#[verifier::ext_equal]
pub enum SpendEventView {
    Wallet(Seq<LocalOutputView>),
    Mempool(Seq<TransactionView>),
    Entries(Seq<MempoolEntry>),
    Previous(Seq<Seq<TransactionView>>),
}

impl View for SpendRequest {
    type V = SpendRequestView;

    open spec fn view(&self) -> SpendRequestView {
        SpendRequestView {
            script: self.script@,
            dust_amount: self.dust_amount,
            allow_exposed: self.allow_exposed,
        }
    }
}

impl View for SpendState {
    type V = SpendStateView;

    open spec fn view(&self) -> SpendStateView {
        match self {
            SpendState::Wallets => SpendStateView::Wallets,
            SpendState::Mempool(dust) => SpendStateView::Mempool(outputs_of(dust@)),
            SpendState::Entries(dust, unconfirmed) => SpendStateView::Entries(
                outputs_of(dust@),
                contents(unconfirmed@),
            ),
            SpendState::Previous(dust, batch) => SpendStateView::Previous(
                outputs_of(dust@),
                contents(batch@),
            ),
            SpendState::Planned(plan) => SpendStateView::Planned(plan@),
            SpendState::BelowFloor => SpendStateView::BelowFloor,
        }
    }
}

impl View for SpendEvent {
    type V = SpendEventView;

    open spec fn view(&self) -> SpendEventView {
        match self {
            SpendEvent::Wallet(outputs) => SpendEventView::Wallet(outputs_of(outputs@)),
            SpendEvent::Mempool(txs) => SpendEventView::Mempool(contents(txs@)),
            SpendEvent::Entries(entries) => SpendEventView::Entries(entries@),
            SpendEvent::Previous(prev_txs) => SpendEventView::Previous(lists_of(prev_txs@)),
        }
    }
}

/// The dust of a wallet with the unspent outputs `outputs` that is asked for.
pub open spec fn requested_dust(
    request: SpendRequestView,
    outputs: Seq<LocalOutputView>,
) -> Seq<LocalOutputView> {
    dust_at(outputs, request.script, request.dust_amount, request.allow_exposed)
}

/// What an answer comes to. The first wallet that has dust at the address is the one that
/// spends, where the dust pays for it. An answer that was not asked for changes nothing.
pub open spec fn spend_next(
    request: SpendRequestView,
    state: SpendStateView,
    event: SpendEventView,
) -> SpendStateView {
    match (state, event) {
        (SpendStateView::Wallets, SpendEventView::Wallet(outputs)) => {
            let dust = requested_dust(request, outputs);
            if dust.len() == 0 {
                SpendStateView::Wallets
            } else {
                SpendStateView::Mempool(dust)
            }
        },
        (SpendStateView::Mempool(dust), SpendEventView::Mempool(txs)) => SpendStateView::Entries(
            dust,
            unconfirmed_ddust(txs),
        ),
        (
            SpendStateView::Entries(dust, unconfirmed),
            SpendEventView::Entries(entries),
        ) => SpendStateView::Previous(dust, batch_of(dust, unconfirmed, entries)),
        (SpendStateView::Previous(dust, batch), SpendEventView::Previous(prevs)) => if pays_floor(
            dust,
            batch,
            prevs,
        ) {
            SpendStateView::Planned(spend_plan(dust, batch, prevs))
        } else {
            SpendStateView::BelowFloor
        },
        _ => state,
    }
}

/// There is dust once a wallet was chosen.
pub open spec fn has_dust(state: SpendStateView) -> bool {
    match state {
        SpendStateView::Wallets => true,
        SpendStateView::Mempool(dust) => dust.len() > 0,
        SpendStateView::Entries(dust, _) => dust.len() > 0,
        SpendStateView::Previous(dust, _) => dust.len() > 0,
        SpendStateView::Planned(_) => true,
        SpendStateView::BelowFloor => true,
    }
}

/// Whether an answer has all that was asked for, in machine integers.
pub open spec fn answers(state: SpendStateView, event: SpendEventView) -> bool {
    match (state, event) {
        (SpendStateView::Entries(dust, unconfirmed), SpendEventView::Entries(entries)) =>
            unconfirmed.len() > 0 ==> batch_input(entries, dust, unconfirmed),
        (SpendStateView::Previous(dust, batch), SpendEventView::Previous(prevs)) => spend_input(
            dust,
            batch,
            prevs,
        ),
        _ => true,
    }
}

/// Whether an answer can be taken.
pub fn can_answer(state: &SpendState, event: &SpendEvent) -> (r: bool)
    ensures
        r == answers(state@, event@),
{
    match (state, event) {
        (SpendState::Entries(dust, unconfirmed), SpendEvent::Entries(entries)) => {
            assert(contents(unconfirmed@).len() == unconfirmed@.len());
            unconfirmed.len() == 0 || can_merge(entries, dust, unconfirmed)
        },
        (SpendState::Previous(dust, batch), SpendEvent::Previous(prev_txs)) => can_plan(
            dust,
            batch,
            prev_txs,
        ),
        _ => true,
    }
}

/// One step towards the transaction that disposes of the requested dust.
pub fn cmd_spend(request: &SpendRequest, state: SpendState, event: SpendEvent) -> (r: SpendState)
    requires
        has_dust(state@),
        answers(state@, event@),
    ensures
        r@ == spend_next(request@, state@, event@),
        has_dust(r@),
{
    match (state, event) {
        (SpendState::Wallets, SpendEvent::Wallet(outputs)) => {
            let dust = select_dust(
                &outputs,
                &request.script,
                request.dust_amount,
                request.allow_exposed,
            );
            assert(outputs_of(dust@).len() == dust@.len());
            if dust.len() == 0 {
                SpendState::Wallets
            } else {
                SpendState::Mempool(dust)
            }
        },
        (SpendState::Mempool(dust), SpendEvent::Mempool(txs)) => {
            let unconfirmed = find_unconfirmed_ddust_txs(&txs);
            SpendState::Entries(dust, unconfirmed)
        },
        (SpendState::Entries(dust, unconfirmed), SpendEvent::Entries(entries)) => {
            assert(contents(unconfirmed@).len() == unconfirmed@.len());
            let batch = find_batchable_txs(&entries, &dust, &unconfirmed);
            SpendState::Previous(dust, batch)
        },
        (SpendState::Previous(dust, batch), SpendEvent::Previous(prev_txs)) => {
            assert(outputs_of(dust@).len() == dust@.len());
            match plan_spend(&dust, &batch, &prev_txs) {
                Some(plan) => SpendState::Planned(plan),
                None => SpendState::BelowFloor,
            }
        },
        (state, _) => state,
    }
}

/// What the answers `events` come to, one after the other.
pub open spec fn spend_run(
    request: SpendRequestView,
    events: Seq<SpendEventView>,
) -> SpendStateView
    decreases events.len(),
{
    if events.len() == 0 {
        SpendStateView::Wallets
    } else {
        spend_next(request, spend_run(request, events.drop_last()), events.last())
    }
}

/// The answers of `wallets`.
pub open spec fn wallet_answers(wallets: Seq<Seq<LocalOutputView>>) -> Seq<SpendEventView> {
    Seq::new(wallets.len(), |i: int| SpendEventView::Wallet(wallets[i]))
}

/// Where no wallet has dust at the address, nothing is spent.
pub proof fn lemma_nothing_to_spend(
    request: SpendRequestView,
    wallets: Seq<Seq<LocalOutputView>>,
)
    requires
        forall|i: int|
            0 <= i < wallets.len() ==> requested_dust(request, #[trigger] wallets[i]).len() == 0,
    ensures
        spend_run(request, wallet_answers(wallets)) == SpendStateView::Wallets,
    decreases wallets.len(),
{
    if wallets.len() > 0 {
        let rest = wallets.drop_last();
        assert forall|i: int| 0 <= i < rest.len() implies requested_dust(
            request,
            #[trigger] rest[i],
        ).len() == 0 by {
            assert(rest[i] == wallets[i]);
        }
        lemma_nothing_to_spend(request, rest);
        assert(wallet_answers(wallets).drop_last() =~= wallet_answers(rest));
        assert(requested_dust(request, wallets[wallets.len() - 1]).len() == 0);
    }
}

/// The whole dialogue: the first wallet that has dust at the address spends all of it, merging
/// what can be merged of the disposals in the mempool, unless it would pay too little.
pub proof fn lemma_dialogue(
    request: SpendRequestView,
    wallets: Seq<Seq<LocalOutputView>>,
    chosen: Seq<LocalOutputView>,
    mempool: Seq<TransactionView>,
    entries: Seq<MempoolEntry>,
    prevs: Seq<Seq<TransactionView>>,
)
    requires
        forall|i: int|
            0 <= i < wallets.len() ==> requested_dust(request, #[trigger] wallets[i]).len() == 0,
        requested_dust(request, chosen).len() > 0,
    ensures
        spend_run(
            request,
            wallet_answers(wallets) + seq![
                SpendEventView::Wallet(chosen),
                SpendEventView::Mempool(mempool),
                SpendEventView::Entries(entries),
                SpendEventView::Previous(prevs),
            ],
        ) == ({
            let dust = requested_dust(request, chosen);
            let batch = batch_of(dust, unconfirmed_ddust(mempool), entries);
            if pays_floor(dust, batch, prevs) {
                SpendStateView::Planned(spend_plan(dust, batch, prevs))
            } else {
                SpendStateView::BelowFloor
            }
        }),
{
    lemma_nothing_to_spend(request, wallets);
    let e0 = wallet_answers(wallets);
    let e1 = e0.push(SpendEventView::Wallet(chosen));
    let e2 = e1.push(SpendEventView::Mempool(mempool));
    let e3 = e2.push(SpendEventView::Entries(entries));
    let e4 = e3.push(SpendEventView::Previous(prevs));
    assert(e0 + seq![
        SpendEventView::Wallet(chosen),
        SpendEventView::Mempool(mempool),
        SpendEventView::Entries(entries),
        SpendEventView::Previous(prevs),
    ] =~= e4);
    assert(e1.drop_last() =~= e0);
    assert(e2.drop_last() =~= e1);
    assert(e3.drop_last() =~= e2);
    assert(e4.drop_last() =~= e3);
    let dust = requested_dust(request, chosen);
    assert(spend_run(request, e1) == SpendStateView::Mempool(dust));
    assert(spend_run(request, e2) == SpendStateView::Entries(dust, unconfirmed_ddust(mempool)));
    assert(spend_run(request, e3) == SpendStateView::Previous(
        dust,
        batch_of(dust, unconfirmed_ddust(mempool), entries),
    ));
}

/// Whether each of `events` has all that was asked for when it came.
pub open spec fn all_answered(request: SpendRequestView, events: Seq<SpendEventView>) -> bool
    decreases events.len(),
{
    events.len() > 0 ==> all_answered(request, events.drop_last()) && answers(
        spend_run(request, events.drop_last()),
        events.last(),
    )
}

/// There is dust in every state that is reached.
proof fn lemma_has_dust(request: SpendRequestView, events: Seq<SpendEventView>)
    ensures
        has_dust(spend_run(request, events)),
    decreases events.len(),
{
    if events.len() > 0 {
        lemma_has_dust(request, events.drop_last());
    }
}

/// Whether `plan` is the plan for `dust` and `batch`, and pays at least 0.1 satoshi for each
/// virtual byte of whatever is built by it and signed within the weight that the wallet gives.
pub open spec fn pays_once_signed(
    plan: SpendPlanView,
    dust: Seq<LocalOutputView>,
    batch: Seq<TransactionView>,
    prevs: Seq<Seq<TransactionView>>,
) -> bool {
    &&& plan == spend_plan(dust, batch, prevs)
    &&& pays_bandwidth(plan.fee, plan_size(dust, batch))
    &&& forall|tx: TransactionView, own: Seq<TxInView>, order: Seq<int>|
        #[trigger] built_by(tx, plan, own, order) && signed_within(own, dust) ==> pays_bandwidth(
            plan.fee,
            transaction_weight(tx),
        )
}

/// Every transaction that is planned, of whatever kind its dust is and whatever it merges, pays
/// at least 0.1 satoshi for each virtual byte that it has once it is signed.
pub proof fn lemma_planned_pays(request: SpendRequestView, events: Seq<SpendEventView>)
    requires
        all_answered(request, events),
        spend_run(request, events) is Planned,
    ensures
        exists|
            dust: Seq<LocalOutputView>,
            batch: Seq<TransactionView>,
            prevs: Seq<Seq<TransactionView>>,
        | #[trigger]
            pays_once_signed(spend_run(request, events)->Planned_0, dust, batch, prevs),
    decreases events.len(),
{
    let before = spend_run(request, events.drop_last());
    if before is Planned {
        lemma_planned_pays(request, events.drop_last());
    } else {
        let dust = before->Previous_0;
        let batch = before->Previous_1;
        let prevs = events.last()->Previous_0;
        let plan = spend_plan(dust, batch, prevs);
        lemma_has_dust(request, events.drop_last());
        assert(pays_floor(dust, batch, prevs));
        assert forall|tx: TransactionView, own: Seq<TxInView>, order: Seq<int>|
            #[trigger] built_by(tx, plan, own, order) && signed_within(
                own,
                dust,
            ) implies pays_bandwidth(plan.fee, transaction_weight(tx)) by {
            lemma_signed_floor(tx, dust, batch, prevs, own, order);
        }
        assert(pays_once_signed(plan, dust, batch, prevs));
    }
}

/// A disposal that merges anything is not worth too little, where its dust inputs are no heavier
/// than was estimated, or by no more than what the merged inputs bring pays for.
pub proof fn lemma_merged_is_planned(
    request: SpendRequestView,
    dust: Seq<LocalOutputView>,
    mempool: Seq<TransactionView>,
    entries: Seq<MempoolEntry>,
    prevs: Seq<Seq<TransactionView>>,
)
    requires
        dust.len() > 0,
        unconfirmed_ddust(mempool).len() > 0,
        batch_input(entries, dust, unconfirmed_ddust(mempool)),
        batch_of(dust, unconfirmed_ddust(mempool), entries).len() > 0,
        signed_weight(dust) + 32 <= estimated_sizes(dust) + 40 * foreign_value(
            batch_of(dust, unconfirmed_ddust(mempool), entries),
            prevs,
        ),
    ensures
        ({
            let batch = batch_of(dust, unconfirmed_ddust(mempool), entries);
            spend_next(
                request,
                SpendStateView::Previous(dust, batch),
                SpendEventView::Previous(prevs),
            ) == SpendStateView::Planned(spend_plan(dust, batch, prevs))
        }),
{
    let txs = unconfirmed_ddust(mempool);
    lemma_batch_exists(dust, txs, entries);
    lemma_batch_pays_floor(batch_of(dust, txs, entries), dust, mempool, entries, prevs);
}

/// What requests, states and answers hold is what their fields hold.
pub proof fn lemma_session_fields(request: SpendRequest, state: SpendState, event: SpendEvent)
    ensures
        request@.script == request.script@,
        request@.dust_amount == request.dust_amount,
        request@.allow_exposed == request.allow_exposed,
        state is Wallets <==> state@ is Wallets,
        state is BelowFloor <==> state@ is BelowFloor,
        state matches SpendState::Mempool(dust) ==> state@ == SpendStateView::Mempool(
            outputs_of(dust@),
        ),
        state matches SpendState::Entries(dust, txs) ==> state@ == SpendStateView::Entries(
            outputs_of(dust@),
            contents(txs@),
        ),
        state matches SpendState::Previous(dust, txs) ==> state@ == SpendStateView::Previous(
            outputs_of(dust@),
            contents(txs@),
        ),
        state matches SpendState::Planned(plan) ==> state@ == SpendStateView::Planned(plan@),
        event matches SpendEvent::Wallet(outputs) ==> event@ == SpendEventView::Wallet(
            outputs_of(outputs@),
        ),
        event matches SpendEvent::Mempool(txs) ==> event@ == SpendEventView::Mempool(
            contents(txs@),
        ),
        event matches SpendEvent::Entries(entries) ==> event@ == SpendEventView::Entries(entries@),
        event matches SpendEvent::Previous(prevs) ==> event@ == SpendEventView::Previous(
            lists_of(prevs@),
        ),
{
}

/// The first question: a wallet without dust at the address leaves it open, and one with dust
/// there ends it with all of that dust.
pub proof fn lemma_wallet_answered(request: SpendRequestView, outputs: Seq<LocalOutputView>)
    ensures
        ({
            let dust = dust_at(
                outputs,
                request.script,
                request.dust_amount,
                request.allow_exposed,
            );
            let next = spend_next(
                request,
                SpendStateView::Wallets,
                SpendEventView::Wallet(outputs),
            );
            &&& requested_dust(request, outputs) == dust
            &&& dust.len() == 0 ==> next == SpendStateView::Wallets
            &&& dust.len() > 0 ==> next == SpendStateView::Mempool(dust)
        }),
{
}

/// The questions to the node: the dust goes through all of them unchanged, the mempool comes to
/// the disposals in it, what the node says of these to those that are merged, and the
/// transactions that these spend from to the plan, where it pays for itself.
pub proof fn lemma_node_answered(
    request: SpendRequestView,
    dust: Seq<LocalOutputView>,
    txs: Seq<TransactionView>,
    entries: Seq<MempoolEntry>,
    prevs: Seq<Seq<TransactionView>>,
)
    ensures
        spend_next(request, SpendStateView::Mempool(dust), SpendEventView::Mempool(txs))
            == SpendStateView::Entries(dust, unconfirmed_ddust(txs)),
        spend_next(request, SpendStateView::Entries(dust, txs), SpendEventView::Entries(entries))
            == SpendStateView::Previous(dust, batch_of(dust, txs, entries)),
        pays_floor(dust, txs, prevs) ==> spend_next(
            request,
            SpendStateView::Previous(dust, txs),
            SpendEventView::Previous(prevs),
        ) == SpendStateView::Planned(spend_plan(dust, txs, prevs)),
        !pays_floor(dust, txs, prevs) ==> spend_next(
            request,
            SpendStateView::Previous(dust, txs),
            SpendEventView::Previous(prevs),
        ) == SpendStateView::BelowFloor,
{
}

/// An answer that was not asked for changes nothing: so nothing changes once a transaction is
/// planned or the dust is worth too little.
pub proof fn lemma_unasked_ignored(
    request: SpendRequestView,
    state: SpendStateView,
    event: SpendEventView,
)
    requires
        !(state is Wallets && event is Wallet),
        !(state is Mempool && event is Mempool),
        !(state is Entries && event is Entries),
        !(state is Previous && event is Previous),
    ensures
        spend_next(request, state, event) == state,
        answers(state, event),
{
}

/// Which answers can be taken: what the node says of disposals where there are any, and the
/// transactions that are spent from, have to be what merging and planning take; all others are.
pub proof fn lemma_answers_are(
    dust: Seq<LocalOutputView>,
    txs: Seq<TransactionView>,
    entries: Seq<MempoolEntry>,
    prevs: Seq<Seq<TransactionView>>,
    state: SpendStateView,
    event: SpendEventView,
)
    ensures
        answers(SpendStateView::Entries(dust, txs), SpendEventView::Entries(entries)) <==> txs.len()
            == 0 || batch_input(entries, dust, txs),
        answers(SpendStateView::Previous(dust, txs), SpendEventView::Previous(prevs))
            <==> spend_input(dust, txs, prevs),
        !(state is Entries && event is Entries) && !(state is Previous && event is Previous)
            ==> answers(state, event),
        has_dust(state) <==> {
            &&& state matches SpendStateView::Mempool(own) ==> own.len() > 0
            &&& state matches SpendStateView::Entries(own, _) ==> own.len() > 0
            &&& state matches SpendStateView::Previous(own, _) ==> own.len() > 0
        },
{
}

/// What is planned spends dust of one wallet that is at the address, unspent, confirmed and
/// within the threshold, and all of it, whatever is in the mempool.
pub proof fn lemma_planned_dust(
    request: SpendRequestView,
    wallets: Seq<Seq<LocalOutputView>>,
    chosen: Seq<LocalOutputView>,
    mempool: Seq<TransactionView>,
    entries: Seq<MempoolEntry>,
    prevs: Seq<Seq<TransactionView>>,
)
    requires
        forall|i: int|
            0 <= i < wallets.len() ==> requested_dust(request, #[trigger] wallets[i]).len() == 0,
        requested_dust(request, chosen).len() > 0,
    ensures
        ({
            let end = spend_run(
                request,
                wallet_answers(wallets) + seq![
                    SpendEventView::Wallet(chosen),
                    SpendEventView::Mempool(mempool),
                    SpendEventView::Entries(entries),
                    SpendEventView::Previous(prevs),
                ],
            );
            end matches SpendStateView::Planned(plan) ==> {
                &&& forall|k: int|
                    0 <= k < plan.utxos.len() ==> exists|out: LocalOutputView|
                        #[trigger] chosen.contains(out) && out.outpoint == #[trigger] plan.utxos[k]
                            && out.txout.script_pubkey == request.script && !out.is_spent
                            && out.is_confirmed && out.txout.value <= request.dust_amount
                &&& forall|out: LocalOutputView|
                    #[trigger] chosen.contains(out) && out.txout.script_pubkey == request.script
                        && !out.is_spent && out.is_confirmed && out.txout.value
                        <= request.dust_amount ==> plan.utxos.contains(out.outpoint)
            }
        }),
{
    lemma_dialogue(request, wallets, chosen, mempool, entries, prevs);
    let dust = requested_dust(request, chosen);
    let batch = batch_of(dust, unconfirmed_ddust(mempool), entries);
    let plan = spend_plan(dust, batch, prevs);
    lemma_plan_spends_dust(dust, batch, prevs);
    assert forall|k: int| 0 <= k < plan.utxos.len() implies exists|out: LocalOutputView|
        #[trigger] chosen.contains(out) && out.outpoint == #[trigger] plan.utxos[k]
            && out.txout.script_pubkey == request.script && !out.is_spent && out.is_confirmed
            && out.txout.value <= request.dust_amount by {
        lemma_selection_sound(
            chosen,
            request.script,
            request.dust_amount,
            request.allow_exposed,
            k,
        );
        assert(chosen.contains(dust[k]) && dust[k].outpoint == plan.utxos[k]);
    }
    lemma_selection_sound(chosen, request.script, request.dust_amount, request.allow_exposed, 0);
    assert forall|out: LocalOutputView|
        #[trigger] chosen.contains(out) && out.txout.script_pubkey == request.script
            && !out.is_spent && out.is_confirmed && out.txout.value
            <= request.dust_amount implies plan.utxos.contains(out.outpoint) by {
        lemma_dust_selected(
            chosen,
            request.script,
            request.dust_amount,
            request.allow_exposed,
        );
        let pred = |o: LocalOutputView|
            o.txout.script_pubkey == request.script && !o.is_spent && o.is_confirmed
                && o.txout.value <= request.dust_amount;
        lemma_filter_contains(chosen, pred, out);
        let k = choose|k: int| 0 <= k < dust.len() && dust[k] == out;
        assert(plan.utxos[k] == out.outpoint);
    }
}

} // verus!
