//! Wallet outputs and which of them are dust to dispose of.
use crate::address::{
    address_from_script, address_parses, address_script, address_text, has_address,
    is_addressable,
};
use crate::lists::{lemma_filter_contains, lemma_filter_step};
use crate::script::witness_program;
use crate::tx::{same_bytes, OutPoint, TxOut, TxOutView};
use bdk_wallet::bitcoin::Network;
use vstd::prelude::*;

verus! {

/// An output that a wallet owns.
#[derive(Debug)]
pub struct LocalOutput {
    /// Where the output stands.
    pub outpoint: OutPoint,
    /// The output.
    pub txout: TxOut,
    /// Whether a transaction spends it.
    pub is_spent: bool,
    /// Whether its transaction is in a block.
    pub is_confirmed: bool,
    /// The most weight units that signing adds to an input that spends it, as the descriptor of
    /// the wallet gives it.
    pub satisfaction_weight: u64,
}

/// What a [`LocalOutput`] holds.
#[verifier::ext_equal]
pub struct LocalOutputView {
    pub outpoint: OutPoint,
    pub txout: TxOutView,
    pub is_spent: bool,
    pub is_confirmed: bool,
    pub satisfaction_weight: u64,
}

impl View for LocalOutput {
    type V = LocalOutputView;

    open spec fn view(&self) -> LocalOutputView {
        LocalOutputView {
            outpoint: self.outpoint,
            txout: self.txout@,
            is_spent: self.is_spent,
            is_confirmed: self.is_confirmed,
            satisfaction_weight: self.satisfaction_weight,
        }
    }
}

impl Clone for LocalOutput {
    fn clone(&self) -> (r: Self)
        ensures
            r@ == self@,
    {
        LocalOutput {
            outpoint: self.outpoint,
            txout: self.txout.clone(),
            is_spent: self.is_spent,
            is_confirmed: self.is_confirmed,
            satisfaction_weight: self.satisfaction_weight,
        }
    }
}

/// The contents of each output of `outputs`.
pub open spec fn outputs_of(outputs: Seq<LocalOutput>) -> Seq<LocalOutputView> {
    Seq::new(outputs.len(), |i: int| outputs[i]@)
}

/// The value of `outputs` together.
pub open spec fn total_value(outputs: Seq<LocalOutputView>) -> nat
    decreases outputs.len(),
{
    if outputs.len() == 0 {
        0
    } else {
        total_value(outputs.drop_last()) + outputs.last().txout.value as nat
    }
}

/// The value of a prefix is no larger than that of all outputs, and one more output adds its
/// value.
proof fn lemma_prefix_value(outputs: Seq<LocalOutputView>, n: int)
    requires
        0 <= n <= outputs.len(),
    ensures
        total_value(outputs.take(n)) <= total_value(outputs),
        n > 0 ==> total_value(outputs.take(n)) == total_value(outputs.take(n - 1)) + outputs[n
            - 1].txout.value,
    decreases outputs.len() - n,
{
    if n > 0 {
        assert(outputs.take(n).drop_last() =~= outputs.take(n - 1));
    }
    if n < outputs.len() {
        lemma_prefix_value(outputs, n + 1);
    } else {
        assert(outputs.take(n) =~= outputs);
    }
}

/// The value of `outputs` together, where it is a machine integer.
pub fn checked_sum_values(outputs: &Vec<LocalOutput>) -> (r: Option<u64>)
    ensures
        match r {
            Some(sum) => sum == total_value(outputs_of(outputs@)),
            None => total_value(outputs_of(outputs@)) > u64::MAX,
        },
{
    let ghost all = outputs_of(outputs@);
    let mut sum: u64 = 0;
    assert(all.take(0) =~= Seq::<LocalOutputView>::empty());
    for i in 0..outputs.len()
        invariant
            all == outputs_of(outputs@),
            sum == total_value(all.take(i as int)),
    {
        proof {
            lemma_prefix_value(all, i + 1);
            assert(all[i as int] == outputs@[i as int]@);
        }
        sum = match sum.checked_add(outputs[i].txout.value) {
            Some(next) => next,
            None => return None,
        };
    }
    assert(all.take(all.len() as int) =~= all);
    Some(sum)
}

/// The value of `outputs` together.
pub fn sum_values(outputs: &Vec<LocalOutput>) -> (r: u64)
    requires
        total_value(outputs_of(outputs@)) <= u64::MAX,
    ensures
        r == total_value(outputs_of(outputs@)),
{
    checked_sum_values(outputs).unwrap()
}

/// Dust to dispose of, as it is listed.
#[derive(Debug)]
pub struct Dust {
    /// The address that holds it.
    pub address: String,
    /// Its value in satoshis.
    pub value: u32,
    /// Where it stands.
    pub outpoint: OutPoint,
}

/// What a [`Dust`] holds.
#[verifier::ext_equal]
pub struct DustView {
    pub address: Seq<char>,
    pub value: u32,
    pub outpoint: OutPoint,
}

impl View for Dust {
    type V = DustView;

    open spec fn view(&self) -> DustView {
        DustView { address: self.address@, value: self.value, outpoint: self.outpoint }
    }
}

/// The contents of each element of `list`.
pub open spec fn dust_list(list: Seq<Dust>) -> Seq<DustView> {
    Seq::new(list.len(), |i: int| list[i]@)
}

/// The contents of each wallet of `wallets`.
pub open spec fn wallets_of(wallets: Seq<Vec<LocalOutput>>) -> Seq<Seq<LocalOutputView>> {
    Seq::new(wallets.len(), |i: int| outputs_of(wallets[i]@))
}

/// Dust: not spent, worth no more than `dust_amount`, and confirmed.
pub open spec fn dust_output(out: LocalOutputView, dust_amount: u64) -> bool {
    !out.is_spent && out.txout.value <= dust_amount && out.is_confirmed
}

/// An unspent output that is worth more than dust.
pub open spec fn non_dust(out: LocalOutputView, dust_amount: u64) -> bool {
    !out.is_spent && out.txout.value > dust_amount
}

/// Whether an address holds an unspent output of `outputs` that is no dust: spending from
/// the address would show the key that guards it.
pub open spec fn guards_funds(
    script: Seq<u8>,
    outputs: Seq<LocalOutputView>,
    dust_amount: u64,
) -> bool {
    exists|i: int|
        0 <= i < outputs.len() && non_dust(#[trigger] outputs[i], dust_amount)
            && outputs[i].txout.script_pubkey == script
}

/// Dust of a wallet that is disposed of: unless `allow_exposed`, not at an address that
/// guards funds.
pub open spec fn disposable(
    out: LocalOutputView,
    outputs: Seq<LocalOutputView>,
    dust_amount: u64,
    allow_exposed: bool,
) -> bool {
    dust_output(out, dust_amount) && (allow_exposed || !guards_funds(
        out.txout.script_pubkey,
        outputs,
        dust_amount,
    ))
}

/// The disposable dust of a wallet, in order.
pub open spec fn disposable_dust(
    outputs: Seq<LocalOutputView>,
    dust_amount: u64,
    allow_exposed: bool,
) -> Seq<LocalOutputView> {
    outputs.filter(|out: LocalOutputView| disposable(out, outputs, dust_amount, allow_exposed))
}

/// The disposable dust of a wallet that is locked by `script`, in order.
pub open spec fn dust_at(
    outputs: Seq<LocalOutputView>,
    script: Seq<u8>,
    dust_amount: u64,
    allow_exposed: bool,
) -> Seq<LocalOutputView> {
    outputs.filter(
        |out: LocalOutputView|
            disposable(out, outputs, dust_amount, allow_exposed) && out.txout.script_pubkey
                == script,
    )
}

/// How an output is listed: the value keeps its low 32 bits.
pub open spec fn listed(out: LocalOutputView, network: Network) -> DustView {
    DustView {
        address: address_text(out.txout.script_pubkey, network),
        value: (out.txout.value % 0x1_0000_0000) as u32,
        outpoint: out.outpoint,
    }
}

/// The disposable dust of all wallets, wallet by wallet.
pub open spec fn dust_of_wallets(
    wallets: Seq<Seq<LocalOutputView>>,
    dust_amount: u64,
    allow_exposed: bool,
) -> Seq<LocalOutputView>
    decreases wallets.len(),
{
    if wallets.len() == 0 {
        Seq::empty()
    } else {
        dust_of_wallets(wallets.drop_last(), dust_amount, allow_exposed) + disposable_dust(
            wallets.last(),
            dust_amount,
            allow_exposed,
        )
    }
}

/// The listing of `outputs`.
pub open spec fn listing(outputs: Seq<LocalOutputView>, network: Network) -> Seq<DustView> {
    Seq::new(outputs.len(), |i: int| listed(outputs[i], network))
}

/// Whether all the disposable dust of a wallet has addresses.
pub open spec fn all_addressable(
    outputs: Seq<LocalOutputView>,
    dust_amount: u64,
    allow_exposed: bool,
) -> bool {
    forall|i: int|
        0 <= i < outputs.len() && disposable(
            #[trigger] outputs[i],
            outputs,
            dust_amount,
            allow_exposed,
        ) ==> has_address(outputs[i].txout.script_pubkey)
}

/// Whether the address that `dust` is listed with leads to the script of `out`: it is read as
/// that script wherever it is read as an address, as every segwit address is.
pub open spec fn leads_to(dust: DustView, out: LocalOutputView, network: Network) -> bool {
    &&& witness_program(out.txout.script_pubkey) ==> address_parses(dust.address)
    &&& address_parses(dust.address) ==> address_script(dust.address, network) == Some(
        out.txout.script_pubkey,
    )
}

/// Whether `out` is not spent, worth no more than `dust_amount`, and confirmed.
pub fn is_dust(out: &LocalOutput, dust_amount: u64) -> (r: bool)
    ensures
        r == dust_output(out@, dust_amount),
        r <==> !out.is_spent && out.is_confirmed && out.txout.value <= dust_amount,
{
    !out.is_spent && out.txout.value <= dust_amount && out.is_confirmed
}

/// Whether the address with the given script holds an unspent output that is no dust.
pub fn holds_non_dust(
    script: &Vec<u8>,
    outputs: &Vec<LocalOutput>,
    dust_amount: u64,
) -> (r: bool)
    ensures
        r == guards_funds(script@, outputs_of(outputs@), dust_amount),
        r <==> exists|i: int|
            0 <= i < outputs@.len() && !(#[trigger] outputs@[i]).is_spent
                && outputs@[i].txout.value > dust_amount && outputs@[i].txout.script_pubkey@
                == script@,
{
    let ghost all = outputs_of(outputs@);
    for i in 0..outputs.len()
        invariant
            all == outputs_of(outputs@),
            forall|j: int|
                0 <= j < i ==> !(non_dust(#[trigger] all[j], dust_amount)
                    && all[j].txout.script_pubkey == script@),
    {
        assert(all[i as int] == outputs@[i as int]@);
        if !outputs[i].is_spent && outputs[i].txout.value > dust_amount && same_bytes(
            outputs[i].txout.script_pubkey.as_slice(),
            script.as_slice(),
        ) {
            assert(non_dust(all[i as int], dust_amount));
            return true;
        }
    }
    assert forall|i: int| 0 <= i < outputs@.len() implies !(!(#[trigger] outputs@[i]).is_spent
        && outputs@[i].txout.value > dust_amount && outputs@[i].txout.script_pubkey@
        == script@) by {
        assert(all[i] == outputs@[i]@);
    }
    false
}

/// Whether `out` is dust of the wallet with the given outputs that is disposed of.
pub fn is_disposable(
    out: &LocalOutput,
    outputs: &Vec<LocalOutput>,
    dust_amount: u64,
    allow_exposed: bool,
) -> (r: bool)
    ensures
        r == disposable(out@, outputs_of(outputs@), dust_amount, allow_exposed),
{
    is_dust(out, dust_amount) && (allow_exposed || !holds_non_dust(
        &out.txout.script_pubkey,
        outputs,
        dust_amount,
    ))
}

/// Whether all the disposable dust of a wallet has addresses, so that it can be listed.
pub fn is_listable(
    outputs: &Vec<LocalOutput>,
    dust_amount: u64,
    allow_exposed: bool,
) -> (r: bool)
    ensures
        r == all_addressable(outputs_of(outputs@), dust_amount, allow_exposed),
{
    let ghost all = outputs_of(outputs@);
    for i in 0..outputs.len()
        invariant
            all == outputs_of(outputs@),
            forall|j: int|
                0 <= j < i && disposable(#[trigger] all[j], all, dust_amount, allow_exposed)
                    ==> has_address(all[j].txout.script_pubkey),
    {
        assert(all[i as int] == outputs@[i as int]@);
        if is_disposable(&outputs[i], outputs, dust_amount, allow_exposed) && !is_addressable(
            &outputs[i].txout.script_pubkey,
        ) {
            return false;
        }
    }
    true
}

/// Lists the disposable dust of one wallet.
fn list_wallet(
    outputs: &Vec<LocalOutput>,
    network: Network,
    dust_amount: u64,
    allow_exposed: bool,
    found: &mut Vec<Dust>,
)
    requires
        all_addressable(outputs_of(outputs@), dust_amount, allow_exposed),
    ensures
        dust_list(final(found)@) == dust_list(old(found)@) + listing(
            disposable_dust(outputs_of(outputs@), dust_amount, allow_exposed),
            network,
        ),
        forall|i: int|
            old(found)@.len() <= i < final(found)@.len() ==> leads_to(
                (#[trigger] final(found)@[i])@,
                disposable_dust(outputs_of(outputs@), dust_amount, allow_exposed)[i
                    - old(found)@.len()],
                network,
            ),
{
    let ghost all = outputs_of(outputs@);
    let ghost pred = |out: LocalOutputView| disposable(out, all, dust_amount, allow_exposed);
    let ghost before = dust_list(found@);
    let ghost start = found@.len();
    proof {
        reveal(Seq::filter);
        assert(all.take(0) =~= Seq::<LocalOutputView>::empty());
        assert(listing(all.take(0).filter(pred), network) =~= Seq::<DustView>::empty());
        assert(dust_list(found@) =~= before + listing(all.take(0).filter(pred), network));
    }
    for i in 0..outputs.len()
        invariant
            all == outputs_of(outputs@),
            pred == |out: LocalOutputView| disposable(out, all, dust_amount, allow_exposed),
            all_addressable(all, dust_amount, allow_exposed),
            start == before.len(),
            found@.len() == dust_list(found@).len(),
            dust_list(found@) == before + listing(all.take(i as int).filter(pred), network),
            forall|j: int|
                start <= j < found@.len() ==> leads_to(
                    (#[trigger] found@[j])@,
                    all.take(i as int).filter(pred)[j - start],
                    network,
                ),
    {
        let out = &outputs[i];
        let ghost seen = all.take(i as int).filter(pred);
        let ghost list = dust_list(found@);
        proof {
            assert(all[i as int] == out@);
            lemma_filter_step(all, pred, i as int);
        }
        if is_disposable(out, outputs, dust_amount, allow_exposed) {
            let address = address_from_script(out.txout.script_pubkey.as_slice(), network);
            let value: u64 = out.txout.value;
            assert(value as u32 == value % 0x1_0000_0000) by (bit_vector);
            #[verifier::truncate]
            let value = value as u32;
            found.push(Dust { address, value, outpoint: out.outpoint });
            assert(dust_list(found@) =~= list.push(listed(out@, network)));
            assert(before + listing(seen.push(out@), network) =~= (before + listing(
                seen,
                network,
            )).push(listed(out@, network)));
        }
    }
    assert(all.take(all.len() as int) =~= all);
}

/// The disposable dust of all wallets, each given by its unspent outputs.
pub fn cmd_list(
    wallets: &Vec<Vec<LocalOutput>>,
    network: Network,
    dust_amount: u64,
    allow_exposed: bool,
) -> (r: Vec<Dust>)
    requires
        forall|w: int|
            0 <= w < wallets@.len() ==> all_addressable(
                #[trigger] wallets_of(wallets@)[w],
                dust_amount,
                allow_exposed,
            ),
    ensures
        dust_list(r@) == listing(
            dust_of_wallets(wallets_of(wallets@), dust_amount, allow_exposed),
            network,
        ),
        forall|i: int|
            0 <= i < r@.len() ==> leads_to(
                (#[trigger] r@[i])@,
                dust_of_wallets(wallets_of(wallets@), dust_amount, allow_exposed)[i],
                network,
            ),
{
    let ghost all = wallets_of(wallets@);
    let mut found_dust: Vec<Dust> = Vec::new();
    proof {
        assert(all.take(0) =~= Seq::<Seq<LocalOutputView>>::empty());
        assert(dust_list(found_dust@) =~= listing(
            dust_of_wallets(all.take(0), dust_amount, allow_exposed),
            network,
        ));
    }
    for w in 0..wallets.len()
        invariant
            all == wallets_of(wallets@),
            forall|v: int|
                0 <= v < wallets@.len() ==> all_addressable(
                    #[trigger] all[v],
                    dust_amount,
                    allow_exposed,
                ),
            found_dust@.len() == dust_list(found_dust@).len(),
            dust_list(found_dust@) == listing(
                dust_of_wallets(all.take(w as int), dust_amount, allow_exposed),
                network,
            ),
            forall|i: int|
                0 <= i < found_dust@.len() ==> leads_to(
                    (#[trigger] found_dust@[i])@,
                    dust_of_wallets(all.take(w as int), dust_amount, allow_exposed)[i],
                    network,
                ),
    {
        assert(all_addressable(all[w as int], dust_amount, allow_exposed));
        let ghost before = found_dust@;
        let ghost seen = dust_of_wallets(all.take(w as int), dust_amount, allow_exposed);
        let ghost own = disposable_dust(all[w as int], dust_amount, allow_exposed);
        list_wallet(&wallets[w], network, dust_amount, allow_exposed, &mut found_dust);
        proof {
            assert(all[w as int] == outputs_of(wallets@[w as int]@));
            assert(all.take(w + 1).drop_last() =~= all.take(w as int));
            assert(listing(seen + own, network) =~= listing(seen, network) + listing(
                own,
                network,
            ));
            assert forall|i: int| 0 <= i < found_dust@.len() implies leads_to(
                (#[trigger] found_dust@[i])@,
                (seen + own)[i],
                network,
            ) by {
                assert(dust_list(found_dust@)[i] == found_dust@[i]@);
                if i < before.len() {
                    assert(dust_list(before)[i] == before[i]@);
                }
            }
        }
    }
    assert(all.take(all.len() as int) =~= all);
    found_dust
}

/// The disposable dust of a wallet at the address with the given script.
pub fn select_dust(
    outputs: &Vec<LocalOutput>,
    script: &Vec<u8>,
    dust_amount: u64,
    allow_exposed: bool,
) -> (r: Vec<LocalOutput>)
    ensures
        outputs_of(r@) == dust_at(outputs_of(outputs@), script@, dust_amount, allow_exposed),
{
    let ghost all = outputs_of(outputs@);
    let ghost pred = |out: LocalOutputView|
        disposable(out, all, dust_amount, allow_exposed) && out.txout.script_pubkey == script@;
    let mut dust: Vec<LocalOutput> = Vec::new();
    proof {
        reveal(Seq::filter);
        assert(all.take(0) =~= Seq::<LocalOutputView>::empty());
        assert(outputs_of(dust@) =~= all.take(0).filter(pred));
    }
    for i in 0..outputs.len()
        invariant
            all == outputs_of(outputs@),
            pred == |out: LocalOutputView|
                disposable(out, all, dust_amount, allow_exposed) && out.txout.script_pubkey
                    == script@,
            outputs_of(dust@) == all.take(i as int).filter(pred),
    {
        let out = &outputs[i];
        let ghost seen = outputs_of(dust@);
        proof {
            assert(all[i as int] == out@);
            lemma_filter_step(all, pred, i as int);
        }
        if is_disposable(out, outputs, dust_amount, allow_exposed) && same_bytes(
            out.txout.script_pubkey.as_slice(),
            script.as_slice(),
        ) {
            dust.push(out.clone());
            assert(outputs_of(dust@) =~= seen.push(out@));
        }
    }
    assert(all.take(all.len() as int) =~= all);
    dust
}

/// The dust selected at an address is exactly the disposable dust of the wallet there. So
/// all of it is confirmed, unspent, within the threshold and locked by one script, and none
/// that is so is left behind.
pub proof fn lemma_selected_dust(
    outputs: Seq<LocalOutputView>,
    script: Seq<u8>,
    dust_amount: u64,
    allow_exposed: bool,
    out: LocalOutputView,
)
    ensures
        dust_at(outputs, script, dust_amount, allow_exposed).contains(out) <==> {
            &&& outputs.contains(out)
            &&& out.txout.script_pubkey == script
            &&& !out.is_spent
            &&& out.is_confirmed
            &&& out.txout.value <= dust_amount
            &&& allow_exposed || !guards_funds(script, outputs, dust_amount)
        },
{
    let pred = |o: LocalOutputView|
        disposable(o, outputs, dust_amount, allow_exposed) && o.txout.script_pubkey == script;
    lemma_filter_contains(outputs, pred, out);
}

/// Unless exposure is allowed, nothing is selected at an address that guards funds.
pub proof fn lemma_exposed_skipped(
    outputs: Seq<LocalOutputView>,
    script: Seq<u8>,
    dust_amount: u64,
)
    requires
        guards_funds(script, outputs, dust_amount),
    ensures
        dust_at(outputs, script, dust_amount, false).len() == 0,
        forall|out: LocalOutputView|
            #[trigger] disposable_dust(outputs, dust_amount, false).contains(out)
                ==> out.txout.script_pubkey != script,
{
    let chosen = dust_at(outputs, script, dust_amount, false);
    if chosen.len() > 0 {
        assert(chosen.contains(chosen[0]));
        lemma_selected_dust(outputs, script, dust_amount, false, chosen[0]);
    }
    assert forall|out: LocalOutputView| #[trigger]
        disposable_dust(outputs, dust_amount, false).contains(
        out,
    ) implies out.txout.script_pubkey != script by {
        let pred = |o: LocalOutputView| disposable(o, outputs, dust_amount, false);
        lemma_filter_contains(outputs, pred, out);
    }
}

/// Allowing exposure only adds dust.
pub proof fn lemma_allowing_adds(
    outputs: Seq<LocalOutputView>,
    dust_amount: u64,
    out: LocalOutputView,
)
    requires
        disposable_dust(outputs, dust_amount, false).contains(out),
    ensures
        disposable_dust(outputs, dust_amount, true).contains(out),
{
    lemma_filter_contains(
        outputs,
        |o: LocalOutputView| disposable(o, outputs, dust_amount, false),
        out,
    );
    lemma_filter_contains(
        outputs,
        |o: LocalOutputView| disposable(o, outputs, dust_amount, true),
        out,
    );
}

/// Dust that is listed is selected at its script.
pub proof fn lemma_listed_is_selected(
    outputs: Seq<LocalOutputView>,
    dust_amount: u64,
    allow_exposed: bool,
    out: LocalOutputView,
)
    requires
        disposable_dust(outputs, dust_amount, allow_exposed).contains(out),
    ensures
        dust_at(outputs, out.txout.script_pubkey, dust_amount, allow_exposed).contains(out),
{
    lemma_filter_contains(
        outputs,
        |o: LocalOutputView| disposable(o, outputs, dust_amount, allow_exposed),
        out,
    );
    lemma_selected_dust(outputs, out.txout.script_pubkey, dust_amount, allow_exposed, out);
}

/// What all wallets list is dust of one of them: unspent, confirmed and within the
/// threshold. With a threshold of 32 bits its value is listed as it is.
pub proof fn lemma_listed_dust(
    wallets: Seq<Seq<LocalOutputView>>,
    network: Network,
    dust_amount: u64,
    allow_exposed: bool,
    i: int,
)
    requires
        0 <= i < dust_of_wallets(wallets, dust_amount, allow_exposed).len(),
    ensures
        ({
            let out = dust_of_wallets(wallets, dust_amount, allow_exposed)[i];
            &&& dust_output(out, dust_amount)
            &&& exists|w: int|
                0 <= w < wallets.len() && (#[trigger] wallets[w]).contains(out) && disposable(
                    out,
                    wallets[w],
                    dust_amount,
                    allow_exposed,
                )
            &&& dust_amount <= u32::MAX ==> listed(out, network).value == out.txout.value
        }),
    decreases wallets.len(),
{
    let rest = wallets.drop_last();
    let own = wallets.last();
    let before = dust_of_wallets(rest, dust_amount, allow_exposed);
    let out = dust_of_wallets(wallets, dust_amount, allow_exposed)[i];
    if i < before.len() {
        lemma_listed_dust(rest, network, dust_amount, allow_exposed, i);
        let w = choose|w: int|
            0 <= w < rest.len() && (#[trigger] rest[w]).contains(out) && disposable(
                out,
                rest[w],
                dust_amount,
                allow_exposed,
            );
        assert(wallets[w] == rest[w]);
    } else {
        let kept = disposable_dust(own, dust_amount, allow_exposed);
        assert(kept[i - before.len()] == out);
        assert(kept.contains(out));
        lemma_filter_contains(
            own,
            |o: LocalOutputView| disposable(o, own, dust_amount, allow_exposed),
            out,
        );
        assert(wallets[wallets.len() - 1] == own);
    }
}

/// What a [`LocalOutput`] and a [`Dust`] hold is what their fields hold.
pub proof fn lemma_output_fields(out: LocalOutput, dust: Dust)
    ensures
        out@.outpoint == out.outpoint,
        out@.txout.value == out.txout.value,
        out@.txout.script_pubkey == out.txout.script_pubkey@,
        out@.is_spent == out.is_spent,
        out@.is_confirmed == out.is_confirmed,
        out@.satisfaction_weight == out.satisfaction_weight,
        dust@.address == dust.address@,
        dust@.value == dust.value,
        dust@.outpoint == dust.outpoint,
{
}

/// The contents of lists are those of their elements, each at its place.
pub proof fn lemma_output_lists(
    outputs: Seq<LocalOutput>,
    list: Seq<Dust>,
    wallets: Seq<Vec<LocalOutput>>,
)
    ensures
        outputs_of(outputs).len() == outputs.len(),
        forall|i: int| 0 <= i < outputs.len() ==> #[trigger] outputs_of(outputs)[i] == outputs[i]@,
        dust_list(list).len() == list.len(),
        forall|i: int| 0 <= i < list.len() ==> #[trigger] dust_list(list)[i] == list[i]@,
        wallets_of(wallets).len() == wallets.len(),
        forall|w: int|
            0 <= w < wallets.len() ==> (#[trigger] wallets_of(wallets)[w]).len()
                == wallets[w]@.len(),
        forall|w: int, i: int|
            0 <= w < wallets.len() && 0 <= i < wallets[w]@.len() ==> (
            #[trigger] wallets_of(wallets)[w][i]) == wallets[w]@[i]@,
{
}

/// The value of outputs is the sum of the values of all of them.
pub proof fn lemma_value_is_sum(outputs: Seq<LocalOutputView>)
    ensures
        total_value(outputs) == outputs.fold_left(
            0int,
            |sum: int, out: LocalOutputView| sum + out.txout.value,
        ),
    decreases outputs.len(),
{
    if outputs.len() > 0 {
        lemma_value_is_sum(outputs.drop_last());
    }
}

/// Two parts of a wallet are worth what they are worth together.
pub proof fn lemma_values_add(first: Seq<LocalOutputView>, second: Seq<LocalOutputView>)
    ensures
        total_value(first + second) == total_value(first) + total_value(second),
    decreases second.len(),
{
    if second.len() == 0 {
        assert(first + second =~= first);
    } else {
        lemma_values_add(first, second.drop_last());
        assert((first + second).drop_last() =~= first + second.drop_last());
    }
}

/// Dust is what is unspent, confirmed and worth the threshold or less: what is worth just the
/// threshold is dust, and what is worth one satoshi more is not.
pub proof fn lemma_dust_is(out: LocalOutputView, dust_amount: u64)
    ensures
        dust_output(out, dust_amount) <==> {
            &&& out.is_spent == false
            &&& out.is_confirmed == true
            &&& out.txout.value < dust_amount + 1
        },
{
}

/// One output of a wallet at whatever place, unspent and worth more than the threshold, keeps all
/// dust of its address from being disposed of: none of it is selected, and none is listed.
pub proof fn lemma_fund_keeps_dust(
    outputs: Seq<LocalOutputView>,
    fund: LocalOutputView,
    dust_amount: u64,
)
    requires
        outputs.contains(fund),
        !fund.is_spent,
        fund.txout.value > dust_amount,
    ensures
        guards_funds(fund.txout.script_pubkey, outputs, dust_amount),
        dust_at(outputs, fund.txout.script_pubkey, dust_amount, false).len() == 0,
        forall|out: LocalOutputView| #[trigger]
            disposable(out, outputs, dust_amount, false) ==> out.txout.script_pubkey
                != fund.txout.script_pubkey,
        forall|k: int|
            0 <= k < disposable_dust(outputs, dust_amount, false).len() ==> (
            #[trigger] disposable_dust(outputs, dust_amount, false)[k]).txout.script_pubkey
                != fund.txout.script_pubkey,
{
    let i = choose|i: int| 0 <= i < outputs.len() && outputs[i] == fund;
    assert(non_dust(outputs[i], dust_amount));
    let script = fund.txout.script_pubkey;
    lemma_exposed_skipped(outputs, script, dust_amount);
    let kept = disposable_dust(outputs, dust_amount, false);
    assert forall|k: int| 0 <= k < kept.len() implies (#[trigger] kept[k]).txout.script_pubkey
        != script by {
        assert(kept.contains(kept[k]));
    }
}

/// Whether an output of `outputs` that is unspent and worth more than `dust_amount` is locked by
/// `script`, and none other, tells whether the address guards funds.
pub proof fn lemma_funds_are(script: Seq<u8>, outputs: Seq<LocalOutputView>, dust_amount: u64)
    ensures
        guards_funds(script, outputs, dust_amount) <==> exists|fund: LocalOutputView|
            #[trigger] outputs.contains(fund) && !fund.is_spent && fund.txout.value > dust_amount
                && fund.txout.script_pubkey == script,
{
    if guards_funds(script, outputs, dust_amount) {
        let i = choose|i: int|
            0 <= i < outputs.len() && non_dust(#[trigger] outputs[i], dust_amount)
                && outputs[i].txout.script_pubkey == script;
        assert(outputs.contains(outputs[i]));
    }
    if exists|fund: LocalOutputView|
        #[trigger] outputs.contains(fund) && !fund.is_spent && fund.txout.value > dust_amount
            && fund.txout.script_pubkey == script {
        let fund = choose|fund: LocalOutputView|
            #[trigger] outputs.contains(fund) && !fund.is_spent && fund.txout.value > dust_amount
                && fund.txout.script_pubkey == script;
        lemma_fund_keeps_dust(outputs, fund, dust_amount);
    }
}

/// At an address that holds nothing above the threshold, or where exposure is allowed, all
/// unspent confirmed outputs within the threshold are selected, in the order of the wallet and
/// each as often as it is there.
pub proof fn lemma_dust_selected(
    outputs: Seq<LocalOutputView>,
    script: Seq<u8>,
    dust_amount: u64,
    allow_exposed: bool,
)
    requires
        allow_exposed || forall|i: int|
            0 <= i < outputs.len() && (#[trigger] outputs[i]).txout.script_pubkey == script
                && !outputs[i].is_spent ==> outputs[i].txout.value <= dust_amount,
    ensures
        dust_at(outputs, script, dust_amount, allow_exposed) == outputs.filter(
            |out: LocalOutputView|
                out.txout.script_pubkey == script && !out.is_spent && out.is_confirmed
                    && out.txout.value <= dust_amount,
        ),
{
    let guarded = guards_funds(script, outputs, dust_amount);
    let pred = |out: LocalOutputView|
        disposable(out, outputs, dust_amount, allow_exposed) && out.txout.script_pubkey == script;
    let plain = |out: LocalOutputView|
        out.txout.script_pubkey == script && !out.is_spent && out.is_confirmed && out.txout.value
            <= dust_amount;
    assert(allow_exposed || !guarded);
    assert(pred =~= plain);
}

/// An output of a wallet is disposed of exactly where it is unspent, confirmed and within the
/// threshold, and, unless exposure is allowed, no unspent output of the wallet above the threshold
/// has its script.
pub proof fn lemma_disposable_is(
    out: LocalOutputView,
    outputs: Seq<LocalOutputView>,
    dust_amount: u64,
    allow_exposed: bool,
)
    ensures
        disposable(out, outputs, dust_amount, allow_exposed) <==> {
            &&& !out.is_spent
            &&& out.is_confirmed
            &&& out.txout.value <= dust_amount
            &&& allow_exposed || forall|i: int|
                0 <= i < outputs.len() && (#[trigger] outputs[i]).txout.value > dust_amount
                    && !outputs[i].is_spent ==> outputs[i].txout.script_pubkey
                    != out.txout.script_pubkey
        },
{
}

/// A wallet can be listed exactly where every output that is to be listed has an address.
pub proof fn lemma_listable_is(
    outputs: Seq<LocalOutputView>,
    dust_amount: u64,
    allow_exposed: bool,
)
    ensures
        all_addressable(outputs, dust_amount, allow_exposed) <==> forall|k: int|
            0 <= k < outputs.len() && !(#[trigger] outputs[k]).is_spent && outputs[k].is_confirmed
                && outputs[k].txout.value <= dust_amount && (allow_exposed || forall|i: int|
                0 <= i < outputs.len() && (#[trigger] outputs[i]).txout.value > dust_amount
                    && !outputs[i].is_spent ==> outputs[i].txout.script_pubkey
                    != outputs[k].txout.script_pubkey) ==> has_address(
                outputs[k].txout.script_pubkey,
            ),
{
}

/// What is listed of one wallet: with its address, the low 32 bits of its value and where it
/// stands, each output that is unspent, confirmed and within the threshold, unless an unspent
/// output above the threshold has its script and exposure is not allowed; in the order of the
/// wallet, and nothing else.
pub proof fn lemma_list_of_wallet(
    outputs: Seq<LocalOutputView>,
    network: Network,
    dust_amount: u64,
    allow_exposed: bool,
)
    ensures
        listing(dust_of_wallets(seq![outputs], dust_amount, allow_exposed), network)
            == outputs.filter(
            |out: LocalOutputView|
                !out.is_spent && out.is_confirmed && out.txout.value <= dust_amount && (
                allow_exposed || !exists|i: int|
                    0 <= i < outputs.len() && (#[trigger] outputs[i]).txout.script_pubkey
                        == out.txout.script_pubkey && outputs[i].txout.value > dust_amount
                        && !outputs[i].is_spent),
        ).map_values(
            |out: LocalOutputView|
                DustView {
                    address: address_text(out.txout.script_pubkey, network),
                    value: (out.txout.value % 0x1_0000_0000) as u32,
                    outpoint: out.outpoint,
                },
        ),
{
    let one = seq![outputs];
    assert(one.drop_last() =~= Seq::<Seq<LocalOutputView>>::empty());
    assert(dust_of_wallets(one.drop_last(), dust_amount, allow_exposed) =~= Seq::<
        LocalOutputView,
    >::empty());
    let own = disposable_dust(outputs, dust_amount, allow_exposed);
    assert(Seq::<LocalOutputView>::empty() + own =~= own);
    assert(one.last() == outputs);
    assert(dust_of_wallets(one, dust_amount, allow_exposed) == own);
    let pred = |out: LocalOutputView| disposable(out, outputs, dust_amount, allow_exposed);
    let plain = |out: LocalOutputView|
        !out.is_spent && out.is_confirmed && out.txout.value <= dust_amount && (allow_exposed
            || !exists|i: int|
            0 <= i < outputs.len() && (#[trigger] outputs[i]).txout.script_pubkey
                == out.txout.script_pubkey && outputs[i].txout.value > dust_amount
                && !outputs[i].is_spent);
    assert forall|out: LocalOutputView| #[trigger] pred(out) == plain(out) by {
        if guards_funds(out.txout.script_pubkey, outputs, dust_amount) {
            let i = choose|i: int|
                0 <= i < outputs.len() && non_dust(#[trigger] outputs[i], dust_amount)
                    && outputs[i].txout.script_pubkey == out.txout.script_pubkey;
            assert(outputs[i].txout.value > dust_amount);
        }
    }
    assert(pred =~= plain);
}

/// Several wallets are listed one behind the other, none of them at the cost of another.
pub proof fn lemma_lists_join(
    first: Seq<Seq<LocalOutputView>>,
    second: Seq<Seq<LocalOutputView>>,
    network: Network,
    dust_amount: u64,
    allow_exposed: bool,
)
    ensures
        dust_of_wallets(first + second, dust_amount, allow_exposed) == dust_of_wallets(
            first,
            dust_amount,
            allow_exposed,
        ) + dust_of_wallets(second, dust_amount, allow_exposed),
        listing(dust_of_wallets(first + second, dust_amount, allow_exposed), network) == listing(
            dust_of_wallets(first, dust_amount, allow_exposed),
            network,
        ) + listing(dust_of_wallets(second, dust_amount, allow_exposed), network),
        listing(
            dust_of_wallets(Seq::empty(), dust_amount, allow_exposed),
            network,
        ).len() == 0,
    decreases second.len(),
{
    let of = |wallets: Seq<Seq<LocalOutputView>>|
        dust_of_wallets(wallets, dust_amount, allow_exposed);
    if second.len() == 0 {
        assert(first + second =~= first);
        assert(of(first) + of(second) =~= of(first));
    } else {
        lemma_lists_join(first, second.drop_last(), network, dust_amount, allow_exposed);
        assert((first + second).drop_last() =~= first + second.drop_last());
        let last = disposable_dust(second.last(), dust_amount, allow_exposed);
        assert(of(first) + (of(second.drop_last()) + last) =~= (of(first) + of(
            second.drop_last(),
        )) + last);
    }
    assert(listing(of(first) + of(second), network) =~= listing(of(first), network) + listing(
        of(second),
        network,
    ));
}

/// Whatever is dust in any wallet is listed: an output that is unspent, confirmed and worth no
/// more than the threshold is there with where it stands, its address and its value, unless an
/// unspent output of the same wallet above the threshold has its script and exposure is not
/// allowed.
pub proof fn lemma_list_complete(
    wallets: Seq<Seq<LocalOutputView>>,
    network: Network,
    dust_amount: u64,
    allow_exposed: bool,
    w: int,
    i: int,
)
    requires
        0 <= w < wallets.len(),
        0 <= i < wallets[w].len(),
        !wallets[w][i].is_spent,
        wallets[w][i].is_confirmed,
        wallets[w][i].txout.value <= dust_amount,
        allow_exposed || forall|j: int|
            0 <= j < wallets[w].len() && (#[trigger] wallets[w][j]).txout.script_pubkey
                == wallets[w][i].txout.script_pubkey ==> wallets[w][j].is_spent
                || wallets[w][j].txout.value <= dust_amount,
    ensures
        ({
            let out = wallets[w][i];
            let list = listing(dust_of_wallets(wallets, dust_amount, allow_exposed), network);
            exists|k: int|
                0 <= k < list.len() && (#[trigger] list[k]).outpoint == out.outpoint
                    && list[k].address == address_text(out.txout.script_pubkey, network) && (
                out.txout.value <= u32::MAX ==> list[k].value == out.txout.value)
        }),
    decreases wallets.len(),
{
    let rest = wallets.drop_last();
    let before = dust_of_wallets(rest, dust_amount, allow_exposed);
    let all = dust_of_wallets(wallets, dust_amount, allow_exposed);
    let list = listing(all, network);
    if w < wallets.len() - 1 {
        assert(rest[w] == wallets[w]);
        lemma_list_complete(rest, network, dust_amount, allow_exposed, w, i);
        let earlier = listing(before, network);
        let out = wallets[w][i];
        let k = choose|k: int|
            0 <= k < earlier.len() && (#[trigger] earlier[k]).outpoint == out.outpoint
                && earlier[k].address == address_text(out.txout.script_pubkey, network) && (
            out.txout.value <= u32::MAX ==> earlier[k].value == out.txout.value);
        assert(all[k] == before[k]);
        assert(list[k] == earlier[k]);
    } else {
        let own = wallets[w];
        let out = own[i];
        assert(own.contains(out));
        lemma_disposable_is(out, own, dust_amount, allow_exposed);
        let kept = disposable_dust(own, dust_amount, allow_exposed);
        lemma_filter_contains(
            own,
            |o: LocalOutputView| disposable(o, own, dust_amount, allow_exposed),
            out,
        );
        let j = choose|j: int| 0 <= j < kept.len() && kept[j] == out;
        let k = before.len() + j;
        assert(all[k] == out);
        assert(list[k].outpoint == out.outpoint);
    }
}

/// Nothing but dust is listed: behind each entry stands an output of one of the wallets that is
/// unspent, confirmed and worth no more than the threshold, and, unless exposure is allowed, has
/// a script that no unspent output of that wallet above the threshold has.
pub proof fn lemma_list_sound(
    wallets: Seq<Seq<LocalOutputView>>,
    network: Network,
    dust_amount: u64,
    allow_exposed: bool,
    k: int,
)
    requires
        0 <= k < listing(
            dust_of_wallets(wallets, dust_amount, allow_exposed),
            network,
        ).len(),
    ensures
        ({
            let list = listing(dust_of_wallets(wallets, dust_amount, allow_exposed), network);
            let entry = list[k];
            exists|w: int, i: int|
                0 <= w < wallets.len() && 0 <= i < wallets[w].len() && entry.outpoint == (
                #[trigger] wallets[w][i]).outpoint && entry.address == address_text(
                    wallets[w][i].txout.script_pubkey,
                    network,
                ) && entry.value == wallets[w][i].txout.value % 0x1_0000_0000
                    && !wallets[w][i].is_spent && wallets[w][i].is_confirmed
                    && wallets[w][i].txout.value <= dust_amount && (allow_exposed || forall|
                    fund: LocalOutputView,
                | #[trigger]
                    wallets[w].contains(fund) && !fund.is_spent && fund.txout.script_pubkey
                        == wallets[w][i].txout.script_pubkey ==> fund.txout.value <= dust_amount)
        }),
{
    let out = dust_of_wallets(wallets, dust_amount, allow_exposed)[k];
    lemma_listed_dust(wallets, network, dust_amount, allow_exposed, k);
    let w = choose|w: int|
        0 <= w < wallets.len() && (#[trigger] wallets[w]).contains(out) && disposable(
            out,
            wallets[w],
            dust_amount,
            allow_exposed,
        );
    let i = choose|i: int| 0 <= i < wallets[w].len() && wallets[w][i] == out;
    assert(wallets[w][i] == out);
    if !allow_exposed {
        assert forall|fund: LocalOutputView| #[trigger]
            wallets[w].contains(fund) && !fund.is_spent && fund.txout.script_pubkey
                == out.txout.script_pubkey implies fund.txout.value <= dust_amount by {
            if fund.txout.value > dust_amount {
                lemma_fund_keeps_dust(wallets[w], fund, dust_amount);
            }
        }
    }
}

/// What is selected at an address: outputs of the wallet with its script that are unspent,
/// confirmed and worth no more than the threshold, and none at all where an unspent output above
/// it has that script and exposure is not allowed.
pub proof fn lemma_selection_sound(
    outputs: Seq<LocalOutputView>,
    script: Seq<u8>,
    dust_amount: u64,
    allow_exposed: bool,
    k: int,
)
    requires
        0 <= k < dust_at(outputs, script, dust_amount, allow_exposed).len(),
    ensures
        ({
            let out = dust_at(outputs, script, dust_amount, allow_exposed)[k];
            &&& outputs.contains(out)
            &&& out.txout.script_pubkey == script
            &&& !out.is_spent
            &&& out.is_confirmed
            &&& out.txout.value <= dust_amount
            &&& allow_exposed || forall|fund: LocalOutputView| #[trigger]
                outputs.contains(fund) && !fund.is_spent && fund.txout.script_pubkey == script
                    ==> fund.txout.value <= dust_amount
        }),
{
    let chosen = dust_at(outputs, script, dust_amount, allow_exposed);
    assert(chosen.contains(chosen[k]));
    lemma_selected_dust(outputs, script, dust_amount, allow_exposed, chosen[k]);
    if !allow_exposed {
        assert forall|fund: LocalOutputView| #[trigger]
            outputs.contains(fund) && !fund.is_spent && fund.txout.script_pubkey
                == script implies fund.txout.value <= dust_amount by {
            if fund.txout.value > dust_amount {
                lemma_fund_keeps_dust(outputs, fund, dust_amount);
            }
        }
    }
}

/// The same dust is listed and spent: what is listed of a wallet with a script is what is
/// selected at that script.
pub proof fn lemma_list_is_selection(
    outputs: Seq<LocalOutputView>,
    dust_amount: u64,
    allow_exposed: bool,
    out: LocalOutputView,
)
    ensures
        disposable_dust(outputs, dust_amount, allow_exposed).contains(out) <==> dust_at(
            outputs,
            out.txout.script_pubkey,
            dust_amount,
            allow_exposed,
        ).contains(out),
{
    lemma_filter_contains(
        outputs,
        |o: LocalOutputView| disposable(o, outputs, dust_amount, allow_exposed),
        out,
    );
    lemma_selected_dust(outputs, out.txout.script_pubkey, dust_amount, allow_exposed, out);
}

/// An address that dust is listed with leads to its script wherever it reads as an address, and a
/// segwit address always does.
pub proof fn lemma_leads_to_is(dust: DustView, out: LocalOutputView, network: Network)
    ensures
        leads_to(dust, out, network) <==> {
            &&& address_parses(dust.address) || !witness_program(out.txout.script_pubkey)
            &&& !address_parses(dust.address) || address_script(dust.address, network) == Some(
                out.txout.script_pubkey,
            )
        },
{
}

} // verus!
