//! Choosing the unconfirmed disposal transactions that one replacement can merge.
//!
//! The replacement spends the new dust and all inputs of the merged transactions, and pays
//! all of it as fee. It has to be accepted in place of what it replaces: it pays for its own
//! bandwidth with the new dust, its fee rate exceeds that of every merged transaction, and it
//! evicts no more transactions than a node allows.
use crate::calc::{spends_as, type_base_size, type_witness_size, InputType, P2SHInner};
use crate::disposal::{empty_burn_script, taproot_signed};
use crate::dust::{
    checked_sum_values, lemma_value_is_sum, outputs_of, sum_values, total_value, LocalOutput,
    LocalOutputView,
};
use crate::script::{
    is_p2pkh, is_p2sh, is_p2tr, is_p2wpkh, is_p2wsh, p2pkh, p2sh, p2tr, p2wpkh, p2wsh,
};
use crate::size::{
    get_input_vsize, input_weight, inputs_weight, is_weighable, items_size, weighable, VirtualSize,
};
use crate::tx::{contents, same_bytes, Transaction, TransactionView, TxInView};
use vstd::prelude::*;

verus! {

/// The most transactions that one replacement may evict from a mempool.
pub const MAX_REPLACED: usize = 100;

/// What a node says of an unconfirmed transaction.
#[derive(Clone, Copy, PartialEq, Eq, Structural, Debug)]
pub struct MempoolEntry {
    /// The fee it pays, in satoshis.
    pub fee: u64,
    /// Its virtual size, in whole virtual bytes.
    pub vsize: u64,
}

/// The output kinds whose spending size can be estimated.
pub open spec fn supported(script: Seq<u8>) -> bool {
    p2tr(script) || p2wpkh(script) || p2wsh(script) || p2pkh(script) || p2sh(script)
}

/// Whether the size of an input that spends an output locked by `script` can be estimated.
pub fn is_supported(script: &Vec<u8>) -> (r: bool)
    ensures
        r == supported(script@),
{
    let script = script.as_slice();
    is_p2tr(script) || is_p2wpkh(script) || is_p2wsh(script) || is_p2pkh(script) || is_p2sh(script)
}

/// The estimated size of an input that spends `script`, in quarters of a virtual byte.
pub open spec fn estimated_size(script: Seq<u8>) -> nat {
    if p2tr(script) {
        // 57.75 virtual bytes
        231
    } else if p2wpkh(script) {
        // 68 virtual bytes
        272
    } else if p2wsh(script) {
        // 105 virtual bytes: a 2-of-3 multisig
        420
    } else if p2pkh(script) {
        // 148 virtual bytes
        592
    } else {
        // 297 virtual bytes: a bare 2-of-3 multisig, the largest that it may wrap
        1188
    }
}

/// The estimated virtual size of an input that spends an output locked by `script_pubkey`.
pub fn estimate_input_vsize(script_pubkey: &Vec<u8>) -> (r: VirtualSize)
    requires
        supported(script_pubkey@),
    ensures
        r.quarters == estimated_size(script_pubkey@),
{
    let script = script_pubkey.as_slice();
    if is_p2tr(script) {
        VirtualSize { quarters: 231 }
    } else if is_p2wpkh(script) {
        VirtualSize { quarters: 272 }
    } else if is_p2wsh(script) {
        VirtualSize { quarters: 420 }
    } else if is_p2pkh(script) {
        VirtualSize { quarters: 592 }
    } else {
        VirtualSize { quarters: 1188 }
    }
}

/// The estimated size of inputs that spend `outputs`.
pub open spec fn estimated_sizes(outputs: Seq<LocalOutputView>) -> nat
    decreases outputs.len(),
{
    if outputs.len() == 0 {
        0
    } else {
        estimated_sizes(outputs.drop_last()) + estimated_size(outputs.last().txout.script_pubkey)
    }
}

/// The estimated size of a transaction that spends `dust` to the burn output `burn`:
/// 10.5 virtual bytes of overhead, the inputs, and an output of 11 or 14 bytes.
pub open spec fn own_size(dust: Seq<LocalOutputView>, burn: Seq<u8>) -> nat {
    42 + estimated_sizes(dust) + (if burn == empty_burn_script() {
        44nat
    } else {
        56
    })
}

/// The sum of `f` over the numbers below `n`.
pub open spec fn sum_below(f: spec_fn(int) -> nat, n: nat) -> nat
    decreases n,
{
    if n == 0 {
        0
    } else {
        sum_below(f, (n - 1) as nat) + f(n - 1)
    }
}

/// The sum of `f` over the elements of `order`.
pub open spec fn sum_over(f: spec_fn(int) -> nat, order: Seq<int>) -> nat
    decreases order.len(),
{
    if order.len() == 0 {
        0
    } else {
        sum_over(f, order.drop_last()) + f(order.last())
    }
}

/// The fee of each entry.
pub open spec fn fee_of(entries: Seq<MempoolEntry>) -> spec_fn(int) -> nat {
    |i: int| entries[i].fee as nat
}

/// The size of the inputs of each transaction.
pub open spec fn weight_of(txs: Seq<TransactionView>) -> spec_fn(int) -> nat {
    |i: int| inputs_weight(txs[i].input)
}

/// Whether the fee rate of `a` is below that of `b`: `a.fee / a.vsize < b.fee / b.vsize`.
pub open spec fn rate_below(a: MempoolEntry, b: MempoolEntry) -> bool {
    a.fee * b.vsize < b.fee * a.vsize
}

/// Whether entry `i` comes before entry `j`: by fee rate, then as they stand in the mempool.
pub open spec fn precedes(entries: Seq<MempoolEntry>, i: int, j: int) -> bool {
    rate_below(entries[i], entries[j]) || (!rate_below(entries[j], entries[i]) && i < j)
}

/// Whether `order` lists all entries by ascending fee rate, those of one rate as they stand
/// in the mempool.
pub open spec fn is_rate_order(entries: Seq<MempoolEntry>, order: Seq<int>) -> bool {
    &&& order.len() == entries.len()
    &&& forall|k: int| 0 <= k < order.len() ==> 0 <= #[trigger] order[k] < entries.len()
    &&& forall|i: int| 0 <= i < entries.len() ==> #[trigger] order.contains(i)
    &&& forall|k: int, l: int|
        0 <= k < l < order.len() ==> precedes(entries, #[trigger] order[k], #[trigger] order[l])
}

/// The entries by ascending fee rate.
pub open spec fn rate_order(entries: Seq<MempoolEntry>) -> Seq<int> {
    choose|order: Seq<int>| is_rate_order(entries, order)
}

/// The fee of a replacement that spends dust worth `dust_sats` and merges `order`.
pub open spec fn merged_fee(dust_sats: nat, entries: Seq<MempoolEntry>, order: Seq<int>) -> nat {
    dust_sats + sum_over(fee_of(entries), order)
}

/// The size of a replacement that is of size `own` by itself and merges `order`, in quarters
/// of a virtual byte.
pub open spec fn merged_size(own: nat, txs: Seq<TransactionView>, order: Seq<int>) -> nat {
    own + sum_over(weight_of(txs), order)
}

/// Whether a replacement of size `size` pays for its bandwidth, at 0.1 satoshi a virtual
/// byte, with dust worth `dust_sats`.
pub open spec fn pays_bandwidth(dust_sats: nat, size: nat) -> bool {
    40 * dust_sats >= size
}

/// Whether the fee rate of a replacement exceeds that of `entry`.
pub open spec fn outbids(fee: nat, size: nat, entry: MempoolEntry) -> bool {
    4 * fee * entry.vsize > entry.fee * size
}

/// Whether a replacement that merges the first `k` transactions of `order` may merge the
/// next one too.
pub open spec fn may_merge(
    dust_sats: nat,
    own: nat,
    txs: Seq<TransactionView>,
    entries: Seq<MempoolEntry>,
    order: Seq<int>,
    k: int,
) -> bool {
    let fee = merged_fee(dust_sats, entries, order.take(k + 1));
    let size = merged_size(own, txs, order.take(k + 1));
    pays_bandwidth(dust_sats, size) && outbids(fee, size, entries[order[k]])
}

/// Whether `batch` is what a replacement that spends `dust` merges of `txs`: by ascending
/// fee rate, as many as may be merged up to the first that may not, and no more than a
/// replacement may evict.
pub open spec fn is_batch(
    batch: Seq<TransactionView>,
    dust: Seq<LocalOutputView>,
    txs: Seq<TransactionView>,
    entries: Seq<MempoolEntry>,
) -> bool {
    let order = rate_order(entries);
    let dust_sats = total_value(dust);
    let own = own_size(dust, txs[0].output[0].script_pubkey);
    let n = batch.len() as int;
    &&& n <= txs.len()
    &&& n <= MAX_REPLACED
    &&& forall|k: int| 0 <= k < n ==> #[trigger] batch[k] == txs[order[k]]
    &&& forall|k: int|
        0 <= k < n ==> #[trigger] may_merge(dust_sats, own, txs, entries, order, k)
    &&& n == txs.len() || n == MAX_REPLACED || !may_merge(dust_sats, own, txs, entries, order, n)
}

/// What a replacement that spends `dust` merges of `txs`.
pub open spec fn batch_of(
    dust: Seq<LocalOutputView>,
    txs: Seq<TransactionView>,
    entries: Seq<MempoolEntry>,
) -> Seq<TransactionView> {
    if dust.len() == 0 || txs.len() == 0 {
        Seq::empty()
    } else {
        choose|batch: Seq<TransactionView>| is_batch(batch, dust, txs, entries)
    }
}

/// Whether a fee rate can be told from `entry`.
pub open spec fn has_rate(entry: MempoolEntry) -> bool {
    entry.fee > 0 || entry.vsize > 0
}

/// Whether all of `dust` is of kinds whose spending size can be estimated.
pub open spec fn all_supported(dust: Seq<LocalOutputView>) -> bool {
    forall|i: int| 0 <= i < dust.len() ==> supported((#[trigger] dust[i]).txout.script_pubkey)
}

/// What merging takes: an entry with a fee rate for each transaction, the burn output of the
/// first, dust of known kinds, and sums that are machine integers.
pub open spec fn batch_input(
    entries: Seq<MempoolEntry>,
    dust: Seq<LocalOutputView>,
    txs: Seq<TransactionView>,
) -> bool {
    &&& entries.len() == txs.len()
    &&& txs[0].output.len() > 0
    &&& forall|i: int| 0 <= i < entries.len() ==> has_rate(#[trigger] entries[i])
    &&& all_supported(dust)
    &&& forall|i: int, j: int|
        0 <= i < txs.len() && 0 <= j < txs[i].input.len() ==> weighable(#[trigger] txs[i].input[j])
    &&& total_value(dust) + sum_below(fee_of(entries), entries.len()) <= u64::MAX
    &&& own_size(dust, txs[0].output[0].script_pubkey) + sum_below(weight_of(txs), txs.len())
        <= u64::MAX
}

/// Not being below is transitive.
proof fn lemma_rate_transitive(a: MempoolEntry, b: MempoolEntry, c: MempoolEntry)
    requires
        has_rate(b),
        !rate_below(b, a),
        !rate_below(c, b),
    ensures
        !rate_below(c, a),
{
    let (fa, va) = (a.fee as int, a.vsize as int);
    let (fb, vb) = (b.fee as int, b.vsize as int);
    let (fc, vc) = (c.fee as int, c.vsize as int);
    assert(fa * vc <= fc * va) by (nonlinear_arith)
        requires
            fa >= 0,
            va >= 0,
            fb >= 0,
            vb >= 0,
            fc >= 0,
            vc >= 0,
            fb > 0 || vb > 0,
            fa * vb <= fb * va,
            fb * vc <= fc * vb,
    {
        if vb > 0 {
            assert((fa * vc) * vb == (fa * vb) * vc);
            assert((fa * vb) * vc <= (fb * va) * vc);
            assert((fb * va) * vc == (fb * vc) * va);
            assert((fb * vc) * va <= (fc * vb) * va);
            assert((fc * vb) * va == (fc * va) * vb);
            assert((fa * vc) * vb <= (fc * va) * vb);
            assert(fa * vc <= fc * va);
        } else {
            assert(fb * vc <= 0);
            assert(vc == 0);
            assert(fa * vc == 0);
            assert(fc * va >= 0);
        }
    }
}

/// There is only one order by ascending fee rate.
pub proof fn lemma_rate_order_unique(
    entries: Seq<MempoolEntry>,
    first: Seq<int>,
    second: Seq<int>,
)
    requires
        is_rate_order(entries, first),
        is_rate_order(entries, second),
    ensures
        first == second,
{
    assert forall|k: int| 0 <= k < entries.len() implies first[k] == second[k] by {
        lemma_same_prefix(entries, first, second, k + 1);
        assert(first.take(k + 1)[k] == second.take(k + 1)[k]);
    }
    assert(first =~= second);
}

/// The two orders agree on their first `n` places.
proof fn lemma_same_prefix(
    entries: Seq<MempoolEntry>,
    first: Seq<int>,
    second: Seq<int>,
    n: int,
)
    requires
        is_rate_order(entries, first),
        is_rate_order(entries, second),
        0 <= n <= entries.len(),
    ensures
        first.take(n) == second.take(n),
    decreases n,
{
    if n > 0 {
        lemma_same_prefix(entries, first, second, n - 1);
        let x = first[n - 1];
        let y = second[n - 1];
        if x != y {
            assert(second.contains(x));
            let i = choose|i: int| 0 <= i < second.len() && second[i] == x;
            if i < n - 1 {
                assert(second.take(n - 1)[i] == first.take(n - 1)[i]);
                assert(precedes(entries, first[i], first[n - 1]));
                assert(false);
            }
            assert(precedes(entries, second[n - 1], second[i]));
            assert(first.contains(y));
            let j = choose|j: int| 0 <= j < first.len() && first[j] == y;
            if j < n - 1 {
                assert(second.take(n - 1)[j] == first.take(n - 1)[j]);
                assert(precedes(entries, second[j], second[n - 1]));
                assert(false);
            }
            assert(precedes(entries, first[n - 1], first[j]));
            assert(false);
        }
        assert(first.take(n) =~= first.take(n - 1).push(x));
        assert(second.take(n) =~= second.take(n - 1).push(y));
    } else {
        assert(first.take(n) =~= second.take(n));
    }
}

/// Taking one element out of `order` takes its share out of the sum.
proof fn lemma_sum_remove(f: spec_fn(int) -> nat, order: Seq<int>, i: int)
    requires
        0 <= i < order.len(),
    ensures
        sum_over(f, order) == sum_over(f, order.remove(i)) + f(order[i]),
    decreases order.len(),
{
    if i == order.len() - 1 {
        assert(order.remove(i) =~= order.drop_last());
    } else {
        lemma_sum_remove(f, order.drop_last(), i);
        assert(order.remove(i).drop_last() =~= order.drop_last().remove(i));
        assert(order.remove(i).last() == order.last());
    }
}

/// The sum over different numbers below `n` is no larger than the sum over all of them.
pub proof fn lemma_sum_bound(f: spec_fn(int) -> nat, order: Seq<int>, n: nat)
    requires
        forall|k: int| 0 <= k < order.len() ==> 0 <= #[trigger] order[k] < n,
        order.no_duplicates(),
    ensures
        sum_over(f, order) <= sum_below(f, n),
    decreases n,
{
    if n == 0 {
        if order.len() > 0 {
            assert(0 <= order[0] < n);
        }
    } else if order.contains(n - 1) {
        let i = choose|i: int| 0 <= i < order.len() && order[i] == n - 1;
        let rest = order.remove(i);
        lemma_sum_remove(f, order, i);
        assert forall|k: int| 0 <= k < rest.len() implies 0 <= #[trigger] rest[k] < n - 1 by {
            let l = if k < i { k } else { k + 1 };
            assert(rest[k] == order[l]);
            assert(order[l] != order[i]);
        }
        assert(rest.no_duplicates()) by {
            assert forall|k: int, l: int|
                0 <= k < rest.len() && 0 <= l < rest.len() && k != l implies rest[k]
                != rest[l] by {
                let k2 = if k < i { k } else { k + 1 };
                let l2 = if l < i { l } else { l + 1 };
                assert(order[k2] != order[l2]);
            }
        }
        lemma_sum_bound(f, rest, (n - 1) as nat);
    } else {
        assert forall|k: int| 0 <= k < order.len() implies 0 <= #[trigger] order[k] < n - 1 by {
            assert(order.contains(order[k]));
        }
        lemma_sum_bound(f, order, (n - 1) as nat);
    }
}

/// The numbers in `order`.
pub open spec fn as_ints(order: Seq<usize>) -> Seq<int> {
    Seq::new(order.len(), |i: int| order[i] as int)
}

/// Whether the fee rate of `a` is below that of `b`.
fn is_rate_below(a: &MempoolEntry, b: &MempoolEntry) -> (r: bool)
    ensures
        r == rate_below(*a, *b),
{
    assert(a.fee * b.vsize <= 0xffff_ffff_ffff_ffff * 0xffff_ffff_ffff_ffff && b.fee * a.vsize
        <= 0xffff_ffff_ffff_ffff * 0xffff_ffff_ffff_ffff) by (nonlinear_arith)
        requires
            a.fee <= 0xffff_ffff_ffff_ffff,
            b.fee <= 0xffff_ffff_ffff_ffff,
            a.vsize <= 0xffff_ffff_ffff_ffff,
            b.vsize <= 0xffff_ffff_ffff_ffff,
    ;
    (a.fee as u128) * (b.vsize as u128) < (b.fee as u128) * (a.vsize as u128)
}

/// Putting the next entry into an order of the entries before it.
proof fn lemma_insert(entries: Seq<MempoolEntry>, order: Seq<int>, m: int, p: int)
    requires
        0 <= m < entries.len(),
        is_rate_order(entries.take(m), order),
        0 <= p <= order.len(),
        forall|k: int| 0 <= k < entries.len() ==> has_rate(#[trigger] entries[k]),
        forall|k: int| 0 <= k < p ==> !rate_below(entries[m], entries[#[trigger] order[k]]),
        p < order.len() ==> rate_below(entries[m], entries[order[p]]),
    ensures
        is_rate_order(entries.take(m + 1), order.insert(p, m)),
{
    let prefix = entries.take(m);
    let longer = entries.take(m + 1);
    let r = order.insert(p, m);
    assert forall|k: int| p <= k < order.len() implies rate_below(
        entries[m],
        entries[#[trigger] order[k]],
    ) by {
        if k > p {
            assert(precedes(prefix, order[p], order[k]));
            if !rate_below(entries[m], entries[order[k]]) {
                lemma_rate_transitive(entries[order[p]], entries[order[k]], entries[m]);
            }
        }
    }
    assert forall|i: int| 0 <= i < longer.len() implies #[trigger] r.contains(i) by {
        if i == m {
            assert(r[p] == m);
        } else {
            assert(order.contains(i));
            let k = choose|k: int| 0 <= k < order.len() && order[k] == i;
            if k < p {
                assert(r[k] == i);
            } else {
                assert(r[k + 1] == i);
            }
        }
    }
    assert forall|k: int, l: int| 0 <= k < l < r.len() implies precedes(
        longer,
        #[trigger] r[k],
        #[trigger] r[l],
    ) by {
        let k2 = if k < p { k } else { k - 1 };
        let l2 = if l < p { l } else { l - 1 };
        if k != p && l != p {
            assert(r[k] == order[k2] && r[l] == order[l2]);
            assert(precedes(prefix, order[k2], order[l2]));
        } else if k == p {
            assert(r[l] == order[l2]);
        } else {
            assert(r[k] == order[k2]);
        }
    }
}

/// The entries by ascending fee rate.
fn sort_by_rate(entries: &Vec<MempoolEntry>) -> (r: Vec<usize>)
    requires
        forall|k: int| 0 <= k < entries@.len() ==> has_rate(#[trigger] entries@[k]),
    ensures
        is_rate_order(entries@, as_ints(r@)),
        as_ints(r@) == rate_order(entries@),
{
    let mut order: Vec<usize> = Vec::new();
    for m in 0..entries.len()
        invariant
            order@.len() == m,
            is_rate_order(entries@.take(m as int), as_ints(order@)),
            forall|k: int| 0 <= k < entries@.len() ==> has_rate(#[trigger] entries@[k]),
    {
        let ghost sorted = as_ints(order@);
        assert forall|k: int| 0 <= k < order@.len() implies #[trigger] order@[k] < m by {
            assert(0 <= sorted[k] < m);
        }
        let mut p: usize = 0;
        while p < order.len() && !is_rate_below(&entries[m], &entries[order[p]])
            invariant
                m < entries@.len(),
                order@.len() == m,
                sorted == as_ints(order@),
                is_rate_order(entries@.take(m as int), sorted),
                0 <= p <= order@.len(),
                forall|k: int| 0 <= k < order@.len() ==> #[trigger] order@[k] < m,
                forall|k: int|
                    0 <= k < p ==> !rate_below(entries@[m as int], entries@[#[trigger] sorted[k]]),
            decreases order@.len() - p,
        {
            p = p + 1;
        }
        proof {
            lemma_insert(entries@, sorted, m as int, p as int);
        }
        order.insert(p, m);
        assert(as_ints(order@) =~= sorted.insert(p as int, m as int));
    }
    assert(entries@.take(entries@.len() as int) =~= entries@);
    proof {
        lemma_rate_order_unique(entries@, as_ints(order@), rate_order(entries@));
    }
    order
}

/// Ascending by fee rate and without gaps, an order holds each entry once.
proof fn lemma_order_distinct(entries: Seq<MempoolEntry>, order: Seq<int>)
    requires
        is_rate_order(entries, order),
    ensures
        order.no_duplicates(),
{
    assert forall|k: int, l: int|
        0 <= k < order.len() && 0 <= l < order.len() && k != l implies order[k] != order[l] by {
        if k < l {
            assert(precedes(entries, order[k], order[l]));
        } else {
            assert(precedes(entries, order[l], order[k]));
        }
    }
}

/// Merging the first `k` transactions of `order` stays within what merging all of `n` would
/// come to, and the next one adds its share.
proof fn lemma_merge_step(f: spec_fn(int) -> nat, order: Seq<int>, n: nat, k: int)
    requires
        0 <= k < order.len(),
        forall|i: int| 0 <= i < order.len() ==> 0 <= #[trigger] order[i] < n,
        order.no_duplicates(),
    ensures
        sum_over(f, order.take(k + 1)) == sum_over(f, order.take(k)) + f(order[k]),
        sum_over(f, order.take(k + 1)) <= sum_below(f, n),
{
    let longer = order.take(k + 1);
    assert(longer.drop_last() =~= order.take(k));
    assert(longer.last() == order[k]);
    lemma_sum_bound(f, longer, n);
}

/// One more output adds its estimated size.
pub proof fn lemma_prefix_size(outputs: Seq<LocalOutputView>, n: int)
    requires
        0 <= n <= outputs.len(),
    ensures
        estimated_sizes(outputs.take(n)) <= estimated_sizes(outputs),
        n > 0 ==> estimated_sizes(outputs.take(n)) == estimated_sizes(outputs.take(n - 1))
            + estimated_size(outputs[n - 1].txout.script_pubkey),
    decreases outputs.len() - n,
{
    if n > 0 {
        assert(outputs.take(n).drop_last() =~= outputs.take(n - 1));
    }
    if n < outputs.len() {
        lemma_prefix_size(outputs, n + 1);
    } else {
        assert(outputs.take(n) =~= outputs);
    }
}

/// One more input adds its weight.
pub proof fn lemma_prefix_weight(inputs: Seq<TxInView>, n: int)
    requires
        0 <= n <= inputs.len(),
    ensures
        inputs_weight(inputs.take(n)) <= inputs_weight(inputs),
        n > 0 ==> inputs_weight(inputs.take(n)) == inputs_weight(inputs.take(n - 1))
            + input_weight(inputs[n - 1]),
    decreases inputs.len() - n,
{
    if n > 0 {
        assert(inputs.take(n).drop_last() =~= inputs.take(n - 1));
    }
    if n < inputs.len() {
        lemma_prefix_weight(inputs, n + 1);
    } else {
        assert(inputs.take(n) =~= inputs);
    }
}

/// The estimated size of a transaction that spends `dust` to the burn output `burn`, in
/// quarters of a virtual byte.
pub fn own_vsize(dust: &Vec<LocalOutput>, burn: &Vec<u8>) -> (r: u128)
    requires
        all_supported(outputs_of(dust@)),
    ensures
        r == own_size(outputs_of(dust@), burn@),
{
    let ghost all = outputs_of(dust@);
    assert(all.take(0) =~= Seq::<LocalOutputView>::empty());
    let empty: [u8; 2] = [0x6a, 0x00];
    assert(empty@ =~= empty_burn_script());
    let fixed: u128 = if same_bytes(burn.as_slice(), empty.as_slice()) {
        42 + 44
    } else {
        42 + 56
    };
    let mut size: u128 = fixed;
    for i in 0..dust.len()
        invariant
            all == outputs_of(dust@),
            all_supported(all),
            own_size(all, burn@) == fixed + estimated_sizes(all),
            fixed <= 98,
            size == fixed + estimated_sizes(all.take(i as int)),
            size <= 98 + 1188 * i,
    {
        proof {
            lemma_prefix_size(all, i + 1);
            assert(all[i as int] == dust@[i as int]@);
        }
        size = size + estimate_input_vsize(&dust[i].txout.script_pubkey).quarters as u128;
    }
    assert(all.take(all.len() as int) =~= all);
    size
}

/// `start` and the weight of the inputs of `tx`, where that is a machine integer.
fn checked_inputs(tx: &Transaction, start: u64) -> (r: Option<u64>)
    requires
        forall|i: int| 0 <= i < tx@.input.len() ==> weighable(#[trigger] tx@.input[i]),
    ensures
        match r {
            Some(sum) => sum == start + inputs_weight(tx@.input),
            None => start + inputs_weight(tx@.input) > u64::MAX,
        },
{
    let ghost all = tx@.input;
    assert(all.take(0) =~= Seq::<TxInView>::empty());
    let mut sum: u64 = start;
    for i in 0..tx.input.len()
        invariant
            all == tx@.input,
            forall|j: int| 0 <= j < all.len() ==> weighable(#[trigger] all[j]),
            sum == start + inputs_weight(all.take(i as int)),
    {
        proof {
            lemma_prefix_weight(all, i + 1);
            assert(all[i as int] == tx.input@[i as int]@);
        }
        sum = match sum.checked_add(get_input_vsize(&tx.input[i]).quarters) {
            Some(next) => next,
            None => return None,
        };
    }
    assert(all.take(all.len() as int) =~= all);
    Some(sum)
}

/// Whether a replacement of the given fee and size outbids `entry`.
fn is_outbid(entry: &MempoolEntry, fee: u64, size: VirtualSize) -> (r: bool)
    ensures
        r == outbids(fee as nat, size.quarters as nat, *entry),
{
    let size = size.quarters;
    assert(0 <= fee * entry.vsize <= 0xffff_ffff_ffff_ffff * 0xffff_ffff_ffff_ffff && 0
        <= entry.fee * size <= 0xffff_ffff_ffff_ffff * 0xffff_ffff_ffff_ffff)
        by (nonlinear_arith)
        requires
            fee <= 0xffff_ffff_ffff_ffff,
            entry.fee <= 0xffff_ffff_ffff_ffff,
            entry.vsize <= 0xffff_ffff_ffff_ffff,
            size <= 0xffff_ffff_ffff_ffff,
    ;
    assert(4 * fee * entry.vsize == 4 * (fee * entry.vsize)) by (nonlinear_arith);
    // the factor four goes to the other side, where it cannot overflow
    (fee as u128) * (entry.vsize as u128) > (entry.fee as u128) * (size as u128) / 4
}

/// Of the unconfirmed dust disposal transactions, those that a replacement spending `dust`
/// merges. `entries` is what the node says of each.
///
/// The replacement pays the dust and the fees of all it merges, so it always pays more than
/// they did together. A transaction is merged where the dust still pays for the bandwidth of
/// the replacement and the fee rate of the replacement still exceeds its own. They are taken
/// by ascending fee rate, so that the replacement then outbids all that were merged before.
pub fn find_batchable_txs(
    entries: &Vec<MempoolEntry>,
    dust: &Vec<LocalOutput>,
    unconfirmed: &Vec<Transaction>,
) -> (r: Vec<Transaction>)
    requires
        dust@.len() > 0 && unconfirmed@.len() > 0 ==> batch_input(
            entries@,
            outputs_of(dust@),
            contents(unconfirmed@),
        ),
    ensures
        dust@.len() == 0 || unconfirmed@.len() == 0 ==> r@.len() == 0,
        dust@.len() > 0 && unconfirmed@.len() > 0 ==> is_batch(
            contents(r@),
            outputs_of(dust@),
            contents(unconfirmed@),
            entries@,
        ),
        contents(r@) == batch_of(outputs_of(dust@), contents(unconfirmed@), entries@),
{
    let mut batchable: Vec<Transaction> = Vec::new();
    if unconfirmed.len() == 0 || dust.len() == 0 {
        assert(contents(batchable@) =~= Seq::<TransactionView>::empty());
        return batchable;
    }
    let ghost outputs = outputs_of(dust@);
    let ghost txs = contents(unconfirmed@);
    let ghost burn = txs[0].output[0].script_pubkey;
    let ghost own = own_size(outputs, burn);
    let ghost dust_sats = total_value(outputs);
    let ghost n = entries@.len();
    assert(txs[0] == unconfirmed@[0]@);
    let tx_vsize = VirtualSize {
        quarters: own_vsize(dust, &unconfirmed[0].output[0].script_pubkey) as u64,
    };
    let tx_input_amount = sum_values(dust);
    let order = sort_by_rate(entries);
    let ghost sorted = as_ints(order@);
    proof {
        lemma_order_distinct(entries@, sorted);
        assert(sorted.take(0) =~= Seq::<int>::empty());
    }
    let mut combined_vsize = tx_vsize;
    let mut combined_amount = tx_input_amount;
    let mut k: usize = 0;
    while k < order.len() && k < MAX_REPLACED
        invariant_except_break
            combined_amount == merged_fee(dust_sats, entries@, sorted.take(k as int)),
            combined_vsize.quarters == merged_size(own, txs, sorted.take(k as int)),
        invariant
            batch_input(entries@, outputs, txs),
            txs == contents(unconfirmed@),
            n == entries@.len() == txs.len() == sorted.len(),
            own == own_size(outputs, txs[0].output[0].script_pubkey),
            dust_sats == total_value(outputs),
            tx_input_amount == dust_sats,
            sorted == as_ints(order@),
            sorted == rate_order(entries@),
            is_rate_order(entries@, sorted),
            sorted.no_duplicates(),
            k <= sorted.len(),
            k <= MAX_REPLACED,
            k == batchable@.len(),
            forall|j: int| 0 <= j < k ==> #[trigger] batchable@[j]@ == txs[sorted[j]],
            forall|j: int|
                0 <= j < k ==> #[trigger] may_merge(dust_sats, own, txs, entries@, sorted, j),
        ensures
            k == n || k == MAX_REPLACED || !may_merge(
                dust_sats,
                own,
                txs,
                entries@,
                sorted,
                k as int,
            ),
        decreases order@.len() - k,
    {
        let m = order[k];
        proof {
            lemma_merge_step(fee_of(entries@), sorted, n, k as int);
            lemma_merge_step(weight_of(txs), sorted, n, k as int);
            assert(sorted[k as int] == m);
            assert(txs[m as int] == unconfirmed@[m as int]@);
        }
        let new_amount = combined_amount + entries[m].fee;
        let new_vsize = VirtualSize {
            quarters: checked_inputs(&unconfirmed[m], combined_vsize.quarters).unwrap(),
        };
        let bandwidth_ok = 40 * (tx_input_amount as u128) >= new_vsize.quarters as u128;
        let rate_ok = is_outbid(&entries[m], new_amount, new_vsize);
        if !(bandwidth_ok && rate_ok) {
            assert(!may_merge(dust_sats, own, txs, entries@, sorted, k as int));
            break;
        }
        combined_amount = new_amount;
        combined_vsize = new_vsize;
        batchable.push(unconfirmed[m].clone());
        assert(may_merge(dust_sats, own, txs, entries@, sorted, k as int));
        k = k + 1;
    }
    proof {
        let batch = contents(batchable@);
        assert forall|j: int| 0 <= j < batch.len() implies #[trigger] batch[j]
            == txs[sorted[j]] by {
            assert(batch[j] == batchable@[j]@);
        }
        assert(is_batch(batch, outputs, txs, entries@));
        lemma_batch_unique(batch, batch_of(outputs, txs, entries@), outputs, txs, entries@);
    }
    batchable
}

/// The place for entry `m` in an order of the entries before it: behind those of no higher
/// fee rate.
proof fn lemma_place(
    entries: Seq<MempoolEntry>,
    order: Seq<int>,
    m: int,
    from: int,
) -> (p: int)
    requires
        0 <= from <= order.len(),
        forall|k: int| 0 <= k < from ==> !rate_below(entries[m], entries[#[trigger] order[k]]),
    ensures
        from <= p <= order.len(),
        forall|k: int| 0 <= k < p ==> !rate_below(entries[m], entries[#[trigger] order[k]]),
        p < order.len() ==> rate_below(entries[m], entries[order[p]]),
    decreases order.len() - from,
{
    if from == order.len() || rate_below(entries[m], entries[order[from]]) {
        from
    } else {
        lemma_place(entries, order, m, from + 1)
    }
}

/// An order of the first `m` entries.
proof fn lemma_rate_order_prefix(entries: Seq<MempoolEntry>, m: int) -> (order: Seq<int>)
    requires
        0 <= m <= entries.len(),
        forall|i: int| 0 <= i < entries.len() ==> has_rate(#[trigger] entries[i]),
    ensures
        is_rate_order(entries.take(m), order),
    decreases m,
{
    if m == 0 {
        Seq::empty()
    } else {
        let order = lemma_rate_order_prefix(entries, m - 1);
        let p = lemma_place(entries, order, m - 1, 0);
        lemma_insert(entries, order, m - 1, p);
        order.insert(p, m - 1)
    }
}

/// Entries that have fee rates can be put in order by them.
pub proof fn lemma_rate_order_exists(entries: Seq<MempoolEntry>)
    requires
        forall|i: int| 0 <= i < entries.len() ==> has_rate(#[trigger] entries[i]),
    ensures
        is_rate_order(entries, rate_order(entries)),
{
    let order = lemma_rate_order_prefix(entries, entries.len() as int);
    assert(entries.take(entries.len() as int) =~= entries);
}

/// What is merged is determined by the dust, the transactions and what the node says of them.
pub proof fn lemma_batch_unique(
    first: Seq<TransactionView>,
    second: Seq<TransactionView>,
    dust: Seq<LocalOutputView>,
    txs: Seq<TransactionView>,
    entries: Seq<MempoolEntry>,
)
    requires
        is_batch(first, dust, txs, entries),
        is_batch(second, dust, txs, entries),
    ensures
        first == second,
{
    let order = rate_order(entries);
    let dust_sats = total_value(dust);
    let own = own_size(dust, txs[0].output[0].script_pubkey);
    if first.len() < second.len() {
        assert(may_merge(dust_sats, own, txs, entries, order, first.len() as int));
    }
    if second.len() < first.len() {
        assert(may_merge(dust_sats, own, txs, entries, order, second.len() as int));
    }
    assert(first =~= second);
}

/// A higher rate that is outbid brings the lower ones with it.
proof fn lemma_outbids_lower(fee: nat, size: nat, low: MempoolEntry, high: MempoolEntry)
    requires
        outbids(fee, size, high),
        !rate_below(high, low),
        has_rate(low),
    ensures
        outbids(fee, size, low),
{
    let (f, s) = (fee as int, size as int);
    let (fl, vl) = (low.fee as int, low.vsize as int);
    let (fh, vh) = (high.fee as int, high.vsize as int);
    assert(4 * f * vl > fl * s) by (nonlinear_arith)
        requires
            f >= 0,
            s >= 0,
            fl >= 0,
            vl >= 0,
            fh >= 0,
            vh >= 0,
            fl > 0 || vl > 0,
            4 * f * vh > fh * s,
            fl * vh <= fh * vl,
    {
        assert(fh * s >= 0);
        assert(vh > 0);
        if vl == 0 {
            assert(fl * vh <= 0);
            assert(false);
        }
        assert((4 * f * vh) * vl > (fh * s) * vl);
        assert((4 * f * vl) * vh == (4 * f * vh) * vl);
        assert((fh * s) * vl == (fh * vl) * s);
        assert((fh * vl) * s >= (fl * vh) * s);
        assert((fl * vh) * s == (fl * s) * vh);
        assert((4 * f * vl) * vh > (fl * s) * vh);
    }
}

/// A replacement is acceptable in place of what it merges: it merges each transaction at most
/// once and no more than it may evict, pays for its bandwidth with the dust it adds, pays
/// more than all the fees it replaces, by what the dust is worth, and its fee rate exceeds
/// that of every transaction it merges.
pub proof fn lemma_replacement_accepted(
    batch: Seq<TransactionView>,
    dust: Seq<LocalOutputView>,
    txs: Seq<TransactionView>,
    entries: Seq<MempoolEntry>,
)
    requires
        batch_input(entries, dust, txs),
        is_batch(batch, dust, txs, entries),
        batch.len() > 0,
    ensures
        ({
            let merged = rate_order(entries).take(batch.len() as int);
            let fee = merged_fee(total_value(dust), entries, merged);
            let size = merged_size(own_size(dust, txs[0].output[0].script_pubkey), txs, merged);
            &&& merged.no_duplicates()
            &&& batch.len() <= MAX_REPLACED
            &&& forall|k: int|
                0 <= k < merged.len() ==> 0 <= #[trigger] merged[k] < txs.len() && batch[k]
                    == txs[merged[k]]
            &&& pays_bandwidth(total_value(dust), size)
            &&& fee == total_value(dust) + sum_over(fee_of(entries), merged)
            &&& fee > sum_over(fee_of(entries), merged)
            &&& forall|k: int|
                0 <= k < merged.len() ==> outbids(fee, size, entries[#[trigger] merged[k]])
        }),
{
    let order = rate_order(entries);
    lemma_rate_order_exists(entries);
    lemma_order_distinct(entries, order);
    let n = batch.len() as int;
    let merged = order.take(n);
    let dust_sats = total_value(dust);
    let own = own_size(dust, txs[0].output[0].script_pubkey);
    assert(may_merge(dust_sats, own, txs, entries, order, n - 1));
    let fee = merged_fee(dust_sats, entries, merged);
    let size = merged_size(own, txs, merged);
    assert forall|k: int| 0 <= k < n implies outbids(
        fee,
        size,
        entries[#[trigger] merged[k]],
    ) by {
        if k < n - 1 {
            assert(precedes(entries, order[k], order[n - 1]));
            lemma_outbids_lower(fee, size, entries[order[k]], entries[order[n - 1]]);
        }
    }
}

/// Where the dust cannot pay for the bandwidth of a replacement, it cannot pay for that of
/// one that merges more.
pub proof fn lemma_bandwidth_stops(
    dust_sats: nat,
    own: nat,
    txs: Seq<TransactionView>,
    order: Seq<int>,
    k: int,
    l: int,
)
    requires
        0 <= k <= l <= order.len(),
        !pays_bandwidth(dust_sats, merged_size(own, txs, order.take(k))),
    ensures
        !pays_bandwidth(dust_sats, merged_size(own, txs, order.take(l))),
    decreases l - k,
{
    if k < l {
        let longer = order.take(l);
        assert(longer.drop_last() =~= order.take(l - 1));
        lemma_bandwidth_stops(dust_sats, own, txs, order, k, l - 1);
    }
}

/// The input types that the estimates are made for: a single key, or a 2-of-3 multisig.
pub open spec fn is_common(input_type: InputType) -> bool {
    match input_type {
        InputType::P2SH(P2SHInner::Multisig(cfg)) => cfg.required == 2 && cfg.total == 3,
        InputType::P2SH(P2SHInner::P2WSH(cfg)) => cfg.required == 2 && cfg.total == 3,
        InputType::P2WSH(cfg) => cfg.required == 2 && cfg.total == 3,
        _ => true,
    }
}

/// The estimate for an output is no less than the size that the calculator gives for a common
/// input, and meets it for a plain key, a taproot key and a bare 2-of-3 multisig.
pub proof fn lemma_estimate_covers(script: Seq<u8>, input_type: InputType)
    requires
        spends_as(script, input_type),
        is_common(input_type),
    ensures
        supported(script),
        estimated_size(script) >= 4 * type_base_size(input_type) + type_witness_size(input_type),
        !(input_type matches InputType::P2WSH(_)) && !(input_type matches InputType::P2SH(
            P2SHInner::P2WPKH,
        )) && !(input_type matches InputType::P2SH(P2SHInner::P2WSH(_))) ==> estimated_size(script)
            == 4 * type_base_size(input_type) + type_witness_size(input_type),
{
}

/// Something is merged exactly where the disposal of the lowest fee rate may be: a new disposal
/// stands alone only where it could not replace that one.
pub proof fn lemma_merges_when_it_can(
    batch: Seq<TransactionView>,
    dust: Seq<LocalOutputView>,
    txs: Seq<TransactionView>,
    entries: Seq<MempoolEntry>,
)
    requires
        txs.len() > 0,
        is_batch(batch, dust, txs, entries),
    ensures
        batch.len() > 0 <==> may_merge(
            total_value(dust),
            own_size(dust, txs[0].output[0].script_pubkey),
            txs,
            entries,
            rate_order(entries),
            0,
        ),
{
}

/// A taproot input that carries its signature weighs what is estimated for one.
pub proof fn lemma_taproot_weight(input: TxInView, script: Seq<u8>)
    requires
        input.script_sig.len() == 0,
        input.witness.len() == 1,
        taproot_signed(input.witness[0]),
        p2tr(script),
    ensures
        input_weight(input) == estimated_size(script),
{
    assert(items_size(input.witness.drop_last()) == 0);
}

/// The first place at or behind `k` at which merging stops.
proof fn lemma_stop(
    dust_sats: nat,
    own: nat,
    txs: Seq<TransactionView>,
    entries: Seq<MempoolEntry>,
    order: Seq<int>,
    k: int,
) -> (n: int)
    requires
        0 <= k <= txs.len(),
        k <= MAX_REPLACED,
        forall|j: int| 0 <= j < k ==> #[trigger] may_merge(dust_sats, own, txs, entries, order, j),
    ensures
        k <= n <= txs.len(),
        n <= MAX_REPLACED,
        forall|j: int| 0 <= j < n ==> #[trigger] may_merge(dust_sats, own, txs, entries, order, j),
        n == txs.len() || n == MAX_REPLACED || !may_merge(dust_sats, own, txs, entries, order, n),
    decreases txs.len() - k,
{
    if k == txs.len() || k == MAX_REPLACED || !may_merge(dust_sats, own, txs, entries, order, k) {
        k
    } else {
        lemma_stop(dust_sats, own, txs, entries, order, k + 1)
    }
}

/// What a replacement merges is a batch by the rules: there always is one, if only an empty one.
pub proof fn lemma_batch_exists(
    dust: Seq<LocalOutputView>,
    txs: Seq<TransactionView>,
    entries: Seq<MempoolEntry>,
)
    requires
        dust.len() > 0,
        txs.len() > 0,
        batch_input(entries, dust, txs),
    ensures
        is_batch(batch_of(dust, txs, entries), dust, txs, entries),
{
    let order = rate_order(entries);
    let own = own_size(dust, txs[0].output[0].script_pubkey);
    let n = lemma_stop(total_value(dust), own, txs, entries, order, 0);
    let batch = Seq::new(n as nat, |k: int| txs[order[k]]);
    assert(is_batch(batch, dust, txs, entries));
}

/// A sum grows with what is summed over.
proof fn lemma_sum_below_grows(f: spec_fn(int) -> nat, k: nat, n: nat)
    requires
        k <= n,
    ensures
        sum_below(f, k) <= sum_below(f, n),
    decreases n,
{
    if k < n {
        lemma_sum_below_grows(f, k, (n - 1) as nat);
    }
}

/// `start` and the fees of all entries, where that is a machine integer.
fn checked_fees(entries: &Vec<MempoolEntry>, start: u64) -> (r: Option<u64>)
    ensures
        match r {
            Some(sum) => sum == start + sum_below(fee_of(entries@), entries@.len()),
            None => start + sum_below(fee_of(entries@), entries@.len()) > u64::MAX,
        },
{
    let mut sum: u64 = start;
    for i in 0..entries.len()
        invariant
            sum == start + sum_below(fee_of(entries@), i as nat),
    {
        proof {
            lemma_sum_below_grows(fee_of(entries@), (i + 1) as nat, entries@.len());
        }
        sum = match sum.checked_add(entries[i].fee) {
            Some(next) => next,
            None => return None,
        };
    }
    Some(sum)
}

/// `start` and the weight of the inputs of all of `txs`, where that is a machine integer.
fn checked_weights(txs: &Vec<Transaction>, start: u64) -> (r: Option<u64>)
    requires
        forall|i: int, j: int|
            0 <= i < txs@.len() && 0 <= j < contents(txs@)[i].input.len() ==> weighable(
                #[trigger] contents(txs@)[i].input[j],
            ),
    ensures
        match r {
            Some(sum) => sum == start + sum_below(weight_of(contents(txs@)), txs@.len()),
            None => start + sum_below(weight_of(contents(txs@)), txs@.len()) > u64::MAX,
        },
{
    let ghost all = contents(txs@);
    let mut sum: u64 = start;
    for i in 0..txs.len()
        invariant
            all == contents(txs@),
            forall|k: int, j: int|
                0 <= k < txs@.len() && 0 <= j < all[k].input.len() ==> weighable(
                    #[trigger] all[k].input[j],
                ),
            sum == start + sum_below(weight_of(all), i as nat),
    {
        proof {
            lemma_sum_below_grows(weight_of(all), (i + 1) as nat, txs@.len());
            assert(all[i as int] == txs@[i as int]@);
        }
        sum = match checked_inputs(&txs[i], sum) {
            Some(next) => next,
            None => return None,
        };
    }
    Some(sum)
}

/// Whether all of `dust` is of kinds whose spending size can be estimated.
pub fn are_supported(dust: &Vec<LocalOutput>) -> (r: bool)
    ensures
        r == all_supported(outputs_of(dust@)),
{
    let ghost all = outputs_of(dust@);
    for i in 0..dust.len()
        invariant
            all == outputs_of(dust@),
            forall|j: int| 0 <= j < i ==> supported((#[trigger] all[j]).txout.script_pubkey),
    {
        assert(all[i as int] == dust@[i as int]@);
        if !is_supported(&dust[i].txout.script_pubkey) {
            return false;
        }
    }
    true
}

/// Whether all inputs of `txs` can be weighed.
fn are_weighable(txs: &Vec<Transaction>) -> (r: bool)
    ensures
        r == forall|i: int, j: int|
            0 <= i < txs@.len() && 0 <= j < contents(txs@)[i].input.len() ==> weighable(
                #[trigger] contents(txs@)[i].input[j],
            ),
{
    let ghost all = contents(txs@);
    for i in 0..txs.len()
        invariant
            all == contents(txs@),
            forall|k: int, j: int|
                0 <= k < i && 0 <= j < all[k].input.len() ==> weighable(
                    #[trigger] all[k].input[j],
                ),
    {
        let tx = &txs[i];
        assert(all[i as int] == tx@);
        for j in 0..tx.input.len()
            invariant
                all == contents(txs@),
                i < txs@.len(),
                all[i as int] == tx@,
                forall|l: int| 0 <= l < j ==> weighable(#[trigger] tx@.input[l]),
        {
            assert(tx@.input[j as int] == tx.input@[j as int]@);
            if !is_weighable(&tx.input[j]) {
                assert(!weighable(all[i as int].input[j as int]));
                return false;
            }
        }
    }
    true
}

/// Whether the merging rules can be applied to what is given.
pub fn can_merge(
    entries: &Vec<MempoolEntry>,
    dust: &Vec<LocalOutput>,
    unconfirmed: &Vec<Transaction>,
) -> (r: bool)
    requires
        unconfirmed@.len() > 0,
    ensures
        r == batch_input(entries@, outputs_of(dust@), contents(unconfirmed@)),
{
    let ghost txs = contents(unconfirmed@);
    assert(txs[0] == unconfirmed@[0]@);
    assert(unconfirmed@[0]@.output.len() == unconfirmed@[0].output@.len());
    if entries.len() != unconfirmed.len() || unconfirmed[0].output.len() == 0 || !are_supported(
        dust,
    ) || !are_weighable(unconfirmed) {
        return false;
    }
    for i in 0..entries.len()
        invariant
            forall|j: int| 0 <= j < i ==> has_rate(#[trigger] entries@[j]),
    {
        if entries[i].fee == 0 && entries[i].vsize == 0 {
            assert(!has_rate(entries@[i as int]));
            return false;
        }
    }
    let amount = match checked_sum_values(dust) {
        Some(amount) => amount,
        None => return false,
    };
    if checked_fees(entries, amount).is_none() {
        return false;
    }
    assert(txs[0].output[0] == unconfirmed@[0].output@[0]@);
    let own = own_vsize(dust, &unconfirmed[0].output[0].script_pubkey);
    own <= u64::MAX as u128 && checked_weights(unconfirmed, own as u64).is_some()
}

/// What is estimated for an input, in virtual bytes: 57.75 for taproot, 68 for a witness key hash,
/// 105 for a witness script, 148 for a key hash and 297 for a script hash. Nothing is estimated
/// for other kinds.
pub proof fn lemma_estimates(script: Seq<u8>)
    ensures
        p2tr(script) ==> estimated_size(script) == 4 * 57 + 3,
        p2wpkh(script) ==> estimated_size(script) == 4 * 68,
        p2wsh(script) ==> estimated_size(script) == 4 * 105,
        p2pkh(script) ==> estimated_size(script) == 4 * 148,
        p2sh(script) ==> estimated_size(script) == 4 * 297,
        !supported(script) <==> !p2tr(script) && !p2wpkh(script) && !p2wsh(script) && !p2pkh(
            script,
        ) && !p2sh(script),
{
}

/// The sums that merging goes by are sums over all that is summed over.
pub proof fn lemma_merge_sums(
    dust: Seq<LocalOutputView>,
    entries: Seq<MempoolEntry>,
    txs: Seq<TransactionView>,
    order: Seq<int>,
)
    ensures
        estimated_sizes(dust) == dust.fold_left(
            0int,
            |sum: int, out: LocalOutputView| sum + estimated_size(out.txout.script_pubkey),
        ),
        sum_below(fee_of(entries), entries.len()) == entries.fold_left(
            0int,
            |sum: int, entry: MempoolEntry| sum + entry.fee,
        ),
        sum_below(weight_of(txs), txs.len()) == txs.fold_left(
            0int,
            |sum: int, tx: TransactionView| sum + inputs_weight(tx.input),
        ),
        sum_over(fee_of(entries), order) == order.fold_left(
            0int,
            |sum: int, i: int| sum + entries[i].fee,
        ),
        sum_over(weight_of(txs), order) == order.fold_left(
            0int,
            |sum: int, i: int| sum + inputs_weight(txs[i].input),
        ),
    decreases dust.len() + entries.len() + txs.len() + order.len(),
{
    if dust.len() > 0 {
        lemma_merge_sums(dust.drop_last(), Seq::empty(), Seq::empty(), Seq::empty());
    }
    if entries.len() > 0 {
        let n = (entries.len() - 1) as nat;
        lemma_merge_sums(Seq::empty(), entries.drop_last(), Seq::empty(), Seq::empty());
        lemma_same_sum(fee_of(entries), fee_of(entries.drop_last()), n);
    }
    if txs.len() > 0 {
        let n = (txs.len() - 1) as nat;
        lemma_merge_sums(Seq::empty(), Seq::empty(), txs.drop_last(), Seq::empty());
        lemma_same_sum(weight_of(txs), weight_of(txs.drop_last()), n);
    }
    if order.len() > 0 {
        lemma_order_sums(entries, txs, order);
    }
}

/// The sums over an order.
proof fn lemma_order_sums(
    entries: Seq<MempoolEntry>,
    txs: Seq<TransactionView>,
    order: Seq<int>,
)
    ensures
        sum_over(fee_of(entries), order) == order.fold_left(
            0int,
            |sum: int, i: int| sum + entries[i].fee,
        ),
        sum_over(weight_of(txs), order) == order.fold_left(
            0int,
            |sum: int, i: int| sum + inputs_weight(txs[i].input),
        ),
    decreases order.len(),
{
    if order.len() > 0 {
        lemma_order_sums(entries, txs, order.drop_last());
    }
}

/// Functions that agree below `n` have the same sum there.
proof fn lemma_same_sum(f: spec_fn(int) -> nat, g: spec_fn(int) -> nat, n: nat)
    requires
        forall|i: int| 0 <= i < n ==> #[trigger] f(i) == g(i),
    ensures
        sum_below(f, n) == sum_below(g, n),
    decreases n,
{
    if n > 0 {
        lemma_same_sum(f, g, (n - 1) as nat);
        assert(f(n - 1) == g(n - 1));
    }
}

/// When the merging rules can be applied: there is an entry with a fee or a size for each
/// transaction, the first transaction has an output, the spending size of all dust can be
/// estimated and all inputs can be weighed, and neither all fees with the dust nor all sizes
/// together are more than 64 bits.
pub proof fn lemma_can_merge_when(
    entries: Seq<MempoolEntry>,
    dust: Seq<LocalOutputView>,
    txs: Seq<TransactionView>,
)
    requires
        txs.len() > 0,
    ensures
        batch_input(entries, dust, txs) <==> {
            &&& entries.len() == txs.len()
            &&& txs[0].output.len() > 0
            &&& forall|i: int|
                0 <= i < entries.len() ==> !((#[trigger] entries[i]).fee == 0 && entries[i].vsize
                    == 0)
            &&& forall|i: int|
                0 <= i < dust.len() ==> supported((#[trigger] dust[i]).txout.script_pubkey)
            &&& forall|i: int, j: int|
                0 <= i < txs.len() && 0 <= j < txs[i].input.len() ==> weighable(
                    #[trigger] txs[i].input[j],
                )
            &&& dust.fold_left(0int, |sum: int, out: LocalOutputView| sum + out.txout.value)
                + entries.fold_left(0int, |sum: int, entry: MempoolEntry| sum + entry.fee)
                <= u64::MAX
            &&& 42 + dust.fold_left(
                0int,
                |sum: int, out: LocalOutputView| sum + estimated_size(out.txout.script_pubkey),
            ) + (if txs[0].output[0].script_pubkey == seq![0x6au8, 0x00u8] {
                44int
            } else {
                56
            }) + txs.fold_left(0int, |sum: int, tx: TransactionView| sum + inputs_weight(tx.input))
                <= u64::MAX
        },
{
    lemma_value_is_sum(dust);
    lemma_merge_sums(dust, entries, txs, Seq::empty());
}

/// What is merged, said of the transactions and their fees alone. There is one order of the
/// transactions by ascending fee rate, those of one rate as they stand in the mempool. Merged are
/// the first of them, as many as there are up to a hundred, or up to the first one with which the
/// new dust would not pay 0.1 satoshi for each virtual byte of the replacement, or the
/// replacement would not pay a higher rate than it does. The replacement is 10.5 virtual bytes,
/// what is estimated for the dust, a burn output of 11 or 14 bytes, and the inputs that it merges,
/// and its fee is the value of the dust and the fees of all it merges.
pub proof fn lemma_merged_are_all_that_may(
    dust: Seq<LocalOutputView>,
    txs: Seq<TransactionView>,
    entries: Seq<MempoolEntry>,
) -> (order: Seq<int>)
    requires
        dust.len() > 0,
        txs.len() > 0,
        batch_input(entries, dust, txs),
    ensures
        order.len() == txs.len(),
        forall|k: int| 0 <= k < order.len() ==> 0 <= #[trigger] order[k] < txs.len(),
        forall|i: int| 0 <= i < txs.len() ==> #[trigger] order.contains(i),
        forall|k: int, l: int|
            #![trigger order[k], order[l]]
            0 <= k < l < order.len() ==> {
                let (a, b) = (entries[order[k]], entries[order[l]]);
                a.fee * b.vsize < b.fee * a.vsize || (a.fee * b.vsize == b.fee * a.vsize
                    && order[k] < order[l])
            },
        ({
            let batch = batch_of(dust, txs, entries);
            let n = batch.len() as int;
            let worth = dust.fold_left(
                0int,
                |sum: int, out: LocalOutputView| sum + out.txout.value,
            );
            let own = 42 + dust.fold_left(
                0int,
                |sum: int, out: LocalOutputView| sum + estimated_size(out.txout.script_pubkey),
            ) + (if txs[0].output[0].script_pubkey == seq![0x6au8, 0x00u8] {
                44int
            } else {
                56
            });
            let fee = |m: int|
                worth + order.take(m).fold_left(0int, |sum: int, i: int| sum + entries[i].fee);
            let size = |m: int|
                own + order.take(m).fold_left(
                    0int,
                    |sum: int, i: int| sum + inputs_weight(txs[i].input),
                );
            let refused = |m: int|
                40 * worth < size(m) || 4 * fee(m) * entries[order[m - 1]].vsize <= entries[order[m
                    - 1]].fee * size(m);
            &&& n <= 100
            &&& n <= txs.len()
            &&& forall|k: int| 0 <= k < n ==> #[trigger] batch[k] == txs[order[k]]
            &&& forall|m: int| 1 <= m <= n ==> !#[trigger] refused(m)
            &&& n < txs.len() && n < 100 ==> refused(n + 1)
        }),
{
    let order = rate_order(entries);
    lemma_rate_order_exists(entries);
    lemma_batch_exists(dust, txs, entries);
    lemma_value_is_sum(dust);
    lemma_merge_sums(dust, Seq::empty(), Seq::empty(), Seq::empty());
    assert forall|k: int, l: int|
        #![trigger order[k], order[l]]
        0 <= k < l < order.len() implies {
        let (a, b) = (entries[order[k]], entries[order[l]]);
        a.fee * b.vsize < b.fee * a.vsize || (a.fee * b.vsize == b.fee * a.vsize && order[k]
            < order[l])
    } by {
        assert(precedes(entries, order[k], order[l]));
    }
    let batch = batch_of(dust, txs, entries);
    let n = batch.len() as int;
    let burn = txs[0].output[0].script_pubkey;
    let worth = dust.fold_left(0int, |sum: int, out: LocalOutputView| sum + out.txout.value);
    let own = 42 + dust.fold_left(
        0int,
        |sum: int, out: LocalOutputView| sum + estimated_size(out.txout.script_pubkey),
    ) + (if burn == seq![0x6au8, 0x00u8] {
        44int
    } else {
        56
    });
    assert(own == own_size(dust, burn));
    let fee = |m: int|
        worth + order.take(m).fold_left(0int, |sum: int, i: int| sum + entries[i].fee);
    let size = |m: int|
        own + order.take(m).fold_left(0int, |sum: int, i: int| sum + inputs_weight(txs[i].input));
    let refused = |m: int|
        40 * worth < size(m) || 4 * fee(m) * entries[order[m - 1]].vsize <= entries[order[m
            - 1]].fee * size(m);
    assert forall|m: int| 1 <= m <= n implies !#[trigger] refused(m) by {
        lemma_order_sums(entries, txs, order.take(m));
        assert(may_merge(total_value(dust), own_size(dust, burn), txs, entries, order, m - 1));
    }
    if n < txs.len() && n < 100 {
        lemma_order_sums(entries, txs, order.take(n + 1));
        assert(refused(n + 1));
    }
    order
}

/// No disposal is passed over for one that pays a higher rate: each that is left in the mempool
/// pays at least the rate of each that is merged.
pub proof fn lemma_lowest_rates_merged(
    dust: Seq<LocalOutputView>,
    txs: Seq<TransactionView>,
    entries: Seq<MempoolEntry>,
    left: int,
    k: int,
)
    requires
        dust.len() > 0,
        batch_input(entries, dust, txs),
        0 <= left < txs.len(),
        !batch_of(dust, txs, entries).contains(txs[left]),
        0 <= k < batch_of(dust, txs, entries).len(),
    ensures
        exists|i: int|
            0 <= i < txs.len() && #[trigger] txs[i] == batch_of(dust, txs, entries)[k]
                && entries[i].fee * entries[left].vsize <= entries[left].fee * entries[i].vsize,
{
    let order = lemma_merged_are_all_that_may(dust, txs, entries);
    let batch = batch_of(dust, txs, entries);
    assert(order.contains(left));
    let l = choose|l: int| 0 <= l < order.len() && order[l] == left;
    if l < batch.len() {
        assert(batch[l] == txs[left]);
    }
    let i = order[k];
    assert(txs[i] == batch[k]);
    assert(order[k] == i && order[l] == left);
}

/// What is merged depends on the dust by its value and its estimated size alone, not by how many
/// outputs it is.
pub proof fn lemma_merging_goes_by_value(
    first: Seq<LocalOutputView>,
    second: Seq<LocalOutputView>,
    txs: Seq<TransactionView>,
    entries: Seq<MempoolEntry>,
)
    requires
        first.len() > 0,
        second.len() > 0,
        txs.len() > 0,
        batch_input(entries, first, txs),
        batch_input(entries, second, txs),
        total_value(first) == total_value(second),
        estimated_sizes(first) == estimated_sizes(second),
    ensures
        batch_of(first, txs, entries) == batch_of(second, txs, entries),
{
    lemma_batch_exists(first, txs, entries);
    lemma_batch_exists(second, txs, entries);
    let burn = txs[0].output[0].script_pubkey;
    assert(own_size(first, burn) == own_size(second, burn));
    let (a, b) = (batch_of(first, txs, entries), batch_of(second, txs, entries));
    assert(is_batch(b, first, txs, entries));
    lemma_batch_unique(a, b, first, txs, entries);
}

/// Dust that is worth more at the same size merges whatever dust that is worth less does.
pub proof fn lemma_more_value_merges_more(
    poor: Seq<LocalOutputView>,
    rich: Seq<LocalOutputView>,
    txs: Seq<TransactionView>,
    entries: Seq<MempoolEntry>,
)
    requires
        poor.len() > 0,
        rich.len() > 0,
        txs.len() > 0,
        batch_input(entries, poor, txs),
        batch_input(entries, rich, txs),
        total_value(poor) <= total_value(rich),
        estimated_sizes(poor) == estimated_sizes(rich),
    ensures
        batch_of(poor, txs, entries).len() <= batch_of(rich, txs, entries).len(),
        batch_of(poor, txs, entries).is_prefix_of(batch_of(rich, txs, entries)),
{
    lemma_batch_exists(poor, txs, entries);
    lemma_batch_exists(rich, txs, entries);
    let order = rate_order(entries);
    let burn = txs[0].output[0].script_pubkey;
    let own = own_size(poor, burn);
    let (a, b) = (batch_of(poor, txs, entries), batch_of(rich, txs, entries));
    if b.len() < a.len() {
        let n = b.len() as int;
        assert(may_merge(total_value(poor), own, txs, entries, order, n));
        let entry = entries[order[n]];
        let low = merged_fee(total_value(poor), entries, order.take(n + 1));
        let high = merged_fee(total_value(rich), entries, order.take(n + 1));
        let v = entry.vsize as int;
        assert(4 * low * v <= 4 * high * v) by (nonlinear_arith)
            requires
                low <= high,
                v >= 0,
        ;
        assert(may_merge(total_value(rich), own, txs, entries, order, n));
    }
    assert(a =~= b.take(a.len() as int));
}

/// A hundred transactions are merged at most, and without dust or disposals none is.
pub proof fn lemma_merging_limits(
    dust: Seq<LocalOutputView>,
    txs: Seq<TransactionView>,
    entries: Seq<MempoolEntry>,
)
    ensures
        MAX_REPLACED == 100,
        dust.len() == 0 || txs.len() == 0 ==> batch_of(dust, txs, entries).len() == 0,
{
}

} // verus!
