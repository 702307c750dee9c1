//! What holds of every coin selection of a wallet.

use crate::cache::keyed_by_outpoint;
use crate::coin_selector::{
    change_waste, implied_fee, lowest_fee_selection, varint_size, FeeRate, Target,
    INPUT_BASE_WEIGHT,
};
use crate::error::{WalletError, WalletErrorView};
use crate::keys::script_text;
use crate::listing::{coins_of_kind, is_of_kind, CoinKind};
use crate::pile::{coin_count, coin_value, coin_weight, is_pile_outcome, prefix_sum, PileUtxo};
use crate::pile_laws::{
    distinct_outpoints, is_reused, law_address_mates_are_spent_together, law_failure_means_shortage,
    law_linked_coins_are_spent_first, law_manual_coins_are_spent, law_selection_covers_the_target,
    law_spends_nothing_twice, lemma_search_chooses, masked, single_candidates, spent_coins,
    weight_with_inputs,
};
use crate::spend::{
    any_manual, are_coins_at, available, available_regular, available_swap, falls_short, is_available,
    is_coin_selection, is_outcome, is_payable, is_pile_coin, is_pile_of, is_selectable,
    lemma_available_value, lemma_kind_count, lemma_pile_in_range, long_term_feerate,
    outpoints_or_none, selection_policy, selection_target, selects,
};
use crate::store::StoreView;
use crate::table::{keys_distinct, Rows};
use crate::types::OutPoint;
use crate::utxo::{coins_value, coins_view, Coin, CoinView};
use crate::wallet::Wallet;
use bdk_coin_select::{Candidate, ChangePolicy, DrainWeights, TargetOutputs};
use vstd::prelude::*;

verus! {

/// No two coins of a list have the same outpoint.
pub open spec fn distinct_coins(coins: Seq<CoinView>) -> bool {
    forall|i: int, j: int|
        0 <= i < j < coins.len() ==> (#[trigger] coins[i]).0.outpoint() != (
        #[trigger] coins[j]).0.outpoint()
}

/// A list holds coins of a kind that are cached.
spec fn are_cached(cache: Rows<OutPoint, CoinView>, kind: CoinKind, coins: Seq<CoinView>) -> bool {
    forall|i: int|
        0 <= i < coins.len() ==> is_of_kind((#[trigger] coins[i]).1, kind) && cache.contains(
            (coins[i].0.outpoint(), coins[i]),
        )
}

proof fn lemma_kind_coins(cache: Rows<OutPoint, CoinView>, kind: CoinKind)
    requires
        keys_distinct(cache),
        keyed_by_outpoint(cache),
    ensures
        are_cached(cache, kind, coins_of_kind(cache, kind)),
        distinct_coins(coins_of_kind(cache, kind)),
    decreases cache.len(),
{
    if cache.len() > 0 {
        let (less, last) = (cache.drop_last(), cache.last());
        assert forall|i: int| 0 <= i < less.len() implies #[trigger] less[i] == cache[i] by {}
        lemma_kind_coins(less, kind);
        let rest = coins_of_kind(less, kind);
        let coins = coins_of_kind(cache, kind);
        assert forall|i: int| 0 <= i < rest.len() implies cache.contains(
            ((#[trigger] rest[i]).0.outpoint(), rest[i]),
        ) && rest[i].0.outpoint() != last.0 by {
            let row = (rest[i].0.outpoint(), rest[i]);
            assert(less.contains(row));
            let j = choose|j: int| 0 <= j < less.len() && less[j] == row;
            assert(cache[j] == row);
            assert(cache[cache.len() - 1] == last);
        }
        assert(cache[cache.len() - 1] == last);
        assert(last.1.0.outpoint() == last.0);
        if is_of_kind(last.1.1, kind) {
            assert(cache.contains(last));
            assert forall|i: int| 0 <= i < coins.len() implies is_of_kind(
                (#[trigger] coins[i]).1,
                kind,
            ) && cache.contains((coins[i].0.outpoint(), coins[i])) by {
                if i < rest.len() {
                    assert(coins[i] == rest[i]);
                }
            }
            assert forall|i: int, j: int| 0 <= i < j < coins.len() implies (
            #[trigger] coins[i]).0.outpoint() != (#[trigger] coins[j]).0.outpoint() by {
                assert(coins[i] == rest[i]);
                if j < rest.len() {
                    assert(coins[j] == rest[j]);
                }
            }
        }
    }
}

proof fn lemma_available_coins(
    coins: Seq<CoinView>,
    locked: Seq<OutPoint>,
    excluded: Seq<OutPoint>,
)
    ensures
        forall|i: int|
            0 <= i < available(coins, locked, excluded).len() ==> is_available(
                #[trigger] available(coins, locked, excluded)[i],
                locked,
                excluded,
            ) && coins.contains(available(coins, locked, excluded)[i]),
        distinct_coins(coins) ==> distinct_coins(available(coins, locked, excluded)),
    decreases coins.len(),
{
    if coins.len() > 0 {
        let (less, last) = (coins.drop_last(), coins.last());
        lemma_available_coins(less, locked, excluded);
        let rest = available(less, locked, excluded);
        let kept = available(coins, locked, excluded);
        assert(coins[coins.len() - 1] == last);
        assert(coins.contains(last));
        assert forall|i: int| 0 <= i < rest.len() implies coins.contains(#[trigger] rest[i]) by {
            let j = choose|j: int| 0 <= j < less.len() && less[j] == rest[i];
            assert(coins[j] == rest[i]);
        }
        if is_available(last, locked, excluded) {
            assert forall|i: int| 0 <= i < kept.len() implies is_available(
                #[trigger] kept[i],
                locked,
                excluded,
            ) && coins.contains(kept[i]) by {
                if i < rest.len() {
                    assert(kept[i] == rest[i]);
                }
            }
            if distinct_coins(coins) {
                assert(distinct_coins(less)) by {
                    assert forall|i: int, j: int| 0 <= i < j < less.len() implies (
                    #[trigger] less[i]).0.outpoint() != (#[trigger] less[j]).0.outpoint() by {
                        assert(less[i] == coins[i] && less[j] == coins[j]);
                    }
                }
                assert forall|i: int, j: int| 0 <= i < j < kept.len() implies (
                #[trigger] kept[i]).0.outpoint() != (#[trigger] kept[j]).0.outpoint() by {
                    assert(kept[i] == rest[i]);
                    if j < rest.len() {
                        assert(kept[j] == rest[j]);
                    } else {
                        let k = choose|k: int| 0 <= k < less.len() && less[k] == rest[i];
                        assert(coins[k] == rest[i]);
                    }
                }
            }
        } else if distinct_coins(coins) {
            assert(distinct_coins(less)) by {
                assert forall|i: int, j: int| 0 <= i < j < less.len() implies (
                #[trigger] less[i]).0.outpoint() != (#[trigger] less[j]).0.outpoint() by {
                    assert(less[i] == coins[i] && less[j] == coins[j]);
                }
            }
        }
    }
}

/// Regular coins and swap coins are never spent together.
pub proof fn law_kinds_are_never_mixed(
    regular: Seq<CoinView>,
    swap: Seq<CoinView>,
    manual: Seq<OutPoint>,
    amount: u64,
    feerate: FeeRate,
    selected: Seq<CoinView>,
)
    requires
        is_coin_selection(regular, swap, manual, amount, feerate, Ok(selected)),
    ensures
        (forall|i: int| 0 <= i < selected.len() ==> regular.contains(#[trigger] selected[i])) || (
        forall|i: int| 0 <= i < selected.len() ==> swap.contains(#[trigger] selected[i])),
{
}

/// Every selected coin is a cached coin of the seed or a swept coin that is confirmed, not locked
/// and not excluded.
pub proof fn law_selected_coins_are_available(
    store: StoreView,
    locked: Seq<OutPoint>,
    excluded: Seq<OutPoint>,
    manual: Seq<OutPoint>,
    amount: u64,
    feerate: FeeRate,
    selected: Seq<CoinView>,
    i: int,
)
    requires
        store.well_formed(),
        is_coin_selection(
            available_regular(store, locked, excluded),
            available_swap(store, locked, excluded),
            manual,
            amount,
            feerate,
            Ok(selected),
        ),
        0 <= i < selected.len(),
    ensures
        is_available(selected[i], locked, excluded),
        selected[i].1 is SeedCoin || selected[i].1 is SweptCoin,
        store.utxo_cache.contains((selected[i].0.outpoint(), selected[i])),
{
    let regular = available_regular(store, locked, excluded);
    let swap = available_swap(store, locked, excluded);
    law_kinds_are_never_mixed(regular, swap, manual, amount, feerate, selected);
    let kind = if forall|i: int|
        0 <= i < selected.len() ==> regular.contains(#[trigger] selected[i]) {
        CoinKind::Descriptor
    } else {
        CoinKind::Swept
    };
    let all = coins_of_kind(store.utxo_cache, kind);
    let coins = available(all, locked, excluded);
    assert(coins.contains(selected[i]));
    lemma_kind_coins(store.utxo_cache, kind);
    lemma_available_coins(all, locked, excluded);
    let k = choose|k: int| 0 <= k < coins.len() && coins[k] == selected[i];
    assert(all.contains(coins[k]));
    let m = choose|m: int| 0 <= m < all.len() && all[m] == coins[k];
    assert(is_of_kind(all[m].1, kind));
}

proof fn lemma_pile_distinct(pile: Seq<PileUtxo>, coins: Seq<CoinView>, manual: Seq<OutPoint>)
    requires
        is_pile_of(pile, coins, manual),
        distinct_coins(coins),
    ensures
        distinct_outpoints(pile),
{
    assert forall|i: int, j: int| 0 <= i < j < pile.len() implies (#[trigger] pile[i]).outpoint != (
    #[trigger] pile[j]).outpoint by {
        assert(is_pile_coin(pile[i], coins[i], manual));
        assert(is_pile_coin(pile[j], coins[j], manual));
        assert(coins[i].0.outpoint() != coins[j].0.outpoint());
    }
}

/// A coin that was asked for and may be spent is selected.
pub proof fn law_manual_coin_is_selected(
    regular: Seq<CoinView>,
    swap: Seq<CoinView>,
    manual: Seq<OutPoint>,
    amount: u64,
    feerate: FeeRate,
    selected: Seq<CoinView>,
    coin: CoinView,
)
    requires
        regular.len() <= usize::MAX,
        swap.len() <= usize::MAX,
        is_coin_selection(regular, swap, manual, amount, feerate, Ok(selected)),
        regular.contains(coin) || swap.contains(coin),
        manual.contains(coin.0.outpoint()),
    ensures
        exists|i: int|
            0 <= i < selected.len() && (#[trigger] selected[i]).0.outpoint() == coin.0.outpoint(),
{
    let coins = if regular.contains(coin) {
        regular
    } else {
        swap
    };
    let k = choose|k: int| 0 <= k < coins.len() && coins[k] == coin;
    assert(manual.contains(coins[k].0.outpoint()));
    assert(any_manual(coins, manual));
    assert(selects(coins, manual, amount, feerate, selected));
    let outpoints = choose|outpoints: Seq<OutPoint>| #[trigger]
        is_outcome(coins, manual, amount, feerate, Ok(outpoints)) && are_coins_at(
            coins,
            outpoints,
            selected,
        );
    let target = selection_target(amount, feerate);
    let policy = selection_policy(feerate);
    let pile = choose|pile: Seq<PileUtxo>| #[trigger]
        is_pile_of(pile, coins, manual) && is_pile_outcome(
            pile,
            target,
            long_term_feerate(),
            policy,
            Ok(outpoints),
        );
    assert(is_pile_coin(pile[k], coins[k], manual));
    law_manual_coins_are_spent(pile, target, long_term_feerate(), policy, outpoints, k);
    let i = choose|i: int| 0 <= i < outpoints.len() && outpoints[i] == pile[k].outpoint;
    assert(selected[i].0.outpoint() == outpoints[i]);
}

/// A sum of which one more member is kept.
proof fn lemma_prefix_sum_one_more(
    f: spec_fn(usize) -> nat,
    less: spec_fn(usize) -> bool,
    more: spec_fn(usize) -> bool,
    n: nat,
    j: usize,
)
    requires
        n <= usize::MAX,
        !less(j),
        more(j),
        forall|k: usize| k < n && k != j ==> (#[trigger] less(k)) == more(k),
    ensures
        prefix_sum(masked(f, more), n) == prefix_sum(masked(f, less), n) + if j < n {
            f(j)
        } else {
            0
        },
    decreases n,
{
    if n > 0 {
        let k = (n - 1) as usize;
        lemma_prefix_sum_one_more(f, less, more, (n - 1) as nat, j);
        if k != j {
            assert(less(k) == more(k));
        }
    }
}

proof fn lemma_prefix_sum_none(f: spec_fn(usize) -> nat, keep: spec_fn(usize) -> bool, n: nat)
    requires
        n <= usize::MAX,
        forall|k: usize| k < n ==> !#[trigger] keep(k),
    ensures
        prefix_sum(masked(f, keep), n) == 0,
    decreases n,
{
    if n > 0 {
        lemma_prefix_sum_none(f, keep, (n - 1) as nat);
        assert(!keep((n - 1) as usize));
    }
}

/// The sum of `g` over a list of coins.
pub open spec fn coins_sum(coins: Seq<CoinView>, g: spec_fn(CoinView) -> nat) -> nat
    decreases coins.len(),
{
    if coins.len() == 0 {
        0
    } else {
        coins_sum(coins.drop_last(), g) + g(coins.last())
    }
}

/// The weight of a coin that is spent as an input.
pub open spec fn input_weight() -> spec_fn(CoinView) -> nat {
    |coin: CoinView| (INPUT_BASE_WEIGHT + coin.1.witness_size()) as nat
}

/// The weight of the transaction that spends these coins and pays an amount.
pub open spec fn payment_weight(selected: Seq<CoinView>, amount: u64, feerate: FeeRate) -> nat {
    weight_with_inputs(
        selected.len(),
        coins_sum(selected, input_weight()),
        selection_target(amount, feerate).outputs,
    )
}

/// A sum over the selected coins is the sum over the spent coins of the pile.
proof fn lemma_selected_sum(
    pile: Seq<PileUtxo>,
    coins: Seq<CoinView>,
    manual: Seq<OutPoint>,
    outpoints: Seq<OutPoint>,
    selected: Seq<CoinView>,
    f: spec_fn(usize) -> nat,
    g: spec_fn(CoinView) -> nat,
)
    requires
        pile.len() <= usize::MAX,
        is_pile_of(pile, coins, manual),
        distinct_coins(coins),
        outpoints.no_duplicates(),
        are_coins_at(coins, outpoints, selected),
        forall|j: usize| j < coins.len() ==> #[trigger] f(j) == g(coins[j as int]),
    ensures
        coins_sum(selected, g) == prefix_sum(
            masked(f, spent_coins(pile, outpoints)),
            pile.len(),
        ),
    decreases outpoints.len(),
{
    let keep = spent_coins(pile, outpoints);
    if outpoints.len() == 0 {
        lemma_prefix_sum_none(f, keep, pile.len());
    } else {
        let (fewer, last) = (outpoints.drop_last(), outpoints.last());
        let front = selected.drop_last();
        assert(fewer.no_duplicates());
        assert(are_coins_at(coins, fewer, front)) by {
            assert forall|i: int| 0 <= i < front.len() implies coins.contains(#[trigger] front[i])
                && front[i].0.outpoint() == fewer[i] by {
                assert(front[i] == selected[i]);
            }
        }
        lemma_selected_sum(pile, coins, manual, fewer, front, f, g);
        let coin = selected[selected.len() - 1];
        assert(coins.contains(coin) && coin.0.outpoint() == last);
        let j = choose|j: int| 0 <= j < coins.len() && coins[j] == coin;
        assert(is_pile_coin(pile[j], coins[j], manual));
        assert(f(j as usize) == g(coins[j]));
        let less = spent_coins(pile, fewer);
        assert(outpoints[outpoints.len() - 1] == last);
        assert(outpoints.contains(last));
        assert(!fewer.contains(last)) by {
            if fewer.contains(last) {
                let i = choose|i: int| 0 <= i < fewer.len() && fewer[i] == last;
                assert(outpoints[i] == last);
            }
        }
        assert forall|k: usize| k < pile.len() && k != j implies (#[trigger] less(k)) == keep(
            k,
        ) by {
            assert(is_pile_coin(pile[k as int], coins[k as int], manual));
            let o = pile[k as int].outpoint;
            assert(o != last) by {
                if k < j {
                    assert(coins[k as int].0.outpoint() != coins[j].0.outpoint());
                } else {
                    assert(coins[j].0.outpoint() != coins[k as int].0.outpoint());
                }
            }
            if fewer.contains(o) {
                let i = choose|i: int| 0 <= i < fewer.len() && fewer[i] == o;
                assert(outpoints[i] == o);
            }
            if outpoints.contains(o) {
                let i = choose|i: int| 0 <= i < outpoints.len() && outpoints[i] == o;
                assert(fewer[i] == o);
            }
        }
        lemma_prefix_sum_one_more(f, less, keep, pile.len(), j as usize);
    }
}

proof fn lemma_sum_is_value(coins: Seq<CoinView>)
    ensures
        coins_sum(coins, |coin: CoinView| coin.0.amount as nat) == coins_value(coins),
        coins_sum(coins, |coin: CoinView| 1nat) == coins.len(),
    decreases coins.len(),
{
    if coins.len() > 0 {
        lemma_sum_is_value(coins.drop_last());
    }
}

proof fn lemma_masked_is_less(f: spec_fn(usize) -> nat, keep: spec_fn(usize) -> bool, n: nat)
    ensures
        prefix_sum(masked(f, keep), n) <= prefix_sum(f, n),
    decreases n,
{
    if n > 0 {
        lemma_masked_is_less(f, keep, (n - 1) as nat);
    }
}

/// The selected coins are worth no more than all coins of their kind.
pub proof fn lemma_selection_value(
    store: StoreView,
    locked: Seq<OutPoint>,
    excluded: Seq<OutPoint>,
    manual: Seq<OutPoint>,
    amount: u64,
    feerate: FeeRate,
    selected: Seq<CoinView>,
)
    requires
        store.well_formed(),
        is_selectable(store),
        is_payable(amount, feerate),
        is_coin_selection(
            available_regular(store, locked, excluded),
            available_swap(store, locked, excluded),
            manual,
            amount,
            feerate,
            Ok(selected),
        ),
    ensures
        coins_value(selected) < 0x4000_0000_0000_0000,
{
    let regular = available_regular(store, locked, excluded);
    let kind = if selects(regular, manual, amount, feerate, selected) {
        CoinKind::Descriptor
    } else {
        CoinKind::Swept
    };
    let all = coins_of_kind(store.utxo_cache, kind);
    let coins = available(all, locked, excluded);
    assert(selects(coins, manual, amount, feerate, selected));
    lemma_kind_coins(store.utxo_cache, kind);
    lemma_kind_count(store.utxo_cache, kind);
    lemma_available_coins(all, locked, excluded);
    lemma_available_value(all, locked, excluded);
    let outpoints = choose|outpoints: Seq<OutPoint>| #[trigger]
        is_outcome(coins, manual, amount, feerate, Ok(outpoints)) && are_coins_at(
            coins,
            outpoints,
            selected,
        );
    let target = selection_target(amount, feerate);
    let policy = selection_policy(feerate);
    let pile = choose|pile: Seq<PileUtxo>| #[trigger]
        is_pile_of(pile, coins, manual) && is_pile_outcome(
            pile,
            target,
            long_term_feerate(),
            policy,
            Ok(outpoints),
        );
    lemma_pile_distinct(pile, coins, manual);
    lemma_pile_in_range(pile, coins, manual, amount, feerate);
    law_spends_nothing_twice(pile, target, long_term_feerate(), policy, outpoints);
    assert forall|j: usize| j < coins.len() implies #[trigger] coin_value(pile)(j)
        == coins[j as int].0.amount by {
        assert(is_pile_coin(pile[j as int], coins[j as int], manual));
    }
    lemma_selected_sum(
        pile,
        coins,
        manual,
        outpoints,
        selected,
        coin_value(pile),
        |coin: CoinView| coin.0.amount as nat,
    );
    lemma_sum_is_value(selected);
    lemma_masked_is_less(coin_value(pile), spent_coins(pile, outpoints), pile.len());
}

/// The selected coins are different coins of the wallet that pay for the amount and for the fee
/// of the transaction that spends them.
pub proof fn law_selected_coins_pay(
    store: StoreView,
    locked: Seq<OutPoint>,
    excluded: Seq<OutPoint>,
    manual: Seq<OutPoint>,
    amount: u64,
    feerate: FeeRate,
    selected: Seq<CoinView>,
)
    requires
        store.well_formed(),
        is_selectable(store),
        is_payable(amount, feerate),
        is_coin_selection(
            available_regular(store, locked, excluded),
            available_swap(store, locked, excluded),
            manual,
            amount,
            feerate,
            Ok(selected),
        ),
    ensures
        distinct_coins(selected),
        coins_value(selected) >= amount + implied_fee(
            feerate.sats,
            feerate.vbytes,
            payment_weight(selected, amount, feerate) as u64,
        ),
{
    let regular = available_regular(store, locked, excluded);
    let swap = available_swap(store, locked, excluded);
    let kind = if selects(regular, manual, amount, feerate, selected) {
        CoinKind::Descriptor
    } else {
        CoinKind::Swept
    };
    let all = coins_of_kind(store.utxo_cache, kind);
    let coins = available(all, locked, excluded);
    assert(selects(coins, manual, amount, feerate, selected));
    lemma_kind_coins(store.utxo_cache, kind);
    lemma_kind_count(store.utxo_cache, kind);
    lemma_available_coins(all, locked, excluded);
    lemma_available_value(all, locked, excluded);
    let outpoints = choose|outpoints: Seq<OutPoint>| #[trigger]
        is_outcome(coins, manual, amount, feerate, Ok(outpoints)) && are_coins_at(
            coins,
            outpoints,
            selected,
        );
    let target = selection_target(amount, feerate);
    let policy = selection_policy(feerate);
    let pile = choose|pile: Seq<PileUtxo>| #[trigger]
        is_pile_of(pile, coins, manual) && is_pile_outcome(
            pile,
            target,
            long_term_feerate(),
            policy,
            Ok(outpoints),
        );
    lemma_pile_distinct(pile, coins, manual);
    lemma_pile_in_range(pile, coins, manual, amount, feerate);
    law_spends_nothing_twice(pile, target, long_term_feerate(), policy, outpoints);
    law_selection_covers_the_target(pile, target, long_term_feerate(), policy, outpoints);
    assert forall|j: usize| j < coins.len() implies #[trigger] coin_value(pile)(j)
        == coins[j as int].0.amount && coin_weight(pile)(j) == input_weight()(coins[j as int]) by {
        assert(is_pile_coin(pile[j as int], coins[j as int], manual));
    }
    assert forall|j: usize| j < coins.len() implies #[trigger] coin_weight(pile)(j)
        == input_weight()(coins[j as int]) by {
        assert(coin_value(pile)(j) == coins[j as int].0.amount);
    }
    lemma_selected_sum(
        pile,
        coins,
        manual,
        outpoints,
        selected,
        coin_value(pile),
        |coin: CoinView| coin.0.amount as nat,
    );
    lemma_selected_sum(
        pile,
        coins,
        manual,
        outpoints,
        selected,
        coin_weight(pile),
        input_weight(),
    );
    lemma_selected_sum(
        pile,
        coins,
        manual,
        outpoints,
        selected,
        coin_count(),
        |coin: CoinView| 1nat,
    );
    lemma_sum_is_value(selected);
    assert forall|i: int, j: int| 0 <= i < j < selected.len() implies (
    #[trigger] selected[i]).0.outpoint() != (#[trigger] selected[j]).0.outpoint() by {
        assert(outpoints[i] != outpoints[j]);
    }
}

// ---------------------------------------------------------------------------------------------
// Selection by the coins of the wallet
// ---------------------------------------------------------------------------------------------

/// The cached coins of the seed, or those of swaps, that may be spent: confirmed, neither locked nor
/// excluded.
pub open spec fn spendable(
    cache: Rows<OutPoint, CoinView>,
    swept: bool,
    locked: Seq<OutPoint>,
    excluded: Seq<OutPoint>,
) -> Seq<CoinView>
    decreases cache.len(),
{
    if cache.len() == 0 {
        Seq::empty()
    } else {
        let (rest, coin) = (
            spendable(cache.drop_last(), swept, locked, excluded),
            cache.last().1,
        );
        if (if swept {
            coin.1 is SweptCoin
        } else {
            coin.1 is SeedCoin
        }) && coin.0.confirmations >= 1 && !locked.contains(coin.0.outpoint())
            && !excluded.contains(coin.0.outpoint()) {
            rest.push(coin)
        } else {
            rest
        }
    }
}

proof fn lemma_spendable(
    cache: Rows<OutPoint, CoinView>,
    swept: bool,
    locked: Seq<OutPoint>,
    excluded: Seq<OutPoint>,
)
    ensures
        spendable(cache, swept, locked, excluded) == available(
            coins_of_kind(
                cache,
                if swept {
                    CoinKind::Swept
                } else {
                    CoinKind::Descriptor
                },
            ),
            locked,
            excluded,
        ),
    decreases cache.len(),
{
    if cache.len() > 0 {
        let kind = if swept {
            CoinKind::Swept
        } else {
            CoinKind::Descriptor
        };
        lemma_spendable(cache.drop_last(), swept, locked, excluded);
        let (less, last) = (coins_of_kind(cache.drop_last(), kind), cache.last().1);
        if is_of_kind(last.1, kind) {
            assert(less.push(last).drop_last() =~= less);
            assert(coins_of_kind(cache, kind) == less.push(last));
        }
    }
}

/// What spending coins on five taproot outputs weighs: version and lock time, the numbers of inputs
/// and outputs, marker and flag, five outputs of 172 units each, and for each coin 164 units and its
/// witness.
pub open spec fn weight_of_spending(coins: Seq<CoinView>) -> nat {
    32 + 4 * varint_size(coins.len()) + coins_sum(
        coins,
        |coin: CoinView| (164 + coin.1.witness_size()) as nat,
    ) + (if coins.len() > 0 {
        2nat
    } else {
        0
    }) + 4 + 5 * 172
}

/// The coins that were asked for, or none.
pub open spec fn asked_for(manual: Option<Vec<OutPoint>>, outpoint: OutPoint) -> bool {
    manual matches Some(list) && list@.contains(outpoint)
}

/// Whatever is selected pays: the coins are different cached coins, all of the seed or all of swaps,
/// confirmed, neither locked nor excluded, and they are worth the amount and the fee of spending them
/// on five outputs at the rate.
pub proof fn law_selection_pays(
    wallet: Wallet,
    amount: u64,
    feerate: FeeRate,
    manual: Option<Vec<OutPoint>>,
    excluded: Option<Vec<OutPoint>>,
    locked: Vec<OutPoint>,
    r: Vec<Coin>,
)
    requires
        wallet@.well_formed(),
        is_selectable(wallet@),
        is_payable(amount, feerate),
        call_ensures(
            Wallet::coin_select,
            (&wallet, amount, feerate, manual, excluded, &locked),
            Ok(r),
        ),
    ensures
        ({
            let coins = coins_view(r@);
            &&& coins_value(coins) >= amount + implied_fee(
                feerate.sats,
                feerate.vbytes,
                weight_of_spending(coins) as u64,
            )
            &&& forall|i: int|
                0 <= i < coins.len() ==> {
                    &&& wallet@.utxo_cache.contains(((#[trigger] coins[i]).0.outpoint(), coins[i]))
                    &&& coins[i].0.confirmations >= 1
                    &&& !locked@.contains(coins[i].0.outpoint())
                    &&& !asked_for(excluded, coins[i].0.outpoint())
                    &&& coins[i].1 is SeedCoin || coins[i].1 is SweptCoin
                    &&& coins[i].1 is SeedCoin <==> coins[0].1 is SeedCoin
                }
            &&& forall|i: int, j: int|
                0 <= i < j < coins.len() ==> (#[trigger] coins[i]).0.outpoint() != (
                #[trigger] coins[j]).0.outpoint()
        }),
{
    let left = outpoints_or_none(excluded);
    let coins = coins_view(r@);
    lemma_selection_pays(
        wallet@,
        locked@,
        left,
        outpoints_or_none(manual),
        amount,
        feerate,
        coins,
    );
    assert forall|i: int| 0 <= i < coins.len() implies !asked_for(
        excluded,
        (#[trigger] coins[i]).0.outpoint(),
    ) by {
        assert(!left.contains(coins[i].0.outpoint()));
    }
}

pub(crate) proof fn lemma_selection_pays(
    store: StoreView,
    locked: Seq<OutPoint>,
    excluded: Seq<OutPoint>,
    manual: Seq<OutPoint>,
    amount: u64,
    feerate: FeeRate,
    coins: Seq<CoinView>,
)
    requires
        store.well_formed(),
        is_selectable(store),
        is_payable(amount, feerate),
        is_coin_selection(
            available_regular(store, locked, excluded),
            available_swap(store, locked, excluded),
            manual,
            amount,
            feerate,
            Ok(coins),
        ),
    ensures
        coins_value(coins) >= amount + implied_fee(
            feerate.sats,
            feerate.vbytes,
            weight_of_spending(coins) as u64,
        ),
        distinct_coins(coins),
        forall|i: int|
            0 <= i < coins.len() ==> {
                &&& store.utxo_cache.contains(((#[trigger] coins[i]).0.outpoint(), coins[i]))
                &&& coins[i].0.confirmations >= 1
                &&& !locked.contains(coins[i].0.outpoint())
                &&& !excluded.contains(coins[i].0.outpoint())
                &&& coins[i].1 is SeedCoin || coins[i].1 is SweptCoin
                &&& coins[i].1 is SeedCoin <==> coins[0].1 is SeedCoin
            },
{
    law_selected_coins_pay(store, locked, excluded, manual, amount, feerate, coins);
    assert(input_weight() =~= |coin: CoinView| (164 + coin.1.witness_size()) as nat);
    let (regular, swap) = (
        available_regular(store, locked, excluded),
        available_swap(store, locked, excluded),
    );
    law_kinds_are_never_mixed(regular, swap, manual, amount, feerate, coins);
    assert forall|i: int| 0 <= i < coins.len() implies {
        &&& store.utxo_cache.contains(((#[trigger] coins[i]).0.outpoint(), coins[i]))
        &&& coins[i].0.confirmations >= 1
        &&& !locked.contains(coins[i].0.outpoint())
        &&& !excluded.contains(coins[i].0.outpoint())
        &&& coins[i].1 is SeedCoin || coins[i].1 is SweptCoin
        &&& coins[i].1 is SeedCoin <==> coins[0].1 is SeedCoin
    } by {
        law_selected_coins_are_available(
            store,
            locked,
            excluded,
            manual,
            amount,
            feerate,
            coins,
            i,
        );
        let kind = if forall|i: int|
            0 <= i < coins.len() ==> regular.contains(#[trigger] coins[i]) {
            CoinKind::Descriptor
        } else {
            CoinKind::Swept
        };
        lemma_kind_of(store.utxo_cache, kind, locked, excluded, coins[i]);
        lemma_kind_of(store.utxo_cache, kind, locked, excluded, coins[0]);
    }
}

proof fn lemma_kind_of(
    cache: Rows<OutPoint, CoinView>,
    kind: CoinKind,
    locked: Seq<OutPoint>,
    excluded: Seq<OutPoint>,
    coin: CoinView,
)
    requires
        keys_distinct(cache),
        keyed_by_outpoint(cache),
        available(coins_of_kind(cache, kind), locked, excluded).contains(coin),
    ensures
        is_of_kind(coin.1, kind),
{
    let all = coins_of_kind(cache, kind);
    let coins = available(all, locked, excluded);
    lemma_kind_coins(cache, kind);
    lemma_available_coins(all, locked, excluded);
    let k = choose|k: int| 0 <= k < coins.len() && coins[k] == coin;
    assert(all.contains(coins[k]));
    let m = choose|m: int| 0 <= m < all.len() && all[m] == coins[k];
    assert(is_of_kind(all[m].1, kind));
}

/// The coins of the seed come first: where all that may be spent are worth the amount and the fee of
/// spending them, and no coin of a swap was asked for, selection succeeds with coins of the seed.
pub proof fn law_seed_coins_come_first(
    wallet: Wallet,
    amount: u64,
    feerate: FeeRate,
    manual: Option<Vec<OutPoint>>,
    excluded: Option<Vec<OutPoint>>,
    locked: Vec<OutPoint>,
    r: Result<Vec<Coin>, WalletError>,
)
    requires
        wallet@.well_formed(),
        is_selectable(wallet@),
        is_payable(amount, feerate),
        amount > 0,
        call_ensures(Wallet::coin_select, (&wallet, amount, feerate, manual, excluded, &locked), r),
        ({
            let left = outpoints_or_none(excluded);
            let seed = spendable(wallet@.utxo_cache, false, locked@, left);
            let swept = spendable(wallet@.utxo_cache, true, locked@, left);
            &&& coins_value(seed) >= amount + implied_fee(
                feerate.sats,
                feerate.vbytes,
                weight_of_spending(seed) as u64,
            )
            &&& forall|i: int|
                0 <= i < swept.len() ==> !asked_for(manual, (#[trigger] swept[i]).0.outpoint())
        }),
    ensures
        r is Ok,
        r->Ok_0@.len() > 0,
        forall|i: int| 0 <= i < r->Ok_0@.len() ==> (#[trigger] r->Ok_0@[i]).1@ is SeedCoin,
{
    let (held, left) = (locked@, outpoints_or_none(excluded));
    let asked = outpoints_or_none(manual);
    let result = match r {
        Ok(selected) => Ok(coins_view(selected@)),
        Err(e) => Err(e@),
    };
    lemma_spendable(wallet@.utxo_cache, true, held, left);
    assert(!any_manual(available_swap(wallet@, held, left), asked));
    lemma_seed_coins_are_selected(wallet@, held, left, asked, amount, feerate, result);
    assert forall|i: int| 0 <= i < r->Ok_0@.len() implies (
    #[trigger] r->Ok_0@[i]).1@ is SeedCoin by {
        assert(result->Ok_0[i].1 == r->Ok_0@[i].1@);
    }
}

pub(crate) proof fn lemma_seed_coins_are_selected(
    store: StoreView,
    locked: Seq<OutPoint>,
    excluded: Seq<OutPoint>,
    manual: Seq<OutPoint>,
    amount: u64,
    feerate: FeeRate,
    result: Result<Seq<CoinView>, WalletErrorView>,
)
    requires
        store.well_formed(),
        is_selectable(store),
        is_payable(amount, feerate),
        amount > 0,
        is_coin_selection(
            available_regular(store, locked, excluded),
            available_swap(store, locked, excluded),
            manual,
            amount,
            feerate,
            result,
        ),
        ({
            let seed = spendable(store.utxo_cache, false, locked, excluded);
            coins_value(seed) >= amount + implied_fee(
                feerate.sats,
                feerate.vbytes,
                weight_of_spending(seed) as u64,
            )
        }),
        !any_manual(available_swap(store, locked, excluded), manual),
    ensures
        result is Ok,
        result->Ok_0.len() > 0,
        coins_value(result->Ok_0) >= amount,
        forall|i: int|
            0 <= i < result->Ok_0.len() ==> (#[trigger] result->Ok_0[i]).1 is SeedCoin,
{
    lemma_spendable(store.utxo_cache, false, locked, excluded);
    let seed = available_regular(store, locked, excluded);
    assert(seed.len() > 0);
    lemma_all_coins_pay(store, CoinKind::Descriptor, locked, excluded, manual, amount, feerate);
    let coins = result->Ok_0;
    assert(selects(seed, manual, amount, feerate, coins));
    law_selected_coins_pay(store, locked, excluded, manual, amount, feerate, coins);
    assert forall|i: int| 0 <= i < coins.len() implies (#[trigger] coins[i]).1 is SeedCoin by {
        lemma_kind_of(store.utxo_cache, CoinKind::Descriptor, locked, excluded, coins[i]);
    }
}

/// Coins of one kind that pay for the amount and the fee of spending them all do not fall short, and
/// coins that fall short lack what the error says.
proof fn lemma_all_coins_pay(
    store: StoreView,
    kind: CoinKind,
    locked: Seq<OutPoint>,
    excluded: Seq<OutPoint>,
    manual: Seq<OutPoint>,
    amount: u64,
    feerate: FeeRate,
)
    requires
        store.well_formed(),
        is_selectable(store),
        is_payable(amount, feerate),
        kind is Descriptor || kind is Swept,
    ensures
        ({
            let coins = available(coins_of_kind(store.utxo_cache, kind), locked, excluded);
            forall|missing: int| #[trigger]
                falls_short(coins, manual, amount, feerate, missing) ==> missing > 0 && coins_value(
                    coins,
                ) + missing == amount + implied_fee(
                    feerate.sats,
                    feerate.vbytes,
                    weight_of_spending(coins) as u64,
                )
        }),
{
    let all = coins_of_kind(store.utxo_cache, kind);
    let coins = available(all, locked, excluded);
    lemma_kind_count(store.utxo_cache, kind);
    lemma_available_value(all, locked, excluded);
    assert forall|missing: int| #[trigger]
        falls_short(coins, manual, amount, feerate, missing) implies missing > 0 && coins_value(
        coins,
    ) + missing == amount + implied_fee(
        feerate.sats,
        feerate.vbytes,
        weight_of_spending(coins) as u64,
    ) by {
        let target = selection_target(amount, feerate);
        let policy = selection_policy(feerate);
        let pile = choose|pile: Seq<PileUtxo>| #[trigger]
            is_pile_of(pile, coins, manual) && is_pile_outcome(
                pile,
                target,
                long_term_feerate(),
                policy,
                Err(missing),
            );
        lemma_pile_in_range(pile, coins, manual, amount, feerate);
        law_failure_means_shortage(pile, target, long_term_feerate(), policy, missing);
        lemma_whole_sums(pile, coins, manual, pile.len());
        assert(coins.take(coins.len() as int) =~= coins);
    }
}

proof fn lemma_whole_sums(
    pile: Seq<PileUtxo>,
    coins: Seq<CoinView>,
    manual: Seq<OutPoint>,
    n: nat,
)
    requires
        is_pile_of(pile, coins, manual),
        n <= pile.len() <= usize::MAX,
    ensures
        prefix_sum(coin_value(pile), n) == coins_value(coins.take(n as int)),
        prefix_sum(coin_weight(pile), n) == coins_sum(
            coins.take(n as int),
            |coin: CoinView| (164 + coin.1.witness_size()) as nat,
        ),
    decreases n,
{
    if n > 0 {
        let m = (n - 1) as nat;
        lemma_whole_sums(pile, coins, manual, m);
        assert(coins.take(n as int).drop_last() =~= coins.take(m as int));
        assert(coins.take(n as int).last() == coins[m as int]);
        assert(is_pile_coin(pile[m as int], coins[m as int], manual));
    } else {
        assert(coins.take(0) =~= Seq::<CoinView>::empty());
    }
}

/// A failure for want of money says what is there and what it would take. Where no coin was asked
/// for, the coins of swaps are what is there, and neither they nor those of the seed are worth the
/// amount and the fee of spending all of a kind.
pub proof fn law_shortage_is_told(
    wallet: Wallet,
    amount: u64,
    feerate: FeeRate,
    excluded: Option<Vec<OutPoint>>,
    locked: Vec<OutPoint>,
    r: Result<Vec<Coin>, WalletError>,
)
    requires
        wallet@.well_formed(),
        is_selectable(wallet@),
        is_payable(amount, feerate),
        call_ensures(
            Wallet::coin_select,
            (&wallet, amount, feerate, None::<Vec<OutPoint>>, excluded, &locked),
            r,
        ),
        r is Err,
    ensures
        ({
            let left = outpoints_or_none(excluded);
            let seed = spendable(wallet@.utxo_cache, false, locked@, left);
            let swept = spendable(wallet@.utxo_cache, true, locked@, left);
            let fee = |coins: Seq<CoinView>|
                implied_fee(
                    feerate.sats,
                    feerate.vbytes,
                    weight_of_spending(coins) as u64,
                ) as int;
            r->Err_0@ matches WalletErrorView::InsufficientFund { available, required } && if seed.len()
                + swept.len() == 0 {
                available == 0 && required == amount
            } else {
                &&& coins_value(seed) < amount + fee(seed)
                &&& coins_value(swept) < amount + fee(swept)
                &&& available == coins_value(swept) as u64
                &&& required == (2 * amount + fee(swept) - coins_value(swept)) as u64
            }
        }),
{
    let (held, left) = (locked@, outpoints_or_none(excluded));
    lemma_spendable(wallet@.utxo_cache, false, held, left);
    lemma_spendable(wallet@.utxo_cache, true, held, left);
    let none = Seq::<OutPoint>::empty();
    lemma_all_coins_pay(wallet@, CoinKind::Descriptor, held, left, none, amount, feerate);
    lemma_all_coins_pay(wallet@, CoinKind::Swept, held, left, none, amount, feerate);
    assert(!any_manual(available_regular(wallet@, held, left), none));
    assert(!any_manual(available_swap(wallet@, held, left), none));
}

/// Coins of the seed and coins of swaps that were both asked for are refused.
pub proof fn law_asking_for_both_kinds_fails(
    wallet: Wallet,
    amount: u64,
    feerate: FeeRate,
    manual: Option<Vec<OutPoint>>,
    excluded: Option<Vec<OutPoint>>,
    locked: Vec<OutPoint>,
    r: Result<Vec<Coin>, WalletError>,
    i: int,
    j: int,
)
    requires
        wallet@.well_formed(),
        is_selectable(wallet@),
        is_payable(amount, feerate),
        call_ensures(Wallet::coin_select, (&wallet, amount, feerate, manual, excluded, &locked), r),
        ({
            let left = outpoints_or_none(excluded);
            let seed = spendable(wallet@.utxo_cache, false, locked@, left);
            let swept = spendable(wallet@.utxo_cache, true, locked@, left);
            &&& 0 <= i < seed.len() && asked_for(manual, seed[i].0.outpoint())
            &&& 0 <= j < swept.len() && asked_for(manual, swept[j].0.outpoint())
        }),
    ensures
        r matches Err(e) && e@ is General,
{
    let (held, left) = (locked@, outpoints_or_none(excluded));
    lemma_spendable(wallet@.utxo_cache, false, held, left);
    lemma_spendable(wallet@.utxo_cache, true, held, left);
}

/// A coin that was asked for and may be spent is among the selected coins, whatever else is.
pub proof fn law_what_was_asked_for_is_selected(
    wallet: Wallet,
    amount: u64,
    feerate: FeeRate,
    manual: Option<Vec<OutPoint>>,
    excluded: Option<Vec<OutPoint>>,
    locked: Vec<OutPoint>,
    r: Vec<Coin>,
    swept: bool,
    i: int,
)
    requires
        wallet@.well_formed(),
        is_selectable(wallet@),
        is_payable(amount, feerate),
        call_ensures(
            Wallet::coin_select,
            (&wallet, amount, feerate, manual, excluded, &locked),
            Ok(r),
        ),
        ({
            let coins = spendable(
                wallet@.utxo_cache,
                swept,
                locked@,
                outpoints_or_none(excluded),
            );
            0 <= i < coins.len() && asked_for(manual, coins[i].0.outpoint())
        }),
    ensures
        exists|k: int|
            0 <= k < r@.len() && (#[trigger] r@[k]).0@.outpoint() == spendable(
                wallet@.utxo_cache,
                swept,
                locked@,
                outpoints_or_none(excluded),
            )[i].0.outpoint(),
{
    let (held, left) = (locked@, outpoints_or_none(excluded));
    lemma_spendable(wallet@.utxo_cache, false, held, left);
    lemma_spendable(wallet@.utxo_cache, true, held, left);
    let coins = spendable(wallet@.utxo_cache, swept, held, left);
    let (regular, swap) = (
        available_regular(wallet@, held, left),
        available_swap(wallet@, held, left),
    );
    lemma_kind_count(wallet@.utxo_cache, CoinKind::Descriptor);
    lemma_kind_count(wallet@.utxo_cache, CoinKind::Swept);
    lemma_available_value(coins_of_kind(wallet@.utxo_cache, CoinKind::Descriptor), held, left);
    lemma_available_value(coins_of_kind(wallet@.utxo_cache, CoinKind::Swept), held, left);
    law_manual_coin_is_selected(
        regular,
        swap,
        outpoints_or_none(manual),
        amount,
        feerate,
        coins_view(r@),
        coins[i],
    );
    let k = choose|k: int|
        0 <= k < coins_view(r@).len() && (#[trigger] coins_view(r@)[k]).0.outpoint()
            == coins[i].0.outpoint();
    assert(r@[k].0@.outpoint() == coins[i].0.outpoint());
}

/// Coins that share an address, or a script where they have no address, and were not asked for are
/// selected together or not at all.
pub proof fn law_coins_on_one_address_go_together(
    wallet: Wallet,
    amount: u64,
    feerate: FeeRate,
    manual: Option<Vec<OutPoint>>,
    excluded: Option<Vec<OutPoint>>,
    locked: Vec<OutPoint>,
    r: Vec<Coin>,
    swept: bool,
    i: int,
    j: int,
)
    requires
        wallet@.well_formed(),
        is_selectable(wallet@),
        is_payable(amount, feerate),
        call_ensures(
            Wallet::coin_select,
            (&wallet, amount, feerate, manual, excluded, &locked),
            Ok(r),
        ),
        ({
            let coins = spendable(
                wallet@.utxo_cache,
                swept,
                locked@,
                outpoints_or_none(excluded),
            );
            &&& 0 <= i < coins.len() && !asked_for(manual, coins[i].0.outpoint())
            &&& 0 <= j < coins.len() && !asked_for(manual, coins[j].0.outpoint())
            &&& match (coins[i].0.address, coins[j].0.address) {
                (Some(a), Some(b)) => a == b,
                (None, None) => coins[i].0.script_pub_key == coins[j].0.script_pub_key,
                _ => false,
            }
        }),
    ensures
        ({
            let coins = spendable(
                wallet@.utxo_cache,
                swept,
                locked@,
                outpoints_or_none(excluded),
            );
            coins_view(r@).contains(coins[i]) <==> coins_view(r@).contains(coins[j])
        }),
{
    let left = outpoints_or_none(excluded);
    let asked = outpoints_or_none(manual);
    let selected = coins_view(r@);
    let coins = spendable(wallet@.utxo_cache, swept, locked@, left);
    if selected.contains(coins[i]) || selected.contains(coins[j]) {
        let (pile, outpoints) = lemma_pile_behind(
            wallet@,
            swept,
            locked@,
            left,
            asked,
            amount,
            feerate,
            selected,
            if selected.contains(coins[i]) {
                i
            } else {
                j
            },
        );
        assert(is_pile_coin(pile[i], coins[i], asked));
        assert(is_pile_coin(pile[j], coins[j], asked));
        law_address_mates_are_spent_together(
            pile,
            selection_target(amount, feerate),
            long_term_feerate(),
            selection_policy(feerate),
            outpoints,
            i,
            j,
        );
        lemma_selected_iff_spent(coins, outpoints, selected, i);
        lemma_selected_iff_spent(coins, outpoints, selected, j);
    }
}

/// A coin of the list is selected exactly where its outpoint is.
proof fn lemma_selected_iff_spent(
    coins: Seq<CoinView>,
    outpoints: Seq<OutPoint>,
    selected: Seq<CoinView>,
    i: int,
)
    requires
        distinct_coins(coins),
        are_coins_at(coins, outpoints, selected),
        0 <= i < coins.len(),
    ensures
        selected.contains(coins[i]) <==> outpoints.contains(coins[i].0.outpoint()),
{
    if selected.contains(coins[i]) {
        let k = choose|k: int| 0 <= k < selected.len() && selected[k] == coins[i];
        assert(outpoints[k] == coins[i].0.outpoint());
    }
    if outpoints.contains(coins[i].0.outpoint()) {
        let k = choose|k: int| 0 <= k < outpoints.len() && outpoints[k] == coins[i].0.outpoint();
        assert(coins.contains(selected[k]));
        let m = choose|m: int| 0 <= m < coins.len() && coins[m] == selected[k];
        if m < i {
            assert(coins[m].0.outpoint() != coins[i].0.outpoint());
        } else if i < m {
            assert(coins[i].0.outpoint() != coins[m].0.outpoint());
        }
    }
}

/// The coins as candidates: value, weight as an input, one input each.
pub open spec fn coin_candidates(coins: Seq<CoinView>, order: Seq<usize>) -> Seq<Candidate> {
    Seq::new(
        order.len(),
        |k: int|
            Candidate {
                value: coins[order[k] as int].0.amount,
                weight: (164 + coins[order[k] as int].1.witness_size()) as u64,
                input_count: 1,
                is_segwit: true,
            },
    )
}

/// Each coin once, the poorest first.
pub open spec fn orders_coins(coins: Seq<CoinView>, order: Seq<usize>) -> bool {
    &&& forall|k: int| 0 <= k < order.len() ==> #[trigger] order[k] < coins.len()
    &&& forall|k: int, l: int|
        0 <= k < l < order.len() ==> order[k] != order[l]
            && coins[#[trigger] order[k] as int].0.amount
            <= coins[#[trigger] order[l] as int].0.amount
    &&& forall|i: usize| i < coins.len() ==> #[trigger] order.contains(i)
}

/// What a coin may share with others: its address, or the text of its script where it has none.
pub open spec fn address_or_script(coin: CoinView) -> Seq<char> {
    if coin.0.address is Some {
        coin.0.address->0
    } else {
        "script_"@ + script_text(coin.0.script_pub_key)
    }
}

/// Where no coin was asked for and no two coins of the seed share an address, the selected coins are
/// those that the lowest-fee search finds among them, the poorest first: for five outputs at the
/// rate, with change that is worth 294 satoshis and its cost, spent at 10 satoshis a byte later on.
pub proof fn law_search_chooses_the_coins(
    wallet: Wallet,
    amount: u64,
    feerate: FeeRate,
    excluded: Option<Vec<OutPoint>>,
    locked: Vec<OutPoint>,
    r: Result<Vec<Coin>, WalletError>,
)
    requires
        wallet@.well_formed(),
        is_selectable(wallet@),
        is_payable(amount, feerate),
        amount > 0,
        call_ensures(
            Wallet::coin_select,
            (&wallet, amount, feerate, None::<Vec<OutPoint>>, excluded, &locked),
            r,
        ),
        ({
            let seed = spendable(
                wallet@.utxo_cache,
                false,
                locked@,
                outpoints_or_none(excluded),
            );
            &&& seed.len() > 0
            &&& forall|i: int, j: int|
                0 <= i < j < seed.len() ==> address_or_script(#[trigger] seed[i])
                    != address_or_script(#[trigger] seed[j])
        }),
    ensures
        ({
            let seed = spendable(
                wallet@.utxo_cache,
                false,
                locked@,
                outpoints_or_none(excluded),
            );
            let later = FeeRate { sats: 10, vbytes: 1 };
            let drain = DrainWeights { output_weight: 860, spend_weight: 1150, n_outputs: 5 };
            let waste = change_waste(drain, feerate, later);
            let policy = ChangePolicy {
                min_value: if waste > 294 {
                    waste
                } else {
                    294
                },
                drain_weights: drain,
            };
            let target = Target {
                feerate,
                outputs: TargetOutputs { value_sum: amount, weight_sum: 860, n_outputs: 5 },
            };
            exists|order: Seq<usize>| #[trigger]
                orders_coins(seed, order) && (lowest_fee_selection(
                    coin_candidates(seed, order),
                    Set::empty(),
                    target,
                    later,
                    policy,
                    1_000_000,
                ) matches Some(found) ==> r is Ok && forall|k: int|
                    0 <= k < order.len() ==> (coins_view(r->Ok_0@).contains(
                        seed[#[trigger] order[k] as int],
                    ) <==> found.contains(k as usize)))
        }),
{
    let (held, left) = (locked@, outpoints_or_none(excluded));
    let none = Seq::<OutPoint>::empty();
    lemma_spendable(wallet@.utxo_cache, false, held, left);
    let all = coins_of_kind(wallet@.utxo_cache, CoinKind::Descriptor);
    let seed = available(all, held, left);
    lemma_kind_coins(wallet@.utxo_cache, CoinKind::Descriptor);
    lemma_available_coins(all, held, left);
    lemma_kind_count(wallet@.utxo_cache, CoinKind::Descriptor);
    lemma_available_value(all, held, left);
    assert(!any_manual(seed, none));
    assert(!any_manual(available_swap(wallet@, held, left), none));
    let target = selection_target(amount, feerate);
    let policy = selection_policy(feerate);
    let outcome: Result<Seq<OutPoint>, int> = if r is Ok && selects(
        seed,
        none,
        amount,
        feerate,
        coins_view(r->Ok_0@),
    ) {
        Ok(
            choose|outpoints: Seq<OutPoint>| #[trigger]
                is_outcome(seed, none, amount, feerate, Ok(outpoints)) && are_coins_at(
                    seed,
                    outpoints,
                    coins_view(r->Ok_0@),
                ),
        )
    } else {
        Err(
            choose|missing: int| #[trigger]
                falls_short(seed, none, amount, feerate, missing),
        )
    };
    assert(is_outcome(seed, none, amount, feerate, outcome));
    let pile = choose|pile: Seq<PileUtxo>| #[trigger]
        is_pile_of(pile, seed, none) && is_pile_outcome(
            pile,
            target,
            long_term_feerate(),
            policy,
            outcome,
        );
    lemma_pile_distinct(pile, seed, none);
    lemma_pile_in_range(pile, seed, none, amount, feerate);
    assert forall|i: int| 0 <= i < pile.len() implies !(#[trigger] pile[i]).is_manual by {
        assert(is_pile_coin(pile[i], seed[i], none));
    }
    assert forall|i: int, j: int| 0 <= i < j < pile.len() implies (
    #[trigger] pile[i]).address_key@ != (#[trigger] pile[j]).address_key@ by {
        assert(is_pile_coin(pile[i], seed[i], none));
        assert(is_pile_coin(pile[j], seed[j], none));
        assert(address_or_script(seed[i]) != address_or_script(seed[j]));
    }
    let order = lemma_search_chooses(pile, target, long_term_feerate(), policy, outcome);
    assert forall|k: int| 0 <= k < order.len() implies is_pile_coin(
        pile[#[trigger] order[k] as int],
        seed[order[k] as int],
        none,
    ) by {}
    assert(orders_coins(seed, order)) by {
        assert forall|k: int, l: int| 0 <= k < l < order.len() implies order[k] != order[l]
            && seed[#[trigger] order[k] as int].0.amount
            <= seed[#[trigger] order[l] as int].0.amount by {
            assert(pile[order[k] as int].value <= pile[order[l] as int].value);
        }
    }
    assert(coin_candidates(seed, order) =~= single_candidates(pile, order));
    if lowest_fee_selection(
        single_candidates(pile, order),
        Set::empty(),
        target,
        long_term_feerate(),
        policy,
        1_000_000,
    ) is Some {
        let selected = coins_view(r->Ok_0@);
        assert(are_coins_at(seed, outcome->Ok_0, selected));
        assert forall|k: int| 0 <= k < order.len() implies (selected.contains(
            seed[#[trigger] order[k] as int],
        ) <==> outcome->Ok_0.contains(pile[order[k] as int].outpoint)) by {
            lemma_selected_iff_spent(seed, outcome->Ok_0, selected, order[k] as int);
        }
    }
}

/// The coins of swaps come second: where those of the seed that may be spent are worth less than the
/// amount, and those of swaps are worth the amount and the fee of spending them all, and none was
/// asked for, selection succeeds with coins of swaps.
pub proof fn law_swap_coins_come_second(
    wallet: Wallet,
    amount: u64,
    feerate: FeeRate,
    excluded: Option<Vec<OutPoint>>,
    locked: Vec<OutPoint>,
    r: Result<Vec<Coin>, WalletError>,
)
    requires
        wallet@.well_formed(),
        is_selectable(wallet@),
        is_payable(amount, feerate),
        call_ensures(
            Wallet::coin_select,
            (&wallet, amount, feerate, None::<Vec<OutPoint>>, excluded, &locked),
            r,
        ),
        ({
            let left = outpoints_or_none(excluded);
            let seed = spendable(wallet@.utxo_cache, false, locked@, left);
            let swept = spendable(wallet@.utxo_cache, true, locked@, left);
            &&& coins_value(seed) < amount
            &&& coins_value(swept) >= amount + implied_fee(
                feerate.sats,
                feerate.vbytes,
                weight_of_spending(swept) as u64,
            )
        }),
    ensures
        r is Ok,
        forall|i: int| 0 <= i < r->Ok_0@.len() ==> (#[trigger] r->Ok_0@[i]).1@ is SweptCoin,
{
    let (held, left) = (locked@, outpoints_or_none(excluded));
    let none = Seq::<OutPoint>::empty();
    lemma_spendable(wallet@.utxo_cache, false, held, left);
    lemma_spendable(wallet@.utxo_cache, true, held, left);
    let seed = available_regular(wallet@, held, left);
    let swept = available_swap(wallet@, held, left);
    assert(!any_manual(seed, none));
    assert(!any_manual(swept, none));
    assert(swept.len() > 0);
    lemma_all_coins_pay(wallet@, CoinKind::Swept, held, left, none, amount, feerate);
    let coins = coins_view(r->Ok_0@);
    if selects(seed, none, amount, feerate, coins) {
        lemma_part_is_worth_less(
            wallet@,
            CoinKind::Descriptor,
            held,
            left,
            none,
            amount,
            feerate,
            coins,
        );
        law_selected_coins_pay(wallet@, held, left, none, amount, feerate, coins);
    }
    assert(selects(swept, none, amount, feerate, coins));
    assert forall|i: int| 0 <= i < r->Ok_0@.len() implies (
    #[trigger] r->Ok_0@[i]).1@ is SweptCoin by {
        assert(coins[i].1 == r->Ok_0@[i].1@);
        lemma_kind_of(wallet@.utxo_cache, CoinKind::Swept, held, left, coins[i]);
    }
}

/// Coins that are selected from those of a kind are worth no more than all of them.
pub(crate) proof fn lemma_part_is_worth_less(
    store: StoreView,
    kind: CoinKind,
    locked: Seq<OutPoint>,
    excluded: Seq<OutPoint>,
    manual: Seq<OutPoint>,
    amount: u64,
    feerate: FeeRate,
    selected: Seq<CoinView>,
)
    requires
        store.well_formed(),
        is_selectable(store),
        is_payable(amount, feerate),
        kind is Descriptor || kind is Swept,
        selects(
            available(coins_of_kind(store.utxo_cache, kind), locked, excluded),
            manual,
            amount,
            feerate,
            selected,
        ),
    ensures
        coins_value(selected) <= coins_value(
            available(coins_of_kind(store.utxo_cache, kind), locked, excluded),
        ),
{
    let all = coins_of_kind(store.utxo_cache, kind);
    let coins = available(all, locked, excluded);
    lemma_kind_coins(store.utxo_cache, kind);
    lemma_kind_count(store.utxo_cache, kind);
    lemma_available_coins(all, locked, excluded);
    lemma_available_value(all, locked, excluded);
    let outpoints = choose|outpoints: Seq<OutPoint>| #[trigger]
        is_outcome(coins, manual, amount, feerate, Ok(outpoints)) && are_coins_at(
            coins,
            outpoints,
            selected,
        );
    let target = selection_target(amount, feerate);
    let policy = selection_policy(feerate);
    let pile = choose|pile: Seq<PileUtxo>| #[trigger]
        is_pile_of(pile, coins, manual) && is_pile_outcome(
            pile,
            target,
            long_term_feerate(),
            policy,
            Ok(outpoints),
        );
    lemma_pile_distinct(pile, coins, manual);
    lemma_pile_in_range(pile, coins, manual, amount, feerate);
    law_spends_nothing_twice(pile, target, long_term_feerate(), policy, outpoints);
    assert forall|j: usize| j < coins.len() implies #[trigger] coin_value(pile)(j)
        == coins[j as int].0.amount by {
        assert(is_pile_coin(pile[j as int], coins[j as int], manual));
    }
    lemma_selected_sum(
        pile,
        coins,
        manual,
        outpoints,
        selected,
        coin_value(pile),
        |coin: CoinView| coin.0.amount as nat,
    );
    lemma_sum_is_value(selected);
    lemma_masked_is_less(coin_value(pile), spent_coins(pile, outpoints), pile.len());
    lemma_whole_sums(pile, coins, manual, pile.len());
    assert(coins.take(coins.len() as int) =~= coins);
}

/// The kind of the coins that were asked for is the kind that is spent, however much the other kind
/// is worth; where it is not worth enough, the error says what it is worth and what it would take.
pub proof fn law_what_was_asked_for_decides_the_kind(
    wallet: Wallet,
    amount: u64,
    feerate: FeeRate,
    manual: Option<Vec<OutPoint>>,
    excluded: Option<Vec<OutPoint>>,
    locked: Vec<OutPoint>,
    r: Result<Vec<Coin>, WalletError>,
    swept: bool,
    other: bool,
    i: int,
)
    requires
        swept != other,
        wallet@.well_formed(),
        is_selectable(wallet@),
        is_payable(amount, feerate),
        call_ensures(Wallet::coin_select, (&wallet, amount, feerate, manual, excluded, &locked), r),
        ({
            let coins = spendable(
                wallet@.utxo_cache,
                swept,
                locked@,
                outpoints_or_none(excluded),
            );
            0 <= i < coins.len() && asked_for(manual, coins[i].0.outpoint())
        }),
    ensures
        r matches Ok(selected) ==> forall|k: int|
            0 <= k < selected@.len() ==> ((#[trigger] selected@[k]).1@ is SweptCoin <==> swept),
        ({
            let coins = spendable(
                wallet@.utxo_cache,
                swept,
                locked@,
                outpoints_or_none(excluded),
            );
            let fee = implied_fee(
                feerate.sats,
                feerate.vbytes,
                weight_of_spending(coins) as u64,
            );
            r matches Err(e) ==> e@ is General || (coins_value(coins) < amount + fee && e@
                == WalletErrorView::InsufficientFund {
                available: coins_value(coins) as u64,
                required: (2 * amount + fee - coins_value(coins)) as u64,
            })
        }),
        ({
            let others = spendable(
                wallet@.utxo_cache,
                other,
                locked@,
                outpoints_or_none(excluded),
            );
            (forall|k: int|
                0 <= k < others.len() ==> !asked_for(
                    manual,
                    (#[trigger] others[k]).0.outpoint(),
                )) ==> !(r matches Err(e) && e@ is General)
        }),
{
    let (held, left) = (locked@, outpoints_or_none(excluded));
    let asked = outpoints_or_none(manual);
    lemma_spendable(wallet@.utxo_cache, false, held, left);
    lemma_spendable(wallet@.utxo_cache, true, held, left);
    let kind = if swept {
        CoinKind::Swept
    } else {
        CoinKind::Descriptor
    };
    let coins = available(coins_of_kind(wallet@.utxo_cache, kind), held, left);
    assert(asked.contains(coins[i].0.outpoint()));
    assert(any_manual(coins, asked));
    lemma_all_coins_pay(wallet@, kind, held, left, asked, amount, feerate);
    let others = spendable(wallet@.utxo_cache, other, held, left);
    if forall|k: int|
        0 <= k < others.len() ==> !asked_for(manual, (#[trigger] others[k]).0.outpoint()) {
        assert forall|k: int| 0 <= k < others.len() implies !asked.contains(
            (#[trigger] others[k]).0.outpoint(),
        ) by {
            assert(!asked_for(manual, others[k].0.outpoint()));
        }
        assert(!any_manual(others, asked));
    }
    if let Ok(selected) = r {
        let views = coins_view(selected@);
        assert(selects(coins, asked, amount, feerate, views));
        assert forall|k: int| 0 <= k < selected@.len() implies ((
        #[trigger] selected@[k]).1@ is SweptCoin <==> swept) by {
            assert(views[k].1 == selected@[k].1@);
            lemma_kind_of(wallet@.utxo_cache, kind, held, left, views[k]);
        }
    }
}

/// The pile that a selected coin was drawn from.
proof fn lemma_pile_behind(
    store: StoreView,
    swept: bool,
    locked: Seq<OutPoint>,
    excluded: Seq<OutPoint>,
    manual: Seq<OutPoint>,
    amount: u64,
    feerate: FeeRate,
    selected: Seq<CoinView>,
    i: int,
) -> (r: (Seq<PileUtxo>, Seq<OutPoint>))
    requires
        store.well_formed(),
        is_selectable(store),
        is_payable(amount, feerate),
        is_coin_selection(
            available_regular(store, locked, excluded),
            available_swap(store, locked, excluded),
            manual,
            amount,
            feerate,
            Ok(selected),
        ),
        0 <= i < spendable(store.utxo_cache, swept, locked, excluded).len(),
        selected.contains(spendable(store.utxo_cache, swept, locked, excluded)[i]),
    ensures
        ({
            let coins = spendable(store.utxo_cache, swept, locked, excluded);
            &&& distinct_coins(coins)
            &&& coins.len() <= usize::MAX
            &&& is_pile_of(r.0, coins, manual)
            &&& distinct_outpoints(r.0)
            &&& are_coins_at(coins, r.1, selected)
            &&& is_pile_outcome(
                r.0,
                selection_target(amount, feerate),
                long_term_feerate(),
                selection_policy(feerate),
                Ok(r.1),
            )
        }),
{
    lemma_spendable(store.utxo_cache, false, locked, excluded);
    lemma_spendable(store.utxo_cache, true, locked, excluded);
    let (regular, swap) = (
        available_regular(store, locked, excluded),
        available_swap(store, locked, excluded),
    );
    let (kind, other) = if swept {
        (CoinKind::Swept, CoinKind::Descriptor)
    } else {
        (CoinKind::Descriptor, CoinKind::Swept)
    };
    let all = coins_of_kind(store.utxo_cache, kind);
    let coins = available(all, locked, excluded);
    lemma_kind_coins(store.utxo_cache, kind);
    lemma_available_coins(all, locked, excluded);
    lemma_kind_count(store.utxo_cache, kind);
    lemma_available_value(all, locked, excluded);
    if !selects(coins, manual, amount, feerate, selected) {
        let k = choose|k: int| 0 <= k < selected.len() && selected[k] == coins[i];
        law_kinds_are_never_mixed(regular, swap, manual, amount, feerate, selected);
        assert(coins.contains(coins[i]));
        lemma_kind_of(store.utxo_cache, kind, locked, excluded, coins[i]);
        lemma_kind_of(store.utxo_cache, other, locked, excluded, selected[k]);
    }
    let outpoints = choose|outpoints: Seq<OutPoint>| #[trigger]
        is_outcome(coins, manual, amount, feerate, Ok(outpoints)) && are_coins_at(
            coins,
            outpoints,
            selected,
        );
    let pile = choose|pile: Seq<PileUtxo>| #[trigger]
        is_pile_of(pile, coins, manual) && is_pile_outcome(
            pile,
            selection_target(amount, feerate),
            long_term_feerate(),
            selection_policy(feerate),
            Ok(outpoints),
        );
    lemma_pile_distinct(pile, coins, manual);
    (pile, outpoints)
}

/// Coins that are linked already are spent first: a coin that shares its address with none is only
/// selected along with every coin of its kind that shares its address with another.
pub proof fn law_linked_coins_go_first(
    wallet: Wallet,
    amount: u64,
    feerate: FeeRate,
    manual: Option<Vec<OutPoint>>,
    excluded: Option<Vec<OutPoint>>,
    locked: Vec<OutPoint>,
    r: Vec<Coin>,
    swept: bool,
    single: int,
    linked: int,
    mate: int,
)
    requires
        wallet@.well_formed(),
        is_selectable(wallet@),
        is_payable(amount, feerate),
        call_ensures(
            Wallet::coin_select,
            (&wallet, amount, feerate, manual, excluded, &locked),
            Ok(r),
        ),
        ({
            let coins = spendable(
                wallet@.utxo_cache,
                swept,
                locked@,
                outpoints_or_none(excluded),
            );
            &&& 0 <= single < coins.len() && !asked_for(manual, coins[single].0.outpoint())
            &&& 0 <= linked < coins.len() && !asked_for(manual, coins[linked].0.outpoint())
            &&& 0 <= mate < coins.len() && !asked_for(manual, coins[mate].0.outpoint())
            &&& linked != mate && address_or_script(coins[linked]) == address_or_script(coins[mate])
            &&& forall|k: int|
                0 <= k < coins.len() && k != single ==> address_or_script(#[trigger] coins[k])
                    != address_or_script(coins[single])
            &&& coins_view(r@).contains(coins[single])
        }),
    ensures
        coins_view(r@).contains(
            spendable(
                wallet@.utxo_cache,
                swept,
                locked@,
                outpoints_or_none(excluded),
            )[linked],
        ),
{
    let left = outpoints_or_none(excluded);
    let asked = outpoints_or_none(manual);
    let coins = spendable(wallet@.utxo_cache, swept, locked@, left);
    let (pile, outpoints) = lemma_pile_behind(
        wallet@,
        swept,
        locked@,
        left,
        asked,
        amount,
        feerate,
        coins_view(r@),
        single,
    );
    assert forall|k: int| 0 <= k < pile.len() implies is_pile_coin(
        #[trigger] pile[k],
        coins[k],
        asked,
    ) && pile[k].address_key@ == address_or_script(coins[k]) by {}
    assert(!is_reused(pile, single)) by {
        if is_reused(pile, single) {
            let k = choose|k: int|
                0 <= k < pile.len() && k != single && !(#[trigger] pile[k]).is_manual
                    && pile[k].address_key@ == pile[single].address_key@;
            assert(address_or_script(coins[k]) == address_or_script(coins[single]));
        }
    }
    assert(!pile[mate].is_manual && pile[mate].address_key@ == pile[linked].address_key@);
    assert(is_reused(pile, linked));
    lemma_selected_iff_spent(coins, outpoints, coins_view(r@), single);
    law_linked_coins_are_spent_first(
        pile,
        selection_target(amount, feerate),
        long_term_feerate(),
        selection_policy(feerate),
        outpoints,
        single,
        linked,
    );
    lemma_selected_iff_spent(coins, outpoints, coins_view(r@), linked);
}

/// Where neither kind of coins is worth the amount, nothing is selected.
pub(crate) proof fn lemma_poor_wallet_selects_nothing(
    store: StoreView,
    locked: Seq<OutPoint>,
    excluded: Seq<OutPoint>,
    manual: Seq<OutPoint>,
    amount: u64,
    feerate: FeeRate,
    result: Result<Seq<CoinView>, WalletErrorView>,
)
    requires
        store.well_formed(),
        is_selectable(store),
        is_payable(amount, feerate),
        is_coin_selection(
            available_regular(store, locked, excluded),
            available_swap(store, locked, excluded),
            manual,
            amount,
            feerate,
            result,
        ),
        coins_value(spendable(store.utxo_cache, false, locked, excluded)) < amount,
        coins_value(spendable(store.utxo_cache, true, locked, excluded)) < amount,
    ensures
        result is Err,
{
    lemma_spendable(store.utxo_cache, false, locked, excluded);
    lemma_spendable(store.utxo_cache, true, locked, excluded);
    if let Ok(selected) = result {
        law_selected_coins_pay(store, locked, excluded, manual, amount, feerate, selected);
        let kind = if selects(
            available_regular(store, locked, excluded),
            manual,
            amount,
            feerate,
            selected,
        ) {
            CoinKind::Descriptor
        } else {
            CoinKind::Swept
        };
        lemma_part_is_worth_less(store, kind, locked, excluded, manual, amount, feerate, selected);
    }
}

} // verus!
