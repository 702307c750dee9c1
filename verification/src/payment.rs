//! Paying to an address.

use crate::coin_selector::{implied_fee, FeeRate};
use crate::error::{WalletError, WalletErrorView};
use crate::keys::{address_script, parse_address};
use crate::spend::{
    available_regular, available_swap, is_coin_selection, is_payable, is_selectable,
    outpoints_or_none,
};
use crate::spend_laws::{
    lemma_seed_coins_are_selected, lemma_selection_pays, spendable, weight_of_spending,
};
use crate::types::{OutPoint, Script};
use crate::utxo::{coins_value, coins_view, Coin};
use crate::wallet::Wallet;
use vstd::prelude::*;

verus! {

/// The error for a text that is no address of the wallet's network.
pub open spec fn address_failure() -> WalletErrorView {
    WalletErrorView::General("Invalid address for the current wallet network"@)
}

/// The script to pay to, by what reading the address came to.
pub fn payment_script(parsed: Option<Script>) -> (r: Result<Script, WalletError>)
    ensures
        match parsed {
            Some(script) => r == Ok::<Script, WalletError>(script),
            None => r matches Err(e) && e@ == address_failure(),
        },
{
    match parsed {
        Some(script) => Ok(script),
        None => Err(
            WalletError::General("Invalid address for the current wallet network".to_string()),
        ),
    }
}

impl Wallet {
    /// The script of an address on the wallet's network.
    pub fn checked_address(&self, address: &str) -> (r: Result<Script, WalletError>)
        ensures
            match r {
                Ok(script) => address_script(address@, self@.network) == Some(script@),
                Err(e) => address_script(address@, self@.network) is None && e@
                    == address_failure(),
            },
    {
        match parse_address(address, self.store.network) {
            Ok(script) => payment_script(Some(script)),
            Err(_) => payment_script(None),
        }
    }

    /// The script to pay to and the coins to spend for a payment to an address. The address is
    /// checked before any coin is selected.
    pub fn plan_payment(
        &self,
        amount: u64,
        address: &str,
        fee_rate: FeeRate,
        manually_selected: Option<Vec<OutPoint>>,
        locked: &Vec<OutPoint>,
    ) -> (r: Result<(Script, Vec<Coin>), WalletError>)
        requires
            self@.well_formed(),
            is_selectable(self@),
            is_payable(amount, fee_rate),
        ensures
            match address_script(address@, self@.network) {
                None => r matches Err(e) && e@ == address_failure(),
                Some(script) => is_coin_selection(
                    available_regular(self@, locked@, Seq::empty()),
                    available_swap(self@, locked@, Seq::empty()),
                    outpoints_or_none(manually_selected),
                    amount,
                    fee_rate,
                    match r {
                        Ok((_, coins)) => Ok(coins_view(coins@)),
                        Err(e) => Err(e@),
                    },
                ) && (r matches Ok((to, _)) ==> to@ == script),
            },
    {
        let script = match self.checked_address(address) {
            Ok(script) => script,
            Err(e) => {
                return Err(e);
            },
        };
        match self.coin_select(amount, fee_rate, manually_selected, None, locked) {
            Ok(coins) => Ok((script, coins)),
            Err(e) => Err(e),
        }
    }
}

/// A payment goes to the script of the address on the network of the wallet, and only where there is
/// one; the coins are worth the amount and the fee, are confirmed and not locked, and all of one
/// kind.
pub proof fn law_payment_goes_to_the_address(
    wallet: Wallet,
    amount: u64,
    address: &str,
    feerate: FeeRate,
    manual: Option<Vec<OutPoint>>,
    locked: Vec<OutPoint>,
    r: Result<(Script, Vec<Coin>), WalletError>,
)
    requires
        wallet@.well_formed(),
        is_selectable(wallet@),
        is_payable(amount, feerate),
        call_ensures(Wallet::plan_payment, (&wallet, amount, address, feerate, manual, &locked), r),
    ensures
        address_script(address@, wallet@.network) is None ==> (r matches Err(e)
            && e@ is General),
        r matches Ok((script, coins)) ==> {
            let views = coins_view(coins@);
            &&& address_script(address@, wallet@.network) == Some(script@)
            &&& coins_value(views) >= amount + implied_fee(
                feerate.sats,
                feerate.vbytes,
                weight_of_spending(views) as u64,
            )
            &&& forall|i: int|
                0 <= i < views.len() ==> {
                    &&& (#[trigger] views[i]).0.confirmations >= 1
                    &&& !locked@.contains(views[i].0.outpoint())
                    &&& views[i].1 is SeedCoin || views[i].1 is SweptCoin
                    &&& views[i].1 is SeedCoin <==> views[0].1 is SeedCoin
                }
        },
{
    if let Ok((script, coins)) = r {
        lemma_selection_pays(
            wallet@,
            locked@,
            Seq::empty(),
            outpoints_or_none(manual),
            amount,
            feerate,
            coins_view(coins@),
        );
    }
}

/// Where the address is one of the network and the coins of the seed that may be spent are worth the
/// amount and the fee of spending them all, and none was asked for, the payment can be made, with
/// coins of the seed.
pub proof fn law_payable_amount_is_paid(
    wallet: Wallet,
    amount: u64,
    address: &str,
    feerate: FeeRate,
    locked: Vec<OutPoint>,
    r: Result<(Script, Vec<Coin>), WalletError>,
)
    requires
        wallet@.well_formed(),
        is_selectable(wallet@),
        is_payable(amount, feerate),
        amount > 0,
        call_ensures(
            Wallet::plan_payment,
            (&wallet, amount, address, feerate, None::<Vec<OutPoint>>, &locked),
            r,
        ),
        address_script(address@, wallet@.network) is Some,
        ({
            let seed = spendable(wallet@.utxo_cache, false, locked@, Seq::empty());
            coins_value(seed) >= amount + implied_fee(
                feerate.sats,
                feerate.vbytes,
                weight_of_spending(seed) as u64,
            )
        }),
    ensures
        r is Ok,
        forall|i: int|
            0 <= i < r->Ok_0.1@.len() ==> (#[trigger] r->Ok_0.1@[i]).1@ is SeedCoin,
{
    let result = match r {
        Ok((_, coins)) => Ok(coins_view(coins@)),
        Err(e) => Err(e@),
    };
    let none = Seq::<OutPoint>::empty();
    lemma_seed_coins_are_selected(wallet@, locked@, none, none, amount, feerate, result);
    assert forall|i: int| 0 <= i < r->Ok_0.1@.len() implies (
    #[trigger] r->Ok_0.1@[i]).1@ is SeedCoin by {
        assert(result->Ok_0[i].1 == r->Ok_0.1@[i].1@);
    }
}

/// An address is one of the wallet exactly where it is one of its network, whatever the wallet holds.
pub proof fn law_address_belongs_to_the_network(
    wallet: Wallet,
    address: &str,
    r: Result<Script, WalletError>,
)
    requires
        call_ensures(Wallet::checked_address, (&wallet, address), r),
    ensures
        r is Ok <==> address_script(address@, wallet@.network) is Some,
        r matches Ok(script) ==> address_script(address@, wallet@.network) == Some(script@),
{
}

} // verus!
