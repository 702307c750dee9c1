//! What holds of every output that a wallet tells the kind of.

use crate::chain::key_at;
use crate::coins::{bond_of, contract_of, info_option, open_contract_of, wallet_info};
use crate::error::WalletError;
use crate::keys::{key_fingerprint, transaction_id, without_witnesses};
use crate::store::FidelityBondView;
use crate::swapcoin::{multisig_script, SwapCoinView};
use crate::table::{first_where, Rows};
use crate::text::{decimal, hd_path, signed_decimal};
use crate::types::{AddressType, ProtocolVersion};
use crate::utxo::{SpendInfoView, UTXOSpendInfo, Utxo, UtxoView};
use crate::wallet::{first_with_multisig, has_multisig, multisig_coin, Wallet};
use vstd::prelude::*;

verus! {

/// The output is the one that holds the contract of the coin.
pub open spec fn holds_contract(coin: SwapCoinView, utxo: UtxoView) -> bool {
    &&& transaction_id(without_witnesses(coin.contract_tx)) == utxo.txid
    &&& coin.contract_vout == utxo.vout
}

/// Some coin of the rows has its contract in the output.
pub open spec fn some_contract(rows: Rows<Seq<char>, SwapCoinView>, utxo: UtxoView) -> bool {
    exists|i: int| 0 <= i < rows.len() && holds_contract((#[trigger] rows[i]).1, utxo)
}

/// Some coin of the rows whose preimage is known has its contract in the output.
pub open spec fn some_open_contract(rows: Rows<Seq<char>, SwapCoinView>, utxo: UtxoView) -> bool {
    exists|i: int|
        0 <= i < rows.len() && holds_contract((#[trigger] rows[i]).1, utxo)
            && rows[i].1.hash_preimage is Some
}

/// The first row that satisfies a condition is a row that does, and no row before it does.
proof fn lemma_first_row<V, K>(rows: Rows<K, V>, pred: spec_fn(V) -> bool)
    ensures
        0 <= first_where(rows, pred) <= rows.len(),
        first_where(rows, pred) < rows.len() ==> pred(rows[first_where(rows, pred)].1),
        forall|k: int| 0 <= k < first_where(rows, pred) ==> !pred((#[trigger] rows[k]).1),
    decreases rows.len(),
{
    if rows.len() > 0 {
        let less = rows.drop_last();
        lemma_first_row(less, pred);
        let i = first_where(rows, pred);
        if i < less.len() {
            assert(less[i] == rows[i]);
        }
        assert forall|k: int| 0 <= k < i implies !pred((#[trigger] rows[k]).1) by {
            if k < less.len() {
                assert(less[k] == rows[k]);
            }
        }
    }
}

/// An output is a timelocked contract exactly where it is the contract output of an outgoing swap
/// coin, transaction and number alike. Where it is not, it is a hashlocked contract exactly where it
/// is that of an incoming swap coin whose preimage is known. Every other output, another output of a
/// contract transaction included, is no contract.
pub proof fn law_contract_outputs(
    wallet: Wallet,
    utxo: Utxo,
    r: Result<Option<UTXOSpendInfo>, WalletError>,
)
    requires
        call_ensures(Wallet::check_and_derive_live_contract_spend_info, (&wallet, &utxo), r),
    ensures
        r is Ok,
        (r->Ok_0 matches Some(info) && info@ is TimelockContract) <==> some_contract(
            wallet@.outgoing_swapcoins,
            utxo@,
        ),
        (r->Ok_0 matches Some(info) && info@ is HashlockContract) <==> !some_contract(
            wallet@.outgoing_swapcoins,
            utxo@,
        ) && some_open_contract(wallet@.incoming_swapcoins, utxo@),
        r->Ok_0 matches Some(info) ==> info@ is TimelockContract || info@ is HashlockContract,
        r->Ok_0 matches Some(info) ==> (info@ is TimelockContract ==> {
            &&& info@->TimelockContract_input_value == utxo.amount
            &&& is_first_script(
                wallet@.outgoing_swapcoins,
                utxo@,
                false,
                info@->TimelockContract_swapcoin_multisig_redeemscript,
            )
        }),
        r->Ok_0 matches Some(info) ==> (info@ is HashlockContract ==> {
            &&& info@->HashlockContract_input_value == utxo.amount
            &&& is_first_script(
                wallet@.incoming_swapcoins,
                utxo@,
                true,
                info@->HashlockContract_swapcoin_multisig_redeemscript,
            )
        }),
{
    let (outgoing, incoming) = (wallet@.outgoing_swapcoins, wallet@.incoming_swapcoins);
    lemma_first_row(outgoing, contract_of(utxo@));
    lemma_first_row(incoming, open_contract_of(utxo@));
    assert forall|i: int| 0 <= i < outgoing.len() implies #[trigger] holds_contract(
        outgoing[i].1,
        utxo@,
    ) == contract_of(utxo@)(outgoing[i].1) by {}
    assert forall|i: int| 0 <= i < incoming.len() implies (#[trigger] holds_contract(
        incoming[i].1,
        utxo@,
    ) && incoming[i].1.hash_preimage is Some) == open_contract_of(utxo@)(incoming[i].1) by {}
    let a = first_where(outgoing, contract_of(utxo@));
    let b = first_where(incoming, open_contract_of(utxo@));
    if a < outgoing.len() {
        assert(holds_contract(outgoing[a].1, utxo@));
        assert(is_first_contract(outgoing, utxo@, false, a));
    }
    if b < incoming.len() {
        assert(holds_contract(incoming[b].1, utxo@));
        assert(is_first_contract(incoming, utxo@, true, b));
    }
}

/// The row is the first one whose contract the output holds, of those with a known preimage where
/// `is_open` is set.
pub open spec fn is_first_contract(
    rows: Rows<Seq<char>, SwapCoinView>,
    utxo: UtxoView,
    is_open: bool,
    i: int,
) -> bool {
    &&& 0 <= i < rows.len()
    &&& holds_contract(rows[i].1, utxo)
    &&& is_open ==> rows[i].1.hash_preimage is Some
    &&& forall|k: int|
        0 <= k < i && (is_open ==> rows[k].1.hash_preimage is Some) ==> !holds_contract(
            (#[trigger] rows[k]).1,
            utxo,
        )
}

/// The script is that of the contract which the output holds, empty where the coin has none.
pub open spec fn is_first_script(
    rows: Rows<Seq<char>, SwapCoinView>,
    utxo: UtxoView,
    is_open: bool,
    script: Seq<u8>,
) -> bool {
    exists|i: int| #[trigger]
        is_first_contract(rows, utxo, is_open, i) && match rows[i].1.contract_redeemscript {
            Some(own) => script == own,
            None => script.len() == 0,
        }
}

/// An output is a fidelity bond exactly where a bond of the wallet has its script and its amount; it
/// then has the index of such a bond and its own amount.
pub proof fn law_bond_outputs(wallet: Wallet, utxo: Utxo, r: Option<UTXOSpendInfo>)
    requires
        call_ensures(Wallet::check_if_fidelity, (&wallet, &utxo), r),
    ensures
        r is Some <==> exists|i: int|
            0 <= i < wallet@.fidelity_bond.len() && pays_bond(
                (#[trigger] wallet@.fidelity_bond[i]).1,
                utxo@,
            ),
        r matches Some(info) ==> exists|i: int|
            0 <= i < wallet@.fidelity_bond.len() && pays_bond(
                (#[trigger] wallet@.fidelity_bond[i]).1,
                utxo@,
            ) && info@ == (SpendInfoView::FidelityBondCoin {
                index: wallet@.fidelity_bond[i].0,
                input_value: utxo.amount,
            }),
{
    let bonds = wallet@.fidelity_bond;
    lemma_first_row(bonds, bond_of(utxo@));
    let i = first_where(bonds, bond_of(utxo@));
    assert forall|k: int| 0 <= k < bonds.len() implies #[trigger] pays_bond(bonds[k].1, utxo@)
        == bond_of(utxo@)(bonds[k].1) by {}
    if i < bonds.len() {
        assert(pays_bond(bonds[i].1, utxo@));
    }
}

/// The output has the script and the amount of the bond.
pub open spec fn pays_bond(bond: FidelityBondView, utxo: UtxoView) -> bool {
    bond.script_pub_key == utxo.script_pub_key && bond.amount == utxo.amount
}

/// The text of the path below the account: `m`, the branch and the index, divided by slashes.
pub open spec fn is_path_text(path: Seq<char>, branch: u32, index: i32) -> bool {
    path == "m/"@ + decimal(branch as nat) + "/"@ + signed_decimal(index as int)
}

/// The coin of the seed or the swept coin that stands under this path of a descriptor.
pub open spec fn stands_on_path(
    utxo: UtxoView,
    path: Seq<char>,
    value: u64,
    address_type: AddressType,
) -> bool {
    &&& value == utxo.amount
    &&& utxo.descriptor matches Some(descriptor) && hd_path(descriptor) matches Some(origin)
        && is_path_text(path, origin.branch, origin.index) && (address_type == AddressType::P2TR
        <==> descriptor.len() >= 3 && descriptor.subrange(0, 3) == "tr("@)
}

/// A swap coin that can be spent with this multisig script: an incoming one with the other private
/// key, or an outgoing one with the preimage, where the first coin with the script counts.
pub open spec fn has_spendable_multisig(
    rows: Rows<Seq<char>, SwapCoinView>,
    script: Seq<u8>,
    is_incoming: bool,
) -> bool {
    exists|i: int|
        0 <= i < rows.len() && is_funded_by((#[trigger] rows[i]).1, script) && (forall|k: int|
            0 <= k < i ==> !is_funded_by((#[trigger] rows[k]).1, script)) && if is_incoming {
            rows[i].1.other_privkey is Some
        } else {
            rows[i].1.hash_preimage is Some
        }
}

/// The coin is a legacy coin in the multisig of its two keys.
pub open spec fn is_funded_by(coin: SwapCoinView, script: Seq<u8>) -> bool {
    &&& coin.protocol == ProtocolVersion::Legacy
    &&& coin.my_pubkey matches Some(mine) && coin.other_pubkey matches Some(other)
        && multisig_script(mine@, other@) == script
}

/// What becomes of an output that is neither bond nor contract.
///
/// - An output on a script that a swap coin was swept to, with a path in its descriptor, is a swept
///   coin; any other is not.
/// - Another output with a path in its descriptor is a coin of the seed exactly where the path
///   starts with the fingerprint of the wallet's own account.
/// - An output without a path is a swap coin by its witness script, if anything.
pub proof fn law_wallet_outputs(
    wallet: Wallet,
    utxo: Utxo,
    r: Result<Option<UTXOSpendInfo>, WalletError>,
)
    requires
        call_ensures(Wallet::check_and_derive_descriptor_utxo_or_swap_coin, (&wallet, &utxo), r),
    ensures
        utxo@.descriptor is None ==> r == Ok::<Option<UTXOSpendInfo>, WalletError>(None),
        r matches Ok(Some(info)) ==> {
            &&& info@ is SweptCoin || info@ is SeedCoin || info@ is IncomingSwapCoin
                || info@ is OutgoingSwapCoin
            &&& info@ is SweptCoin ==> stands_on_path(
                utxo@,
                info@->SweptCoin_path,
                info@->SweptCoin_input_value,
                info@->SweptCoin_address_type,
            )
            &&& info@ is SeedCoin ==> stands_on_path(
                utxo@,
                info@->SeedCoin_path,
                info@->SeedCoin_input_value,
                info@->SeedCoin_address_type,
            )
        },
        utxo@.descriptor matches Some(descriptor) ==> {
            let swept = wallet@.swept_incoming_swapcoins.contains(utxo@.script_pub_key);
            match hd_path(descriptor) {
                Some(origin) => {
                    let account = key_at(
                        wallet@.master_key,
                        if descriptor.len() >= 3 && descriptor.subrange(0, 3) == "tr("@ {
                            "m/86'/1'/0'"@
                        } else {
                            "m/84'/1'/0'"@
                        },
                    );
                    let own = account matches Some(key) && key_fingerprint(key) == Some(
                        origin.fingerprint,
                    );
                    &&& swept <==> (r matches Ok(Some(info)) && info@ is SweptCoin)
                    &&& !swept && own <==> (r matches Ok(Some(info)) && info@ is SeedCoin)
                    &&& !swept && r is Ok && !own ==> r->Ok_0 is None
                },
                None => {
                    let script = match utxo@.witness_script {
                        Some(script) => script,
                        None => Seq::empty(),
                    };
                    let incoming = has_spendable_multisig(wallet@.incoming_swapcoins, script, true);
                    let outgoing = has_spendable_multisig(
                        wallet@.outgoing_swapcoins,
                        script,
                        false,
                    );
                    &&& r is Ok
                    &&& incoming <==> (r->Ok_0 matches Some(info) && info@
                        == (SpendInfoView::IncomingSwapCoin { multisig_redeemscript: script }))
                    &&& !incoming && outgoing <==> (r->Ok_0 matches Some(info) && info@
                        == (SpendInfoView::OutgoingSwapCoin { multisig_redeemscript: script }))
                    &&& !incoming && !outgoing ==> r->Ok_0 is None
                },
            }
        },
{
    reveal_strlit("tr(");
    if let Some(descriptor) = utxo@.descriptor {
        let script = match utxo@.witness_script {
            Some(script) => script,
            None => Seq::empty(),
        };
        lemma_spendable_multisig(wallet@.incoming_swapcoins, script);
        lemma_spendable_multisig(wallet@.outgoing_swapcoins, script);
        assert(wallet_info(wallet@, utxo@) == match r {
            Ok(info) => Ok::<Option<SpendInfoView>, ()>(info_option(info)),
            Err(_) => Err(()),
        });
    }
}

proof fn lemma_spendable_multisig(rows: Rows<Seq<char>, SwapCoinView>, script: Seq<u8>)
    ensures
        has_spendable_multisig(rows, script, true) <==> has_multisig(rows, script)
            && multisig_coin(rows, script).other_privkey is Some,
        has_spendable_multisig(rows, script, false) <==> has_multisig(rows, script)
            && multisig_coin(rows, script).hash_preimage is Some,
{
    assert forall|i: int| 0 <= i < rows.len() implies #[trigger] is_funded_by(rows[i].1, script) == (
    rows[i].1.multisig() == Some(script)) by {}
    if has_multisig(rows, script) {
        let n = choose|n: int| 0 <= n < rows.len() && (#[trigger] rows[n]).1.multisig() == Some(script);
        let i = lemma_first_funded(rows, script, n);
        assert(first_with_multisig(rows, script, i));
        let j = choose|j: int| first_with_multisig(rows, script, j);
        assert(rows[j].1.multisig() == Some(script) && rows[i].1.multisig() == Some(script));
        assert(i == j);
        assert(is_funded_by(rows[i].1, script));
        assert forall|k: int| 0 <= k < i implies !is_funded_by((#[trigger] rows[k]).1, script) by {
            assert(rows[k].1.multisig() != Some(script));
        }
        if has_spendable_multisig(rows, script, true) {
            let m = choose|m: int|
                0 <= m < rows.len() && is_funded_by((#[trigger] rows[m]).1, script) && (forall|k: int|
                    0 <= k < m ==> !is_funded_by((#[trigger] rows[k]).1, script))
                    && rows[m].1.other_privkey is Some;
            assert(is_funded_by(rows[m].1, script));
            assert(m == i);
        }
        if has_spendable_multisig(rows, script, false) {
            let m = choose|m: int|
                0 <= m < rows.len() && is_funded_by((#[trigger] rows[m]).1, script) && (forall|k: int|
                    0 <= k < m ==> !is_funded_by((#[trigger] rows[k]).1, script))
                    && rows[m].1.hash_preimage is Some;
            assert(is_funded_by(rows[m].1, script));
            assert(m == i);
        }
    } else {
        assert forall|i: int| 0 <= i < rows.len() implies !is_funded_by(
            (#[trigger] rows[i]).1,
            script,
        ) by {
            assert(rows[i].1.multisig() != Some(script));
        }
    }
}

proof fn lemma_first_funded(rows: Rows<Seq<char>, SwapCoinView>, script: Seq<u8>, n: int) -> (i: int)
    requires
        0 <= n < rows.len(),
        rows[n].1.multisig() == Some(script),
    ensures
        first_with_multisig(rows, script, i),
    decreases n,
{
    if exists|k: int| 0 <= k < n && (#[trigger] rows[k]).1.multisig() == Some(script) {
        let k = choose|k: int| 0 <= k < n && (#[trigger] rows[k]).1.multisig() == Some(script);
        lemma_first_funded(rows, script, k)
    } else {
        n
    }
}

/// A bond is told before a contract, a contract before a coin of the wallet.
pub proof fn law_kinds_are_told_in_order(
    wallet: Wallet,
    utxo: Utxo,
    bond: Option<UTXOSpendInfo>,
    contract: Result<Option<UTXOSpendInfo>, WalletError>,
    own: Result<Option<UTXOSpendInfo>, WalletError>,
    r: Result<Option<UTXOSpendInfo>, WalletError>,
)
    requires
        call_ensures(Wallet::check_if_fidelity, (&wallet, &utxo), bond),
        call_ensures(
            Wallet::check_and_derive_live_contract_spend_info,
            (&wallet, &utxo),
            contract,
        ),
        call_ensures(
            Wallet::check_and_derive_descriptor_utxo_or_swap_coin,
            (&wallet, &utxo),
            own,
        ),
        call_ensures(Wallet::derive_spend_info, (&wallet, &utxo), r),
    ensures
        bond is Some ==> r is Ok && r->Ok_0 is Some && r->Ok_0->0@ == bond->0@,
        bond is None && contract->Ok_0 is Some ==> r is Ok && r->Ok_0 is Some && r->Ok_0->0@
            == contract->Ok_0->0@,
        bond is None && contract->Ok_0 is None ==> {
            &&& r is Ok <==> own is Ok
            &&& r is Ok ==> (r->Ok_0 is Some <==> own->Ok_0 is Some)
            &&& r is Ok && r->Ok_0 is Some ==> r->Ok_0->0@ == own->Ok_0->0@
        },
{
}

/// An output on a script that a swap coin was swept to, with a path in its descriptor, is a swept
/// coin and nothing else.
pub proof fn law_swept_outputs(wallet: Wallet, utxo: Utxo, r: Option<UTXOSpendInfo>)
    requires
        call_ensures(Wallet::check_if_swept_incoming_swapcoin, (&wallet, &utxo), r),
    ensures
        r is Some <==> wallet@.swept_incoming_swapcoins.contains(utxo@.script_pub_key)
            && utxo@.descriptor is Some && hd_path(utxo@.descriptor->0) is Some,
        r matches Some(info) ==> info@ is SweptCoin && stands_on_path(
            utxo@,
            info@->SweptCoin_path,
            info@->SweptCoin_input_value,
            info@->SweptCoin_address_type,
        ),
{
    reveal_strlit("tr(");
}

} // verus!
