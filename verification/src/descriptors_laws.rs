//! What the descriptors and addresses of a wallet promise.

use crate::chain::{
    descriptor_body, get_derivation_path, lemma_branch_digits, with_checksum, SeedKeychain,
};
use crate::descriptors::{
    coin_descriptors, contract_descriptors, multisig_descriptor, raw_descriptor, swap_descriptors,
    unspendable, with_checksums, AddressRequest, ImportStatus, WalletDescriptors,
};
use crate::error::WalletError;
use crate::keys::{
    derived_key, descriptor_checksum, key_fingerprint, p2wsh_script, parsed_descriptor, path_steps,
    public_key, public_key_text, ExtendedKey,
};
use crate::listing::unused_index;
use crate::listing_laws::stands_on;
use crate::swapcoin::SwapCoinView;
use crate::table::Rows;
use crate::text::hex;
use crate::types::{AddressType, KeychainKind, OutPoint};
use crate::utxo::{UTXOSpendInfo, Utxo, UtxoView};
use crate::wallet::{texts_view, Wallet};
use vstd::prelude::*;

verus! {

/// The public key of the account for an address type: purpose 84 for P2WPKH, 86 for P2TR.
pub open spec fn account_text(master: ExtendedKey, address_type: AddressType) -> Option<Seq<char>> {
    match path_steps(
        if address_type is P2TR {
            "m/86'/1'/0'"@
        } else {
            "m/84'/1'/0'"@
        },
    ) {
        Some(steps) => match derived_key(master, steps) {
            Some(key) => public_key_text(key),
            None => None,
        },
        None => None,
    }
}

/// The descriptor of a branch of the account: 0 for the external, 1 for the internal one.
pub open spec fn branch_text(account: Seq<char>, address_type: AddressType, internal: bool) -> Seq<
    char,
> {
    (if address_type is P2TR {
        "tr("@
    } else {
        "wpkh("@
    }) + account + (if internal {
        "/1/*)"@
    } else {
        "/0/*)"@
    })
}

proof fn lemma_branch_text(account: Seq<char>, address_type: AddressType, kind: KeychainKind)
    ensures
        descriptor_body(account, SeedKeychain { address_type, kind }) == branch_text(
            account,
            address_type,
            kind is Internal,
        ),
{
    reveal_strlit("/");
    reveal_strlit("/*)");
    reveal_strlit("/0/*)");
    reveal_strlit("/1/*)");
    lemma_branch_digits();
    let body = descriptor_body(account, SeedKeychain { address_type, kind });
    assert(body =~= branch_text(account, address_type, kind is Internal));
}

/// The descriptors of an account: both around its public key, the external one on branch 0, the
/// internal one on branch 1, each with the checksum of what stands before it.
pub proof fn law_wallet_descriptors(
    wallet: Wallet,
    address_type: AddressType,
    r: WalletDescriptors,
)
    requires
        call_ensures(Wallet::get_wallet_descriptors, (&wallet, address_type), Ok(r)),
    ensures
        account_text(wallet@.master_key, address_type) matches Some(account) && {
            let (external, internal) = (
                branch_text(account, address_type, false),
                branch_text(account, address_type, true),
            );
            &&& descriptor_checksum(external) matches Some(sum) && r.external@ == external + "#"@
                + sum
            &&& descriptor_checksum(internal) matches Some(sum) && r.internal@ == internal + "#"@
                + sum
        },
{
    let account = account_text(wallet@.master_key, address_type)->0;
    lemma_branch_text(account, address_type, KeychainKind::External);
    lemma_branch_text(account, address_type, KeychainKind::Internal);
}

/// The descriptor of a keychain is the parsed form of the descriptor of its branch.
pub proof fn law_keychain_descriptor(
    keychain: SeedKeychain,
    master: ExtendedKey,
    r: Result<String, WalletError>,
)
    requires
        call_ensures(SeedKeychain::descriptor, (keychain, &master), r),
    ensures
        match account_text(master, keychain.address_type) {
            Some(account) => parsed_descriptor(
                branch_text(account, keychain.address_type, keychain.kind is Internal),
            ) == match r {
                Ok(text) => Some(text@),
                Err(_) => None,
            },
            None => r is Err,
        },
{
    if let Some(account) = account_text(master, keychain.address_type) {
        lemma_branch_text(account, keychain.address_type, keychain.kind);
    }
}

/// The accounts of the two address types differ by their purpose.
pub proof fn law_account_paths(p2wpkh: &'static str, p2tr: &'static str)
    requires
        call_ensures(get_derivation_path, (AddressType::P2WPKH,), p2wpkh),
        call_ensures(get_derivation_path, (AddressType::P2TR,), p2tr),
    ensures
        p2wpkh@ == "m/84'/1'/0'"@,
        p2tr@ == "m/86'/1'/0'"@,
{
}

/// A descriptor of the wallet is to be imported exactly where the node does not know its first
/// address or does not know its last one; one that it was not asked about counts as unknown.
pub proof fn law_unknown_descriptors_are_imported(
    wallet: Wallet,
    address_type: AddressType,
    external: ImportStatus,
    internal: ImportStatus,
    d: WalletDescriptors,
    r: Vec<String>,
)
    requires
        call_ensures(Wallet::get_wallet_descriptors, (&wallet, address_type), Ok(d)),
        call_ensures(
            Wallet::get_unimported_wallet_desc,
            (&wallet, address_type, external, internal),
            Ok(r),
        ),
        d.external@ != d.internal@,
    ensures
        texts_view(r@).contains(d.external@) <==> !(external.first_address == Some(true)
            && external.last_address == Some(true)),
        texts_view(r@).contains(d.internal@) <==> !(internal.first_address == Some(true)
            && internal.last_address == Some(true)),
        forall|i: int|
            0 <= i < r@.len() ==> (#[trigger] r@[i])@ == d.external@ || r@[i]@ == d.internal@,
{
    let list = texts_view(r@);
    let first = !external.is_imported();
    if first {
        assert(list[0] == d.external@);
    }
    if !internal.is_imported() {
        assert(list[if first {
            1
        } else {
            0
        }] == d.internal@);
    }
    assert forall|i: int| 0 <= i < r@.len() implies (#[trigger] r@[i])@ == d.external@ || r@[i]@
        == d.internal@ by {
        assert(list[i] == r@[i]@);
        assert(list == crate::descriptors::unimported(
            d.external@,
            d.internal@,
            external,
            internal,
        ));
        if i >= 1 {
            assert(list[1] == d.internal@);
        }
    }
}

/// The next external address is asked for at the external index, which moves on by one and only by
/// one with every address that is handed out: no address is handed out twice.
pub proof fn law_external_addresses_follow_each_other(
    wallet: &mut Wallet,
    before: Wallet,
    after: Wallet,
    address_type: AddressType,
    derived: Vec<String>,
    first: AddressRequest,
    r: String,
    second: AddressRequest,
)
    requires
        derived@.len() > 0,
        old(wallet)@.external_index < u32::MAX,
        before@ == old(wallet)@,
        after@ == final(wallet)@,
        call_ensures(Wallet::external_address_request, (&before, address_type), Ok(first)),
        call_ensures(Wallet::get_next_external_address, (wallet, derived), r),
        call_ensures(Wallet::external_address_request, (&after, address_type), Ok(second)),
    ensures
        r@ == derived@[0]@,
        first.start == first.end,
        first.start == old(wallet)@.external_index,
        second.start == second.end,
        second.start == first.start + 1,
        second.descriptor@ == first.descriptor@,
        final(wallet)@.utxo_cache == old(wallet)@.utxo_cache,
        final(wallet)@.incoming_swapcoins == old(wallet)@.incoming_swapcoins,
        final(wallet)@.outgoing_swapcoins == old(wallet)@.outgoing_swapcoins,
{
}

/// External addresses are derived from the external descriptor, internal ones from the internal one.
pub proof fn law_addresses_stay_on_their_branch(
    wallet: Wallet,
    count: u32,
    address_type: AddressType,
    last_used: Option<u32>,
    d: WalletDescriptors,
    external: AddressRequest,
    internal: AddressRequest,
)
    requires
        unused_index(wallet@.utxo_cache, 1, last_used) + count <= u32::MAX,
        call_ensures(Wallet::get_wallet_descriptors, (&wallet, address_type), Ok(d)),
        call_ensures(Wallet::external_address_request, (&wallet, address_type), Ok(external)),
        call_ensures(
            Wallet::get_next_internal_addresses,
            (&wallet, count, address_type, last_used),
            Ok(internal),
        ),
    ensures
        external.descriptor@ == d.external@,
        internal.descriptor@ == d.internal@,
        internal.end == internal.start + count,
{
}

/// No internal address that is asked for was used: none that a cached coin stands on, and none up to
/// the last one that was ever used.
pub proof fn law_internal_addresses_are_fresh(
    wallet: Wallet,
    count: u32,
    address_type: AddressType,
    last_used: Option<u32>,
    r: AddressRequest,
    i: int,
    index: int,
)
    requires
        unused_index(wallet@.utxo_cache, 1, last_used) + count <= u32::MAX,
        call_ensures(
            Wallet::get_next_internal_addresses,
            (&wallet, count, address_type, last_used),
            Ok(r),
        ),
        0 <= i < wallet@.utxo_cache.len(),
        stands_on(wallet@.utxo_cache[i].1, 1, index),
    ensures
        index < r.start,
        last_used matches Some(last) ==> last < r.start,
{
    crate::listing::law_unused_index_is_fresh(wallet@.utxo_cache, 1, last_used);
}

/// The list holds the descriptor, with its checksum.
pub open spec fn is_described(list: Seq<Seq<char>>, body: Seq<char>) -> bool {
    descriptor_checksum(body) matches Some(sum) && list.contains(body + "#"@ + sum)
}

/// The node learns of the contract of every swap coin, of the multisig of every swap coin whose keys
/// are known, of every bond, and of every descriptor that was handed in.
pub proof fn law_contracts_are_imported(
    wallet: Wallet,
    p2wpkh: Vec<String>,
    p2tr: Vec<String>,
    r: Vec<String>,
    incoming: bool,
    i: int,
    j: int,
    k: int,
)
    requires
        call_ensures(Wallet::descriptors_to_import, (&wallet, p2wpkh, p2tr), Ok(r)),
    ensures
        ({
            let rows = if incoming {
                wallet@.incoming_swapcoins
            } else {
                wallet@.outgoing_swapcoins
            };
            let list = texts_view(r@);
            &&& 0 <= i < rows.len() && rows[i].1.contract_redeemscript is Some ==> is_described(
                list,
                "raw("@ + hex(p2wsh_script(rows[i].1.contract_redeemscript->0)) + ")"@,
            )
            &&& 0 <= i < rows.len() && rows[i].1.my_pubkey is Some && rows[i].1.other_pubkey is Some
                ==> is_described(
                list,
                "wsh(sortedmulti(2,"@ + hex(rows[i].1.other_pubkey->0@) + ","@ + hex(
                    rows[i].1.my_pubkey->0@,
                ) + "))"@,
            )
            &&& 0 <= j < wallet@.fidelity_bond.len() ==> is_described(
                list,
                "raw("@ + hex(wallet@.fidelity_bond[j].1.script_pub_key) + ")"@,
            )
            &&& 0 <= k < p2wpkh@.len() ==> list.contains(p2wpkh@[k]@)
            &&& 0 <= k < p2tr@.len() ==> list.contains(p2tr@[k]@)
        }),
{
    let (ins, outs) = (wallet@.incoming_swapcoins, wallet@.outgoing_swapcoins);
    let (a, b) = (swap_descriptors(ins), swap_descriptors(outs));
    let bodies = contract_descriptors(wallet@);
    let rows = if incoming {
        ins
    } else {
        outs
    };
    let (x, y, z) = (texts_view(p2wpkh@), texts_view(p2tr@), with_checksums(bodies));
    let list = texts_view(r@);
    assert forall|body: Seq<char>| bodies.contains(body) implies #[trigger] is_described(
        list,
        body,
    ) by {
        let n = choose|n: int| 0 <= n < bodies.len() && bodies[n] == body;
        assert(with_checksum(bodies[n]) is Some);
        assert(z[n] == with_checksum(body)->0);
        assert(list[x.len() + y.len() + n] == z[n]);
    }
    if 0 <= i < rows.len() {
        let coin = rows[i].1;
        let own = coin_descriptors(coin);
        assert forall|m: int| 0 <= m < own.len() implies bodies.contains(#[trigger] own[m]) by {
            let n = lemma_coin_described(rows, i, m);
            if incoming {
                assert(bodies[n] == own[m]);
            } else {
                assert(bodies[a.len() + n] == own[m]);
            }
        }
        if let Some(script) = coin.contract_redeemscript {
            assert(own.last() == raw_descriptor(p2wsh_script(script)));
            assert(own[own.len() - 1] == own.last());
        }
        if coin.my_pubkey is Some && coin.other_pubkey is Some {
            assert(own[0] == multisig_descriptor(coin.other_pubkey->0@, coin.my_pubkey->0@));
        }
    }
    if 0 <= j < wallet@.fidelity_bond.len() {
        assert(bodies[a.len() + b.len() + j] == raw_descriptor(
            wallet@.fidelity_bond[j].1.script_pub_key,
        ));
    }
    if 0 <= k < p2wpkh@.len() {
        assert(list[k] == x[k]);
    }
    if 0 <= k < p2tr@.len() {
        assert(list[x.len() + k] == y[k]);
    }
}

/// Where the descriptors of a coin stand among those of all.
proof fn lemma_coin_described(rows: Rows<Seq<char>, SwapCoinView>, i: int, m: int) -> (n: int)
    requires
        0 <= i < rows.len(),
        0 <= m < coin_descriptors(rows[i].1).len(),
    ensures
        0 <= n < swap_descriptors(rows).len(),
        swap_descriptors(rows)[n] == coin_descriptors(rows[i].1)[m],
    decreases rows.len(),
{
    let rest = swap_descriptors(rows.drop_last());
    if i == rows.len() - 1 {
        rest.len() + m
    } else {
        assert(rows.drop_last()[i] == rows[i]);
        lemma_coin_described(rows.drop_last(), i, m)
    }
}

/// An output is to be locked exactly where it is listed and the wallet cannot spend it as a coin of
/// its own.
pub proof fn law_foreign_outputs_are_locked(
    wallet: Wallet,
    utxos: Vec<Utxo>,
    r: Vec<OutPoint>,
    i: int,
    info: Option<UTXOSpendInfo>,
)
    requires
        call_ensures(Wallet::lock_unspendable_utxos, (&wallet, &utxos), Ok(r)),
        0 <= i < utxos@.len(),
        call_ensures(
            Wallet::check_and_derive_descriptor_utxo_or_swap_coin,
            (&wallet, &utxos@[i]),
            Ok(info),
        ),
        forall|j: int|
            0 <= j < utxos@.len() && j != i ==> (#[trigger] utxos@[j])@.outpoint()
                != utxos@[i]@.outpoint(),
    ensures
        r@.contains(utxos@[i]@.outpoint()) <==> info is None,
        forall|k: int|
            0 <= k < r@.len() ==> exists|j: int|
                0 <= j < utxos@.len() && (#[trigger] utxos@[j])@.outpoint() == #[trigger] r@[k],
{
    let views = utxos@.map_values(|u: Utxo| u@);
    let outpoint = utxos@[i]@.outpoint();
    assert(views[i] == utxos@[i]@);
    if info is None {
        lemma_locked(wallet, views, i);
    }
    assert forall|k: int| 0 <= k < r@.len() implies exists|j: int|
        0 <= j < utxos@.len() && (#[trigger] utxos@[j])@.outpoint() == #[trigger] r@[k] by {
        assert(r@.contains(r@[k]));
        crate::descriptors::law_wallet_coins_are_not_locked(wallet@, views, r@[k]);
        let j = choose|j: int|
            0 <= j < views.len() && (#[trigger] views[j]).outpoint() == r@[k]
                && crate::coins::wallet_info(wallet@, views[j]) == Ok::<
                Option<crate::utxo::SpendInfoView>,
                (),
            >(None);
        assert(utxos@[j]@.outpoint() == r@[k]);
    }
    if r@.contains(outpoint) {
        crate::descriptors::law_wallet_coins_are_not_locked(wallet@, views, outpoint);
        let j = choose|j: int|
            0 <= j < views.len() && (#[trigger] views[j]).outpoint() == outpoint
                && crate::coins::wallet_info(wallet@, views[j]) == Ok::<
                Option<crate::utxo::SpendInfoView>,
                (),
            >(None);
        assert(utxos@[j]@.outpoint() == outpoint);
        assert(j == i);
    }
}

proof fn lemma_locked(wallet: Wallet, utxos: Seq<UtxoView>, i: int)
    requires
        0 <= i < utxos.len(),
        crate::coins::wallet_info(wallet@, utxos[i]) == Ok::<
            Option<crate::utxo::SpendInfoView>,
            (),
        >(None),
    ensures
        unspendable(wallet@, utxos).contains(utxos[i].outpoint()),
    decreases utxos.len(),
{
    let less = utxos.drop_last();
    let (rest, all) = (unspendable(wallet@, less), unspendable(wallet@, utxos));
    if i == utxos.len() - 1 {
        assert(all[rest.len() as int] == utxos[i].outpoint());
    } else {
        assert(less[i] == utxos[i]);
        lemma_locked(wallet, less, i);
        let k = choose|k: int| 0 <= k < rest.len() && rest[k] == utxos[i].outpoint();
        assert(all[k] == rest[k]);
    }
}

/// Swap keys are tweaked from the first hardened child of the master key, and the two keys that are
/// handed out belong together.
pub proof fn law_tweakable_keys_belong_together(wallet: Wallet, r: ([u8; 32], Vec<u8>))
    requires
        call_ensures(Wallet::get_tweakable_keypair, (&wallet,), Ok(r)),
    ensures
        derived_key(wallet@.master_key, seq![0x8000_0000u32]) matches Some(key) && r.0@
            == key.bytes@.subrange(46, 78),
        public_key(r.0@) == Some(r.1@),
{
}

/// The node knows the wallet by the fingerprint of its master key, and nothing else.
pub proof fn law_label_is_the_fingerprint(wallet: Wallet, other: Wallet, r: String, s: String)
    requires
        call_ensures(Wallet::get_core_wallet_label, (&wallet,), Ok(r)),
        call_ensures(Wallet::get_core_wallet_label, (&other,), Ok(s)),
    ensures
        key_fingerprint(wallet@.master_key) == Some(r@),
        wallet@.master_key == other@.master_key ==> r@ == s@,
{
}

} // verus!
