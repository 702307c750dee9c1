//! The descriptors and addresses of a wallet.

use crate::chain::{
    account_public_key, add_checksum, derive_account_key, describe, descriptor_body, with_checksum,
    SeedKeychain,
};
use crate::coins::wallet_info;
use crate::error::WalletError;
use crate::keys::{
    compressed_public_key, derive_key, derived_key, extended_public_key, fingerprint,
    key_fingerprint, p2wsh_script, private_key, public_key, to_p2wsh, ExtendedKey,
};
use crate::listing::unused_index;
use crate::store::{FidelityBond, FidelityBondView, StoreView};
use crate::swapcoin::{SwapCoin, SwapCoinView};
use crate::table::{Rows, Table};
use crate::text::{hex, hex_text};
use crate::types::{AddressType, KeychainKind, OutPoint};
use crate::utxo::{Utxo, UtxoView};
use crate::wallet::{texts_view, Wallet};
use vstd::prelude::*;
use vstd::string::StringExecFns;

verus! {

/// The number of addresses that are imported for each descriptor.
pub const ADDRESS_IMPORT_COUNT: u32 = 5000;

/// The descriptors of the two branches of an account.
#[derive(Debug)]
pub struct WalletDescriptors {
    pub external: String,
    pub internal: String,
}

/// The descriptor of a keychain with its checksum.
pub open spec fn wallet_descriptor(
    store: StoreView,
    address_type: AddressType,
    kind: KeychainKind,
) -> Option<Seq<char>> {
    match account_public_key(store.master_key, address_type) {
        Some(key) => with_checksum(descriptor_body(key, SeedKeychain { address_type, kind })),
        None => None,
    }
}

/// Whether the first and the last address of a descriptor are known to the node, as far as it says.
#[derive(Debug, Clone, Copy, PartialEq, Eq, Structural)]
pub struct ImportStatus {
    pub first_address: Option<bool>,
    pub last_address: Option<bool>,
}

impl ImportStatus {
    /// Both addresses are known.
    pub open spec fn is_imported(self) -> bool {
        self.first_address == Some(true) && self.last_address == Some(true)
    }
}

/// The descriptors that are still to be imported.
pub open spec fn unimported(
    external: Seq<char>,
    internal: Seq<char>,
    external_status: ImportStatus,
    internal_status: ImportStatus,
) -> Seq<Seq<char>> {
    (if external_status.is_imported() {
        Seq::empty()
    } else {
        seq![external]
    }) + (if internal_status.is_imported() {
        Seq::empty()
    } else {
        seq![internal]
    })
}

/// A range of addresses to derive from a descriptor, both ends included.
#[derive(Debug)]
pub struct AddressRequest {
    pub descriptor: String,
    pub start: u32,
    pub end: u32,
}

/// The descriptor of a 2-of-2 multisig of two public keys, without checksum.
pub open spec fn multisig_descriptor(first: Seq<u8>, second: Seq<u8>) -> Seq<char> {
    "wsh(sortedmulti(2,"@ + hex(first) + ","@ + hex(second) + "))"@
}

/// The descriptor of an output script, without checksum.
pub open spec fn raw_descriptor(script: Seq<u8>) -> Seq<char> {
    "raw("@ + hex(script) + ")"@
}

/// The descriptors of a swap coin: of its multisig, and of its contract.
pub open spec fn coin_descriptors(coin: SwapCoinView) -> Seq<Seq<char>> {
    (match (coin.my_pubkey, coin.other_pubkey) {
        (Some(mine), Some(other)) => seq![multisig_descriptor(other@, mine@)],
        _ => Seq::empty(),
    }) + (match coin.contract_redeemscript {
        Some(script) => seq![raw_descriptor(p2wsh_script(script))],
        None => Seq::empty(),
    })
}

/// The descriptors of all swap coins.
pub open spec fn swap_descriptors(rows: Rows<Seq<char>, SwapCoinView>) -> Seq<Seq<char>>
    decreases rows.len(),
{
    if rows.len() == 0 {
        Seq::empty()
    } else {
        swap_descriptors(rows.drop_last()) + coin_descriptors(rows.last().1)
    }
}

/// The descriptors of all fidelity bonds.
pub open spec fn bond_descriptors(rows: Rows<u32, FidelityBondView>) -> Seq<Seq<char>> {
    rows.map_values(|row: (u32, FidelityBondView)| raw_descriptor(row.1.script_pub_key))
}

/// The descriptors of swap coins and bonds, without checksums.
pub open spec fn contract_descriptors(store: StoreView) -> Seq<Seq<char>> {
    swap_descriptors(store.incoming_swapcoins) + swap_descriptors(store.outgoing_swapcoins)
        + bond_descriptors(store.fidelity_bond)
}

/// Each of `bodies` has a checksum.
pub open spec fn have_checksums(bodies: Seq<Seq<char>>) -> bool {
    forall|i: int| 0 <= i < bodies.len() ==> with_checksum(#[trigger] bodies[i]) is Some
}

/// Each of `bodies` with its checksum.
pub open spec fn with_checksums(bodies: Seq<Seq<char>>) -> Seq<Seq<char>> {
    bodies.map_values(|body: Seq<char>| with_checksum(body)->0)
}

/// The outputs that are no coins of the wallet.
pub open spec fn unspendable(store: StoreView, utxos: Seq<UtxoView>) -> Seq<OutPoint>
    decreases utxos.len(),
{
    if utxos.len() == 0 {
        Seq::empty()
    } else {
        let rest = unspendable(store, utxos.drop_last());
        match wallet_info(store, utxos.last()) {
            Ok(None) => rest.push(utxos.last().outpoint()),
            _ => rest,
        }
    }
}

// ---------------------------------------------------------------------------------------------
// Writing descriptors
// ---------------------------------------------------------------------------------------------

fn key_bytes(key: &[u8; 33]) -> (r: Vec<u8>)
    ensures
        r@ == key@,
{
    let mut r: Vec<u8> = Vec::new();
    let mut i: usize = 0;
    while i < 33
        invariant
            i <= 33,
            r.len() == i,
            forall|k: int| 0 <= k < i ==> r@[k] == key@[k],
        decreases 33 - i,
    {
        r.push(key[i]);
        i += 1;
    }
    assert(r@ =~= key@);
    r
}

/// Writes the descriptor of a 2-of-2 multisig, without checksum.
pub fn describe_multisig(first: &[u8; 33], second: &[u8; 33]) -> (r: String)
    ensures
        r@ == multisig_descriptor(first@, second@),
{
    let mut r = String::new();
    r.append("wsh(sortedmulti(2,");
    r.append(hex_text(&key_bytes(first)).as_str());
    r.append(",");
    r.append(hex_text(&key_bytes(second)).as_str());
    r.append("))");
    assert(r@ =~= multisig_descriptor(first@, second@));
    r
}

fn describe_raw(script: &Vec<u8>) -> (r: String)
    ensures
        r@ == raw_descriptor(script@),
{
    let mut r = String::new();
    r.append("raw(");
    r.append(hex_text(script).as_str());
    r.append(")");
    assert(r@ =~= raw_descriptor(script@));
    r
}

fn describe_coin(coin: &SwapCoin) -> (r: Vec<String>)
    ensures
        texts_view(r@) == coin_descriptors(coin@),
{
    let mut r: Vec<String> = Vec::new();
    match (&coin.my_pubkey, &coin.other_pubkey) {
        (Some(mine), Some(other)) => {
            r.push(describe_multisig(other, mine));
        },
        _ => {},
    }
    match &coin.contract_redeemscript {
        Some(script) => {
            r.push(describe_raw(&to_p2wsh(script).bytes));
        },
        None => {},
    }
    assert(texts_view(r@) =~= coin_descriptors(coin@));
    r
}

fn describe_swaps(coins: &Table<String, SwapCoin>) -> (r: Vec<String>)
    ensures
        texts_view(r@) == swap_descriptors(coins@),
{
    let mut r: Vec<String> = Vec::new();
    let mut i: usize = 0;
    assert(coins@.take(0) =~= Seq::<(Seq<char>, SwapCoinView)>::empty());
    assert(texts_view(r@) =~= Seq::<Seq<char>>::empty());
    while i < coins.rows.len()
        invariant
            i <= coins.rows.len(),
            texts_view(r@) == swap_descriptors(coins@.take(i as int)),
        decreases coins.rows.len() - i,
    {
        let mut more = describe_coin(&coins.rows[i].1);
        let ghost (front, back) = (r@, more@);
        r.append(&mut more);
        proof {
            assert(coins@.take(i + 1).drop_last() =~= coins@.take(i as int));
            assert(coins@[i as int].1 == coins.rows@[i as int].1@);
            assert(texts_view(r@) =~= texts_view(front) + texts_view(back));
        }
        i += 1;
    }
    assert(coins@.take(coins@.len() as int) =~= coins@);
    r
}

fn describe_bonds(bonds: &Table<u32, FidelityBond>) -> (r: Vec<String>)
    ensures
        texts_view(r@) == bond_descriptors(bonds@),
{
    let mut r: Vec<String> = Vec::new();
    let mut i: usize = 0;
    while i < bonds.rows.len()
        invariant
            i <= bonds.rows.len(),
            r.len() == i,
            forall|k: int| 0 <= k < i ==> (#[trigger] r@[k])@ == bond_descriptors(bonds@)[k],
        decreases bonds.rows.len() - i,
    {
        r.push(describe_raw(&bonds.rows[i].1.script_pub_key.bytes));
        i += 1;
    }
    assert(texts_view(r@) =~= bond_descriptors(bonds@));
    r
}

fn add_checksums(bodies: &Vec<String>) -> (r: Result<Vec<String>, WalletError>)
    ensures
        match r {
            Ok(texts) => have_checksums(texts_view(bodies@)) && texts_view(texts@)
                == with_checksums(texts_view(bodies@)),
            Err(e) => !have_checksums(texts_view(bodies@)) && e is Key,
        },
{
    let ghost views = texts_view(bodies@);
    let mut texts: Vec<String> = Vec::new();
    let mut i: usize = 0;
    while i < bodies.len()
        invariant
            i <= bodies.len(),
            views == texts_view(bodies@),
            texts.len() == i,
            forall|k: int|
                0 <= k < i ==> with_checksum(#[trigger] views[k]) == Some(texts@[k]@),
        decreases bodies.len() - i,
    {
        assert(views[i as int] == bodies@[i as int]@);
        match add_checksum(bodies[i].as_str()) {
            Ok(text) => {
                texts.push(text);
            },
            Err(e) => {
                assert(with_checksum(views[i as int]) is None);
                return Err(e);
            },
        }
        i += 1;
    }
    assert(texts_view(texts@) =~= with_checksums(views));
    Ok(texts)
}

impl Wallet {
    /// The number of addresses that are imported for each descriptor.
    pub fn get_addrss_import_count(&self) -> (r: u32)
        ensures
            r == ADDRESS_IMPORT_COUNT,
    {
        ADDRESS_IMPORT_COUNT
    }

    /// The descriptors of both branches for an address type.
    pub fn get_wallet_descriptors(&self, address_type: AddressType) -> (r: Result<
        WalletDescriptors,
        WalletError,
    >)
        ensures
            match r {
                Ok(d) => wallet_descriptor(self@, address_type, KeychainKind::External) == Some(
                    d.external@,
                ) && wallet_descriptor(self@, address_type, KeychainKind::Internal) == Some(
                    d.internal@,
                ),
                Err(e) => e is Key && (wallet_descriptor(
                    self@,
                    address_type,
                    KeychainKind::External,
                ) is None || wallet_descriptor(self@, address_type, KeychainKind::Internal) is None),
            },
    {
        let account = match derive_account_key(&self.store.master_key, address_type) {
            Ok(account) => account,
            Err(e) => {
                return Err(e);
            },
        };
        let key = match extended_public_key(&account) {
            Ok(key) => key,
            Err(text) => {
                return Err(WalletError::Key(text));
            },
        };
        let external_body = describe(
            key.as_str(),
            SeedKeychain { address_type, kind: KeychainKind::External },
        );
        let internal_body = describe(
            key.as_str(),
            SeedKeychain { address_type, kind: KeychainKind::Internal },
        );
        match (add_checksum(external_body.as_str()), add_checksum(internal_body.as_str())) {
            (Ok(external), Ok(internal)) => Ok(WalletDescriptors { external, internal }),
            (Err(e), _) => Err(e),
            (_, Err(e)) => Err(e),
        }
    }

    /// The descriptors for an address type that are still to be imported: those whose first or last
    /// address the node does not know.
    pub fn get_unimported_wallet_desc(
        &self,
        address_type: AddressType,
        external_status: ImportStatus,
        internal_status: ImportStatus,
    ) -> (r: Result<Vec<String>, WalletError>)
        ensures
            match r {
                Ok(list) => wallet_descriptor(self@, address_type, KeychainKind::External) is Some
                    && wallet_descriptor(self@, address_type, KeychainKind::Internal) is Some
                    && texts_view(list@) == unimported(
                    wallet_descriptor(self@, address_type, KeychainKind::External)->0,
                    wallet_descriptor(self@, address_type, KeychainKind::Internal)->0,
                    external_status,
                    internal_status,
                ),
                Err(e) => e is Key && (wallet_descriptor(
                    self@,
                    address_type,
                    KeychainKind::External,
                ) is None || wallet_descriptor(self@, address_type, KeychainKind::Internal) is None),
            },
    {
        match self.get_wallet_descriptors(address_type) {
            Ok(d) => {
                let ghost (external, internal) = (d.external@, d.internal@);
                let mut list: Vec<String> = Vec::new();
                if !is_known(external_status) {
                    list.push(d.external);
                }
                if !is_known(internal_status) {
                    list.push(d.internal);
                }
                assert(texts_view(list@) =~= unimported(
                    external,
                    internal,
                    external_status,
                    internal_status,
                ));
                Ok(list)
            },
            Err(e) => Err(e),
        }
    }

    /// The name of the wallet at the node: the fingerprint of the master key.
    pub fn get_core_wallet_label(&self) -> (r: Result<String, WalletError>)
        ensures
            match r {
                Ok(label) => key_fingerprint(self@.master_key) == Some(label@),
                Err(e) => key_fingerprint(self@.master_key) is None && e is Key,
            },
    {
        match fingerprint(&self.store.master_key) {
            Ok(label) => Ok(label),
            Err(text) => Err(WalletError::Key(text)),
        }
    }

    /// The key pair that swap keys are tweaked from: the first hardened child of the master key.
    pub fn get_tweakable_keypair(&self) -> (r: Result<([u8; 32], Vec<u8>), WalletError>)
        ensures
            match r {
                Ok((secret, public)) => tweakable_secret(self@.master_key) == Some(secret@)
                    && public_key(secret@) == Some(public@),
                Err(e) => e is Key && (match tweakable_secret(self@.master_key) {
                    Some(secret) => public_key(secret) is None,
                    None => true,
                }),
            },
    {
        let mut steps: Vec<u32> = Vec::new();
        steps.push(0x8000_0000);
        assert(steps@ =~= seq![0x8000_0000u32]);
        let key = match derive_key(&self.store.master_key, &steps) {
            Ok(key) => key,
            Err(text) => {
                return Err(WalletError::Key(text));
            },
        };
        let secret = key.private_key();
        match compressed_public_key(&secret) {
            Ok(public) => Ok((secret, public)),
            Err(text) => Err(WalletError::Key(text)),
        }
    }

    /// The next external address: the descriptor and the index to derive it from.
    pub fn external_address_request(&self, address_type: AddressType) -> (r: Result<
        AddressRequest,
        WalletError,
    >)
        ensures
            match r {
                Ok(request) => wallet_descriptor(
                    self@,
                    address_type,
                    KeychainKind::External,
                ) == Some(request.descriptor@) && request.start == self@.external_index
                    && request.end == self@.external_index,
                Err(e) => e is Key && (wallet_descriptor(
                    self@,
                    address_type,
                    KeychainKind::External,
                ) is None || wallet_descriptor(self@, address_type, KeychainKind::Internal) is None),
            },
    {
        match self.get_wallet_descriptors(address_type) {
            Ok(d) => Ok(
                AddressRequest {
                    descriptor: d.external,
                    start: self.store.external_index,
                    end: self.store.external_index,
                },
            ),
            Err(e) => Err(e),
        }
    }

    /// Takes the first of the addresses that were derived for the request as the next external
    /// address, and moves on to the next index.
    pub fn get_next_external_address(&mut self, derived: Vec<String>) -> (r: String)
        requires
            derived@.len() > 0,
            old(self)@.external_index < u32::MAX,
        ensures
            r@ == derived@[0]@,
            final(self)@ == (StoreView {
                external_index: (old(self)@.external_index + 1) as u32,
                ..old(self)@
            }),
    {
        self.store.external_index = self.store.external_index + 1;
        derived[0].clone()
    }

    /// The next internal addresses: the descriptor and the range to derive them from. None of them
    /// was used: the range starts behind the coins of the wallet and behind `last_used`, the last
    /// internal index that any transaction used.
    pub fn get_next_internal_addresses(
        &self,
        count: u32,
        address_type: AddressType,
        last_used: Option<u32>,
    ) -> (r: Result<AddressRequest, WalletError>)
        requires
            unused_index(self@.utxo_cache, 1, last_used) + count <= u32::MAX,
        ensures
            match r {
                Ok(request) => wallet_descriptor(
                    self@,
                    address_type,
                    KeychainKind::Internal,
                ) == Some(request.descriptor@) && request.start == unused_index(
                    self@.utxo_cache,
                    1,
                    last_used,
                ) && request.end == request.start + count,
                Err(e) => e is Key && (wallet_descriptor(
                    self@,
                    address_type,
                    KeychainKind::External,
                ) is None || wallet_descriptor(self@, address_type, KeychainKind::Internal) is None),
            },
    {
        let next: u32 = self.find_unused_index(KeychainKind::Internal, last_used);
        match self.get_wallet_descriptors(address_type) {
            Ok(d) => Ok(
                AddressRequest { descriptor: d.internal, start: next, end: next + count },
            ),
            Err(e) => Err(e),
        }
    }

    /// All descriptors that the node should know: those of the wallet that are still to be
    /// imported, and those of swap coins and bonds.
    pub fn descriptors_to_import(&self, p2wpkh: Vec<String>, p2tr: Vec<String>) -> (r: Result<
        Vec<String>,
        WalletError,
    >)
        ensures
            match r {
                Ok(list) => have_checksums(contract_descriptors(self@)) && texts_view(list@)
                    == texts_view(p2wpkh@) + texts_view(p2tr@) + with_checksums(
                    contract_descriptors(self@),
                ),
                Err(e) => !have_checksums(contract_descriptors(self@)) && e is Key,
            },
    {
        let mut bodies = describe_swaps(&self.store.incoming_swapcoins);
        let mut outgoing = describe_swaps(&self.store.outgoing_swapcoins);
        let mut bonds = describe_bonds(&self.store.fidelity_bond);
        let ghost (a, b, c) = (bodies@, outgoing@, bonds@);
        bodies.append(&mut outgoing);
        bodies.append(&mut bonds);
        assert(texts_view(bodies@) =~= texts_view(a) + texts_view(b) + texts_view(c));
        match add_checksums(&bodies) {
            Ok(texts) => {
                let mut texts = texts;
                let mut list = p2wpkh;
                let mut tail = p2tr;
                let ghost (x, y, z) = (list@, tail@, texts@);
                list.append(&mut tail);
                list.append(&mut texts);
                assert(texts_view(list@) =~= texts_view(x) + texts_view(y) + texts_view(z));
                Ok(list)
            },
            Err(e) => Err(e),
        }
    }

    /// The outputs that are to be locked: those that are no coins of the wallet, such as fidelity
    /// bonds and live contracts.
    pub fn lock_unspendable_utxos(&self, all_unspents: &Vec<Utxo>) -> (r: Result<
        Vec<OutPoint>,
        WalletError,
    >)
        ensures
            match r {
                Ok(list) => list@ == unspendable(
                    self@,
                    all_unspents@.map_values(|u: Utxo| u@),
                ) && forall|i: int|
                    0 <= i < all_unspents@.len() ==> wallet_info(
                        self@,
                        (#[trigger] all_unspents@[i])@,
                    ) is Ok,
                Err(e) => e is Key && exists|i: int|
                    0 <= i < all_unspents@.len() && wallet_info(
                        self@,
                        (#[trigger] all_unspents@[i])@,
                    ) is Err,
            },
    {
        let ghost views = all_unspents@.map_values(|u: Utxo| u@);
        let mut list: Vec<OutPoint> = Vec::new();
        let mut i: usize = 0;
        assert(views.take(0) =~= Seq::<UtxoView>::empty());
        while i < all_unspents.len()
            invariant
                i <= all_unspents.len(),
                views == all_unspents@.map_values(|u: Utxo| u@),
                list@ == unspendable(self@, views.take(i as int)),
                forall|k: int|
                    0 <= k < i ==> wallet_info(self@, (#[trigger] all_unspents@[k])@) is Ok,
            decreases all_unspents.len() - i,
        {
            proof {
                assert(views.take(i + 1).drop_last() =~= views.take(i as int));
                assert(views[i as int] == all_unspents@[i as int]@);
            }
            match self.check_and_derive_descriptor_utxo_or_swap_coin(&all_unspents[i]) {
                Ok(Some(_)) => {},
                Ok(None) => {
                    list.push(all_unspents[i].outpoint());
                },
                Err(e) => {
                    return Err(e);
                },
            }
            i += 1;
        }
        assert(views.take(views.len() as int) =~= views);
        Ok(list)
    }
}

/// Whether both addresses are known to the node.
fn is_known(status: ImportStatus) -> (r: bool)
    ensures
        r == status.is_imported(),
{
    match (status.first_address, status.last_address) {
        (Some(first), Some(last)) => first && last,
        _ => false,
    }
}

/// The private key that swap keys are tweaked from.
pub open spec fn tweakable_secret(master: ExtendedKey) -> Option<Seq<u8>> {
    match derived_key(master, seq![0x8000_0000u32]) {
        Some(key) => Some(private_key(key)),
        None => None,
    }
}

/// An output that the wallet can spend as its own is never locked.
pub proof fn law_wallet_coins_are_not_locked(store: StoreView, utxos: Seq<UtxoView>, outpoint: OutPoint)
    requires
        unspendable(store, utxos).contains(outpoint),
    ensures
        exists|i: int|
            0 <= i < utxos.len() && (#[trigger] utxos[i]).outpoint() == outpoint && wallet_info(
                store,
                utxos[i],
            ) == Ok::<Option<crate::utxo::SpendInfoView>, ()>(None),
    decreases utxos.len(),
{
    if utxos.len() > 0 {
        let less = utxos.drop_last();
        let rest = unspendable(store, less);
        let all = unspendable(store, utxos);
        let k = choose|k: int| 0 <= k < all.len() && all[k] == outpoint;
        if k < rest.len() {
            assert(rest[k] == outpoint);
            law_wallet_coins_are_not_locked(store, less, outpoint);
            let i = choose|i: int|
                0 <= i < less.len() && (#[trigger] less[i]).outpoint() == outpoint && wallet_info(
                    store,
                    less[i],
                ) == Ok::<Option<crate::utxo::SpendInfoView>, ()>(None);
            assert(utxos[i] == less[i]);
        } else {
            assert(utxos[utxos.len() - 1].outpoint() == outpoint);
        }
    }
}

} // verus!
