//! The keychains that are derived from the seed.

use crate::error::{general_error, WalletError};
use crate::keys::{
    checksum, derive_key, derived_key, descriptor_checksum, extended_public_key, parse_descriptor,
    parse_path, parsed_descriptor, path_steps, public_key_text, ExtendedKey,
};
use crate::text::{decimal, decimal_text, starts_with};
use crate::types::{AddressType, KeychainKind};
use vstd::prelude::*;
use vstd::string::StringExecFns;

verus! {

/// The number of scripts that are looked ahead for on each keychain.
pub const KEYCHAIN_LOOKAHEAD: u32 = 100;

/// One of the keychains that are derived from the seed.
#[derive(Debug, Clone, Copy, PartialEq, Eq, PartialOrd, Ord, Hash, Structural)]
pub struct SeedKeychain {
    pub address_type: AddressType,
    pub kind: KeychainKind,
}

/// The hardened path of the account for an address type: purpose 84 for P2WPKH, 86 for P2TR.
pub open spec fn account_path(address_type: AddressType) -> Seq<char> {
    match address_type {
        AddressType::P2WPKH => "m/84'/1'/0'"@,
        AddressType::P2TR => "m/86'/1'/0'"@,
    }
}

/// The hardened path of the account for an address type.
pub fn get_derivation_path(address_type: AddressType) -> (r: &'static str)
    ensures
        r@ == account_path(address_type),
{
    match address_type {
        AddressType::P2WPKH => "m/84'/1'/0'",
        AddressType::P2TR => "m/86'/1'/0'",
    }
}

/// The key that a path leads to.
pub open spec fn key_at(key: ExtendedKey, path: Seq<char>) -> Option<ExtendedKey> {
    match path_steps(path) {
        Some(steps) => derived_key(key, steps),
        None => None,
    }
}

/// The key of the account for an address type.
pub open spec fn account_key(master: ExtendedKey, address_type: AddressType) -> Option<ExtendedKey> {
    key_at(master, account_path(address_type))
}

/// Derives a key along a path.
pub fn derive_by_path(key: &ExtendedKey, path: &str) -> (r: Result<ExtendedKey, WalletError>)
    ensures
        match r {
            Ok(child) => key_at(*key, path@) == Some(child),
            Err(e) => key_at(*key, path@) is None && e is Key,
        },
{
    match parse_path(path) {
        Ok(steps) => match derive_key(key, &steps) {
            Ok(child) => Ok(child),
            Err(text) => Err(WalletError::Key(text)),
        },
        Err(text) => Err(WalletError::Key(text)),
    }
}

/// Derives the key of the account for an address type.
pub fn derive_account_key(master: &ExtendedKey, address_type: AddressType) -> (r: Result<
    ExtendedKey,
    WalletError,
>)
    ensures
        match r {
            Ok(key) => account_key(*master, address_type) == Some(key),
            Err(e) => account_key(*master, address_type) is None && e is Key,
        },
{
    derive_by_path(master, get_derivation_path(address_type))
}

/// The extended public key of the account for an address type.
pub open spec fn account_public_key(master: ExtendedKey, address_type: AddressType) -> Option<
    Seq<char>,
> {
    match account_key(master, address_type) {
        Some(key) => public_key_text(key),
        None => None,
    }
}

/// The descriptor of a keychain without its checksum: the account key, the branch and a wildcard,
/// inside `wpkh` or `tr`.
pub open spec fn descriptor_body(public_key: Seq<char>, keychain: SeedKeychain) -> Seq<char> {
    let inner = public_key + "/"@ + decimal(keychain.kind.spec_index_num() as nat) + "/*)"@;
    match keychain.address_type {
        AddressType::P2WPKH => "wpkh("@ + inner,
        AddressType::P2TR => "tr("@ + inner,
    }
}

/// A descriptor with its checksum behind it.
pub open spec fn with_checksum(body: Seq<char>) -> Option<Seq<char>> {
    match descriptor_checksum(body) {
        Some(sum) => Some(body + "#"@ + sum),
        None => None,
    }
}

/// The public descriptor of a keychain of the wallet with this master key.
pub open spec fn keychain_descriptor(master: ExtendedKey, keychain: SeedKeychain) -> Option<
    Seq<char>,
> {
    match account_public_key(master, keychain.address_type) {
        Some(public_key) => parsed_descriptor(descriptor_body(public_key, keychain)),
        None => None,
    }
}

/// What the error is about where there is no such descriptor.
pub open spec fn descriptor_failure(master: ExtendedKey, keychain: SeedKeychain) -> Seq<char> {
    if path_steps(account_path(keychain.address_type)) is None {
        "invalid account path: "@
    } else {
        match account_public_key(master, keychain.address_type) {
            None => "derive account xpriv: "@,
            Some(public_key) => "parse descriptor `"@ + descriptor_body(public_key, keychain)
                + "`: "@,
        }
    }
}

/// Puts the checksum behind a descriptor.
pub fn add_checksum(body: &str) -> (r: Result<String, WalletError>)
    ensures
        match r {
            Ok(text) => with_checksum(body@) == Some(text@),
            Err(e) => with_checksum(body@) is None && e is Key,
        },
{
    match checksum(body) {
        Ok(sum) => {
            let mut r = String::new();
            r.append(body);
            r.append("#");
            r.append(sum.as_str());
            assert(r@ =~= body@ + "#"@ + sum@);
            Ok(r)
        },
        Err(text) => Err(WalletError::Key(text)),
    }
}

/// Writes the descriptor of a keychain around an account key.
pub fn describe(public_key: &str, keychain: SeedKeychain) -> (r: String)
    ensures
        r@ == descriptor_body(public_key@, keychain),
{
    let mut r = String::new();
    match keychain.address_type {
        AddressType::P2WPKH => r.append("wpkh("),
        AddressType::P2TR => r.append("tr("),
    }
    r.append(public_key);
    r.append("/");
    r.append(decimal_text(keychain.branch_index() as u64).as_str());
    r.append("/*)");
    assert(r@ =~= descriptor_body(public_key@, keychain));
    r
}

/// Both branches of both address types.
pub open spec fn all_keychains() -> Seq<SeedKeychain> {
    seq![
        SeedKeychain { address_type: AddressType::P2WPKH, kind: KeychainKind::External },
        SeedKeychain { address_type: AddressType::P2WPKH, kind: KeychainKind::Internal },
        SeedKeychain { address_type: AddressType::P2TR, kind: KeychainKind::External },
        SeedKeychain { address_type: AddressType::P2TR, kind: KeychainKind::Internal },
    ]
}

impl SeedKeychain {
    /// All keychains: both branches of both address types.
    pub fn all() -> (r: [Self; 4])
        ensures
            r@ == all_keychains(),
    {
        let r: [Self; 4] = [
            SeedKeychain { address_type: AddressType::P2WPKH, kind: KeychainKind::External },
            SeedKeychain { address_type: AddressType::P2WPKH, kind: KeychainKind::Internal },
            SeedKeychain { address_type: AddressType::P2TR, kind: KeychainKind::External },
            SeedKeychain { address_type: AddressType::P2TR, kind: KeychainKind::Internal },
        ];
        assert(r@ =~= all_keychains());
        r
    }

    /// The hardened path of the account, such as `m/84'/1'/0'`.
    pub fn account_path(self) -> (r: &'static str)
        ensures
            r@ == account_path(self.address_type),
    {
        get_derivation_path(self.address_type)
    }

    /// The index of the branch: 0 for the external, 1 for the internal one.
    pub fn branch_index(self) -> (r: u32)
        ensures
            r == self.kind.spec_index_num(),
    {
        match self.kind {
            KeychainKind::External => 0,
            KeychainKind::Internal => 1,
        }
    }

    /// The public descriptor of the keychain for the wallet with this master key, with its
    /// checksum.
    pub fn descriptor(self, master_key: &ExtendedKey) -> (r: Result<String, WalletError>)
        ensures
            match r {
                Ok(text) => keychain_descriptor(*master_key, self) == Some(text@),
                Err(e) => keychain_descriptor(*master_key, self) is None && e is General
                    && starts_with(e->General_0@, descriptor_failure(*master_key, self)),
            },
    {
        let steps = match parse_path(self.account_path()) {
            Ok(steps) => steps,
            Err(text) => {
                let e = general_error("invalid account path: ", text.as_str());
                proof {
                    lemma_prefix("invalid account path: "@, text@);
                }
                return Err(e);
            },
        };
        let account = match derive_key(master_key, &steps) {
            Ok(account) => account,
            Err(text) => {
                let e = general_error("derive account xpriv: ", text.as_str());
                proof {
                    lemma_prefix("derive account xpriv: "@, text@);
                }
                return Err(e);
            },
        };
        let public_key = match extended_public_key(&account) {
            Ok(public_key) => public_key,
            Err(text) => {
                let e = general_error("derive account xpriv: ", text.as_str());
                proof {
                    lemma_prefix("derive account xpriv: "@, text@);
                }
                return Err(e);
            },
        };
        let body = describe(public_key.as_str(), self);
        match parse_descriptor(body.as_str()) {
            Ok(text) => Ok(text),
            Err(text) => {
                let mut about = String::new();
                about.append("parse descriptor `");
                about.append(body.as_str());
                about.append("`: ");
                let e = general_error(about.as_str(), text.as_str());
                proof {
                    assert(about@ =~= "parse descriptor `"@ + body@ + "`: "@);
                    lemma_prefix(about@, text@);
                }
                Err(e)
            },
        }
    }
}

proof fn lemma_prefix(about: Seq<char>, text: Seq<char>)
    ensures
        starts_with(about + text, about),
{
    assert((about + text).subrange(0, about.len() as int) =~= about);
}

/// `SeedKeychain::all` lists every keychain, each once.
pub proof fn law_all_keychains_are_listed_once(keychain: SeedKeychain)
    ensures
        all_keychains().contains(keychain),
        all_keychains().no_duplicates(),
{
    let all = all_keychains();
    match (keychain.address_type, keychain.kind) {
        (AddressType::P2WPKH, KeychainKind::External) => {
            assert(all[0] == keychain);
        },
        (AddressType::P2WPKH, KeychainKind::Internal) => {
            assert(all[1] == keychain);
        },
        (AddressType::P2TR, KeychainKind::External) => {
            assert(all[2] == keychain);
        },
        (AddressType::P2TR, KeychainKind::Internal) => {
            assert(all[3] == keychain);
        },
    }
}

/// The branches are written with one digit.
pub(crate) proof fn lemma_branch_digits()
    ensures
        decimal(0) == seq!['0'],
        decimal(1) == seq!['1'],
{
}

/// The external branch is the first, the internal one the second, whatever the address type.
pub proof fn law_branches(keychain: SeedKeychain, r: u32, s: u32)
    requires
        call_ensures(SeedKeychain::branch_index, (keychain,), r),
        call_ensures(KeychainKind::index_num, (&keychain.kind,), s),
    ensures
        r == s,
        keychain.kind is External ==> r == 0,
        keychain.kind is Internal ==> r == 1,
{
}

/// Every keychain is listed, and none twice.
pub proof fn law_list_of_keychains(r: [SeedKeychain; 4], keychain: SeedKeychain)
    requires
        call_ensures(SeedKeychain::all, (), r),
    ensures
        exists|i: int|
            0 <= i < 4 && #[trigger] r@[i] == keychain && forall|j: int|
                0 <= j < 4 && j != i ==> #[trigger] r@[j] != keychain,
{
    law_all_keychains_are_listed_once(keychain);
    let i = choose|i: int| 0 <= i < 4 && r@[i] == keychain;
    assert(r@[i] == keychain);
}

} // verus!
