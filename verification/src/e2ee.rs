//! The recorder's Olm identity, which end-to-end encrypted meetings use to
//! exchange media keys with it. Each identity is fresh and lives in memory
//! only.

use vodozemac::olm::Account;
use vstd::prelude::*;

verus! {

/// An Olm account of `vodozemac`, held opaque.
#[verifier::external_type_specification]
#[verifier::external_body]
pub struct ExAccount(Account);

/// Whether `c` belongs to the standard base64 alphabet.
pub open spec fn base64_char(c: char) -> bool {
    ('A' <= c <= 'Z') || ('a' <= c <= 'z') || ('0' <= c <= '9') || c == '+' || c == '/'
}

/// A 32-byte key written in unpadded base64: 43 characters of the alphabet.
pub open spec fn key_text(s: Seq<char>) -> bool {
    s.len() == 43 && forall|i: int| 0 <= i < s.len() ==> base64_char(#[trigger] s[i])
}

/// The public identity keys of an Olm account, Curve25519 then Ed25519, each
/// written with its `to_base64`: a function of the account alone.
pub uninterp spec fn account_keys(a: Account) -> (Seq<char>, Seq<char>);

/// Whether both keys of an account are 32-byte keys in unpadded base64.
pub open spec fn keys_well_formed(a: Account) -> bool {
    key_text(account_keys(a).0) && key_text(account_keys(a).1)
}

/// Trusted: `vodozemac::olm::Account::new`, which draws a new random
/// identity. Claims only what holds of every account: its two public keys
/// are 32 bytes, so each is 43 base64 characters. Which identity is drawn is
/// chance and is not stated.
#[verifier::external_body]
fn new_account() -> (r: Account)
    ensures
        keys_well_formed(r),
{
    Account::new()
}

/// Trusted: `Account::identity_keys`, each public key written with its
/// `to_base64` (standard alphabet, no padding). Claims that the keys are the
/// account's own (named [`account_keys`]) and, as the source shows, that both
/// are 32 bytes, so each text is 43 base64 characters.
#[verifier::external_body]
fn identity_keys_of(account: &Account) -> (r: IdentityKeys)
    ensures
        (r.curve25519@, r.ed25519@) == account_keys(*account),
        key_text(r.curve25519@),
        key_text(r.ed25519@),
{
    let keys = account.identity_keys();
    IdentityKeys { curve25519: keys.curve25519.to_base64(), ed25519: keys.ed25519.to_base64() }
}

/// The public identity keys, as published to the other participants.
#[derive(Debug)]
pub struct IdentityKeys {
    pub curve25519: String,
    pub ed25519: String,
}

/// An ephemeral Olm identity.
pub struct OlmAdapter {
    olm_account: Account,
}

impl OlmAdapter {
    /// The account this identity holds.
    pub closed spec fn account(&self) -> Account {
        self.olm_account
    }

    /// Generates a new identity: a freshly drawn account, whose keys are
    /// well formed.
    pub fn new() -> (r: Self)
        ensures
            keys_well_formed(r.account()),
    {
        OlmAdapter { olm_account: new_account() }
    }

    /// The public identity keys of this identity's account: a Curve25519 and
    /// an Ed25519 key, each in unpadded base64.
    pub fn get_id_keys(&self) -> (r: IdentityKeys)
        ensures
            (r.curve25519@, r.ed25519@) == account_keys(self.account()),
            key_text(r.curve25519@),
            key_text(r.ed25519@),
    {
        identity_keys_of(&self.olm_account)
    }
}

/// End-to-end encryption state: the recorder's identity.
pub struct E2EE {
    olm_adapter: OlmAdapter,
}

impl E2EE {
    /// The recorder's identity.
    pub closed spec fn adapter(&self) -> OlmAdapter {
        self.olm_adapter
    }

    /// A fresh identity, whose keys are well formed.
    pub fn new() -> (r: Self)
        ensures
            keys_well_formed(r.adapter().account()),
    {
        E2EE { olm_adapter: OlmAdapter::new() }
    }
}

} // verus!
