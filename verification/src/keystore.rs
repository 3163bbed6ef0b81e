//! The keystore pallet: links accounts with Ethereum ECDSA keys, one key per
//! account, each proven by a signature over the account.
//!
//! Checking a signature is the caller's work (it needs the curve
//! arithmetic); every function that depends on one takes whether it
//! verified.

use vstd::prelude::*;

use crate::types::{AccountId, Origin};
use crate::vecmap::{bytes_clone, VecMap};

verus! {

/// An Ethereum key: a compressed public key and its 20-byte address.
#[derive(Debug, PartialEq, Eq)]
pub struct EthereumKey {
    /// The SEC1-compressed public key.
    pub pub_key: [u8; 33],
    /// The Ethereum address of the key.
    pub address20: Vec<u8>,
}

/// The value of an Ethereum key.
pub type EthereumKeyView = (Seq<u8>, Seq<u8>);

impl View for EthereumKey {
    type V = EthereumKeyView;

    open spec fn view(&self) -> EthereumKeyView {
        (self.pub_key@, self.address20@)
    }
}

impl EthereumKey {
    /// A copy of the key.
    pub fn duplicate(&self) -> (r: Self)
        ensures
            r@ == self@,
    {
        EthereumKey { pub_key: self.pub_key, address20: bytes_clone(&self.address20) }
    }
}

/// The external keys of one account.
#[derive(Debug, PartialEq, Eq)]
pub struct UserKeystore {
    /// The account's Ethereum key, if any.
    pub eth_key: Option<EthereumKey>,
}

/// The value of an account's keystore: its Ethereum key, if any.
pub type UserKeystoreView = Option<EthereumKeyView>;

impl View for UserKeystore {
    type V = UserKeystoreView;

    open spec fn view(&self) -> UserKeystoreView {
        match self.eth_key {
            Some(k) => Some(k@),
            None => None,
        }
    }
}

/// Errors of the keystore pallet.
#[derive(Debug, Clone, Copy, PartialEq, Eq, Structural)]
pub enum KeystoreError {
    /// The call's origin is not root.
    BadOrigin,
    /// There was an error verifying the key registration.
    VerificationError,
    /// This account id has already been used to register a key.
    AccountAlreadyRegistered,
    /// The key that was requested to be removed could not be found in storage.
    KeyNotFound,
    /// No keys have been registered for this account id.
    NoKeysRegistered,
    /// No ethereum key registered.
    NoEthereumKeyRegistered,
    /// An ethereum key has already been registered; to register a new one the old one must be
    /// deregistered.
    EthereumKeyAlreadyRegistered,
    /// The verification of the signature was not successful.
    SignatureVerificationFailed,
    /// The key provided does not match what is stored on chain.
    KeyMismatch,
}

/// Events of the keystore pallet.
#[derive(Debug, PartialEq, Eq)]
pub enum KeystoreEvent {
    /// A key has been successfully registered.
    EthereumKeyRegistered {
        /// The account being associated with a key.
        who: AccountId,
        /// The key registered with this account.
        key: EthereumKey,
    },
    /// A key has been removed.
    EthereumKeyRemoved {
        /// The account whose key was removed.
        who: AccountId,
    },
}

/// The stored keystores of all accounts.
pub struct KeystorePallet {
    keys: VecMap<AccountId, UserKeystore>,
}

/// The outcome of registering `key` for `who`, when the registration's
/// signature verified: the account's first Ethereum key is stored.
pub open spec fn spec_add_ethereum_key(
    m: Map<AccountId, UserKeystoreView>,
    who: AccountId,
    key: EthereumKeyView,
) -> Result<Map<AccountId, UserKeystoreView>, KeystoreError> {
    if m.contains_key(who) && m[who] is Some {
        Err(KeystoreError::EthereumKeyAlreadyRegistered)
    } else {
        Ok(m.insert(who, Some(key)))
    }
}

/// The outcome of removing the Ethereum key of `who`: the account's entry
/// stays, with no key.
pub open spec fn spec_remove_ethereum_key(m: Map<AccountId, UserKeystoreView>, who: AccountId) -> Result<
    Map<AccountId, UserKeystoreView>,
    KeystoreError,
> {
    if !m.contains_key(who) {
        Err(KeystoreError::NoKeysRegistered)
    } else if m[who] is None {
        Err(KeystoreError::NoEthereumKeyRegistered)
    } else {
        Ok(m.insert(who, None))
    }
}

/// The outcome of checking a message signed by `who` with `pub_key`: the
/// account's stored key must be that key, and the signature must verify.
pub open spec fn spec_verify_ethereum_msg(
    m: Map<AccountId, UserKeystoreView>,
    who: AccountId,
    pub_key: Seq<u8>,
    signature_valid: bool,
) -> Result<(), KeystoreError> {
    if !m.contains_key(who) || m[who] is None {
        Err(KeystoreError::KeyNotFound)
    } else if (m[who]->0).0 != pub_key {
        Err(KeystoreError::KeyMismatch)
    } else if !signature_valid {
        Err(KeystoreError::SignatureVerificationFailed)
    } else {
        Ok(())
    }
}

impl KeystorePallet {
    /// The keystore of every account that has one.
    pub closed spec fn view(&self) -> Map<AccountId, UserKeystoreView> {
        self.keys@.map_values(|k: UserKeystore| k@)
    }

    /// The storage is well formed.
    pub closed spec fn wf(&self) -> bool {
        self.keys.wf()
    }

    /// A keystore with no keys.
    pub fn new() -> (r: Self)
        ensures
            r.wf(),
            r@ == Map::<AccountId, UserKeystoreView>::empty(),
    {
        let r = KeystorePallet { keys: VecMap::new() };
        assert(r@ =~= Map::<AccountId, UserKeystoreView>::empty());
        r
    }

    /// The stored Ethereum key of `who`, if any.
    pub fn keys(&self, who: AccountId) -> (r: Option<UserKeystore>)
        requires
            self.wf(),
        ensures
            r is Some <==> self@.contains_key(who),
            r matches Some(k) ==> k@ == self@[who],
    {
        match self.keys.get(&who) {
            Some(k) => Some(
                UserKeystore {
                    eth_key: match &k.eth_key {
                        Some(e) => Some(e.duplicate()),
                        None => None,
                    },
                },
            ),
            None => None,
        }
    }

    fn set_keystore(&mut self, who: AccountId, eth_key: Option<EthereumKey>)
        requires
            old(self).wf(),
        ensures
            final(self).wf(),
            final(self)@ == old(self)@.insert(who, (UserKeystore { eth_key })@),
    {
        let ghost pre = self@;
        let ks = UserKeystore { eth_key };
        let ghost v = ks@;
        self.keys.insert(who, ks);
        assert(self@ =~= pre.insert(who, v));
    }

    fn add_ethereum_key(&mut self, who: AccountId, key: EthereumKey) -> (r: Result<(), KeystoreError>)
        requires
            old(self).wf(),
        ensures
            final(self).wf(),
            match spec_add_ethereum_key(old(self)@, who, key@) {
                Ok(m) => r is Ok && final(self)@ == m,
                Err(e) => r == Err::<(), KeystoreError>(e) && final(self)@ == old(self)@,
            },
    {
        match self.keys.get(&who) {
            Some(k) => if k.eth_key.is_some() {
                return Err(KeystoreError::EthereumKeyAlreadyRegistered);
            },
            None => {},
        }
        self.set_keystore(who, Some(key));
        Ok(())
    }

    /// Links an Ethereum key with `who`.  Root only; the registration's
    /// signature over the account must verify (`signature_valid`), and the
    /// account must not have an Ethereum key.
    pub fn register_key(
        &mut self,
        origin: Origin,
        who: AccountId,
        proposed_pub_key: [u8; 33],
        address20: Vec<u8>,
        signature_valid: bool,
    ) -> (r: Result<KeystoreEvent, KeystoreError>)
        requires
            old(self).wf(),
        ensures
            final(self).wf(),
            origin != Origin::Root ==> r == Err::<KeystoreEvent, KeystoreError>(KeystoreError::BadOrigin)
                && final(self)@ == old(self)@,
            origin == Origin::Root && !signature_valid ==> r == Err::<KeystoreEvent, KeystoreError>(
                KeystoreError::VerificationError,
            ) && final(self)@ == old(self)@,
            origin == Origin::Root && signature_valid ==> match spec_add_ethereum_key(
                old(self)@,
                who,
                (proposed_pub_key@, address20@),
            ) {
                Ok(m) => final(self)@ == m && (r matches Ok(KeystoreEvent::EthereumKeyRegistered {
                    who: w,
                    key: k,
                }) && w == who && k@ == (proposed_pub_key@, address20@)),
                Err(e) => r == Err::<KeystoreEvent, KeystoreError>(e) && final(self)@ == old(self)@,
            },
    {
        match origin {
            Origin::Root => {},
            _ => {
                return Err(KeystoreError::BadOrigin);
            },
        }
        if !signature_valid {
            return Err(KeystoreError::VerificationError);
        }
        let new_key = EthereumKey { pub_key: proposed_pub_key, address20 };
        let stored = new_key.duplicate();
        match self.add_ethereum_key(who, stored) {
            Ok(()) => Ok(KeystoreEvent::EthereumKeyRegistered { who, key: new_key }),
            Err(e) => Err(e),
        }
    }

    /// Removes the Ethereum key of `who`.  Root only.
    pub fn unregister_key(&mut self, origin: Origin, who: AccountId) -> (r: Result<
        KeystoreEvent,
        KeystoreError,
    >)
        requires
            old(self).wf(),
        ensures
            final(self).wf(),
            origin != Origin::Root ==> r == Err::<KeystoreEvent, KeystoreError>(KeystoreError::BadOrigin)
                && final(self)@ == old(self)@,
            origin == Origin::Root ==> match spec_remove_ethereum_key(old(self)@, who) {
                Ok(m) => final(self)@ == m && r == Ok::<KeystoreEvent, KeystoreError>(
                    KeystoreEvent::EthereumKeyRemoved { who },
                ),
                Err(e) => r == Err::<KeystoreEvent, KeystoreError>(e) && final(self)@ == old(self)@,
            },
    {
        match origin {
            Origin::Root => {},
            _ => {
                return Err(KeystoreError::BadOrigin);
            },
        }
        match self.keys.get(&who) {
            None => {
                return Err(KeystoreError::NoKeysRegistered);
            },
            Some(k) => if k.eth_key.is_none() {
                return Err(KeystoreError::NoEthereumKeyRegistered);
            },
        }
        self.set_keystore(who, None);
        Ok(KeystoreEvent::EthereumKeyRemoved { who })
    }

    /// Checks a message signed by `who` with `key`: the account's stored key
    /// must be `key`'s public key, and the signature must verify
    /// (`signature_valid`).
    pub fn verify_ethereum_msg(&self, who: AccountId, key: &EthereumKey, signature_valid: bool) -> (r:
        Result<(), KeystoreError>)
        requires
            self.wf(),
        ensures
            r == spec_verify_ethereum_msg(self@, who, key.pub_key@, signature_valid),
    {
        let stored = match self.keys.get(&who) {
            Some(ks) => match &ks.eth_key {
                Some(k) => k,
                None => {
                    return Err(KeystoreError::KeyNotFound);
                },
            },
            None => {
                return Err(KeystoreError::KeyNotFound);
            },
        };
        assert(self@[who] == Some(stored@));
        let mut i: usize = 0;
        while i < 33
            invariant
                i <= 33,
                self@.contains_key(who),
                self@[who] == Some(stored@),
                stored.pub_key@.len() == 33,
                key.pub_key@.len() == 33,
                forall|j: int| 0 <= j < i ==> stored.pub_key@[j] == key.pub_key@[j],
            decreases 33 - i,
        {
            if stored.pub_key[i] != key.pub_key[i] {
                assert(stored.pub_key@[i as int] != key.pub_key@[i as int]);
                return Err(KeystoreError::KeyMismatch);
            }
            i += 1;
        }
        assert(stored.pub_key@ =~= key.pub_key@);
        if !signature_valid {
            return Err(KeystoreError::SignatureVerificationFailed);
        }
        Ok(())
    }

    /// Checks a signature by `who` over its own account with `key`.
    pub fn verify_ethereum_key(&self, who: AccountId, key: &EthereumKey, signature_valid: bool) -> (r:
        Result<(), KeystoreError>)
        requires
            self.wf(),
        ensures
            r == spec_verify_ethereum_msg(self@, who, key.pub_key@, signature_valid),
    {
        self.verify_ethereum_msg(who, key, signature_valid)
    }
}

/// After registering a key for an account, that account's stored key is
/// it; after removing it, the account has none, and a new key can be
/// registered again.
pub proof fn lemma_register_remove_register(
    m: Map<AccountId, UserKeystoreView>,
    who: AccountId,
    k1: EthereumKeyView,
    k2: EthereumKeyView,
)
    requires
        spec_add_ethereum_key(m, who, k1) is Ok,
    ensures
        ({
            let m1 = spec_add_ethereum_key(m, who, k1)->Ok_0;
            &&& m1[who] == Some(k1)
            &&& spec_add_ethereum_key(m1, who, k2) == Err::<
                Map<AccountId, UserKeystoreView>,
                KeystoreError,
            >(KeystoreError::EthereumKeyAlreadyRegistered)
            &&& spec_remove_ethereum_key(m1, who) is Ok
            &&& spec_remove_ethereum_key(m1, who)->Ok_0[who] == None::<EthereumKeyView>
            &&& spec_add_ethereum_key(spec_remove_ethereum_key(m1, who)->Ok_0, who, k2) is Ok
        }),
{
}

} // verus!
