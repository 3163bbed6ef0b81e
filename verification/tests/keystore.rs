use sxt_pallets::keystore::{EthereumKey, KeystoreError, KeystoreEvent, KeystorePallet, UserKeystore};
use sxt_pallets::types::Origin;

fn public_key(seed: u8) -> [u8; 33] {
    let mut k = [seed; 33];
    k[0] = 2;
    k
}

fn address20(seed: u8) -> Vec<u8> {
    vec![seed; 20]
}

#[test]
fn register_ethereum_key_success() {
    let mut ks = KeystorePallet::new();
    let account_id = 1;
    assert_eq!(
        ks.register_key(Origin::Root, account_id, public_key(7), address20(7), true),
        Ok(KeystoreEvent::EthereumKeyRegistered {
            who: account_id,
            key: EthereumKey { pub_key: public_key(7), address20: address20(7) }
        })
    );
    let expected = UserKeystore { eth_key: Some(EthereumKey { pub_key: public_key(7), address20: address20(7) }) };
    assert_eq!(ks.keys(account_id), Some(expected));
}

#[test]
fn register_ethereum_key_fails_if_signature_wrong() {
    let mut ks = KeystorePallet::new();
    assert!(ks.register_key(Origin::Root, 1, public_key(7), address20(7), true).is_ok());
    // the same signature, over account 1, does not verify for account 2
    assert_eq!(
        ks.register_key(Origin::Root, 2, public_key(7), address20(7), false),
        Err(KeystoreError::VerificationError)
    );
    assert_eq!(ks.keys(2), None);
}

#[test]
fn register_ethereum_key_fails_if_account_already_registered() {
    let mut ks = KeystorePallet::new();
    assert!(ks.register_key(Origin::Root, 1, public_key(7), address20(7), true).is_ok());
    assert_eq!(
        ks.register_key(Origin::Root, 1, public_key(8), address20(8), true),
        Err(KeystoreError::EthereumKeyAlreadyRegistered)
    );
    assert_eq!(ks.keys(1).unwrap().eth_key.unwrap().pub_key, public_key(7));
}

#[test]
fn register_ethereum_key_fails_if_signature_invalid() {
    let mut ks = KeystorePallet::new();
    assert_eq!(
        ks.register_key(Origin::Root, 1, public_key(7), address20(7), false),
        Err(KeystoreError::VerificationError)
    );
}

#[test]
fn remove_ethereum_key_success() {
    let mut ks = KeystorePallet::new();
    let account_id = 1;
    assert!(ks.register_key(Origin::Root, account_id, public_key(7), address20(7), true).is_ok());
    assert!(ks.keys(account_id).is_some());
    assert_eq!(
        ks.unregister_key(Origin::Root, account_id),
        Ok(KeystoreEvent::EthereumKeyRemoved { who: account_id })
    );
    let keystore = ks.keys(account_id).unwrap();
    assert!(keystore.eth_key.is_none());
}

#[test]
fn keystore_calls_need_root() {
    let mut ks = KeystorePallet::new();
    assert_eq!(
        ks.register_key(Origin::Signed(1), 1, public_key(7), address20(7), true),
        Err(KeystoreError::BadOrigin)
    );
    assert_eq!(ks.unregister_key(Origin::Unsigned, 1), Err(KeystoreError::BadOrigin));
}

#[test]
fn unregister_errors() {
    let mut ks = KeystorePallet::new();
    assert_eq!(ks.unregister_key(Origin::Root, 1), Err(KeystoreError::NoKeysRegistered));
    assert!(ks.register_key(Origin::Root, 1, public_key(7), address20(7), true).is_ok());
    assert!(ks.unregister_key(Origin::Root, 1).is_ok());
    assert_eq!(ks.unregister_key(Origin::Root, 1), Err(KeystoreError::NoEthereumKeyRegistered));
    // a new key can be registered after removal
    assert!(ks.register_key(Origin::Root, 1, public_key(9), address20(9), true).is_ok());
}

#[test]
fn verify_ethereum_msg_checks_key_and_signature() {
    let mut ks = KeystorePallet::new();
    let key = EthereumKey { pub_key: public_key(7), address20: address20(7) };
    assert_eq!(ks.verify_ethereum_msg(1, &key, true), Err(KeystoreError::KeyNotFound));
    assert!(ks.register_key(Origin::Root, 1, public_key(7), address20(7), true).is_ok());
    assert_eq!(ks.verify_ethereum_msg(1, &key, true), Ok(()));
    assert_eq!(ks.verify_ethereum_key(1, &key, false), Err(KeystoreError::SignatureVerificationFailed));
    let other = EthereumKey { pub_key: public_key(8), address20: address20(7) };
    assert_eq!(ks.verify_ethereum_msg(1, &other, true), Err(KeystoreError::KeyMismatch));
    assert!(ks.unregister_key(Origin::Root, 1).is_ok());
    assert_eq!(ks.verify_ethereum_msg(1, &key, true), Err(KeystoreError::KeyNotFound));
}
