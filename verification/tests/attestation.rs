use sxt_pallets::attestation::{Attestation, AttestationError, AttestationEvent, AttestationPallet};
use sxt_pallets::keystore::{KeystoreError, KeystorePallet};
use sxt_pallets::permissions::{AttestationPalletPermission, PermissionLevel, PermissionsError, PermissionsPallet};
use sxt_pallets::types::Origin;

fn public_key(seed: u8) -> [u8; 33] {
    let mut k = [seed; 33];
    k[0] = 3;
    k
}

fn attestation(seed: u8, block_number: u32) -> Attestation {
    Attestation::EthereumAttestation {
        signature: vec![seed; 65],
        proposed_pub_key: public_key(seed),
        address20: vec![seed; 20],
        state_root: vec![0xFF; 64],
        block_number,
        block_hash: [0u8; 32],
    }
}

struct Chain {
    permissions: PermissionsPallet,
    keystore: KeystorePallet,
    attestation: AttestationPallet,
}

/// Account `account_id` registered with the key of `seed` and allowed to attest.
fn chain_with_attestor(account_id: u64, seed: u8) -> Chain {
    let mut permissions = PermissionsPallet::new(32);
    let mut keystore = KeystorePallet::new();
    assert!(keystore.register_key(Origin::Root, account_id, public_key(seed), vec![seed; 20], true).is_ok());
    assert!(permissions
        .set_permissions(
            Origin::Root,
            account_id,
            vec![PermissionLevel::AttestationPallet(AttestationPalletPermission::AttestBlock)]
        )
        .is_ok());
    Chain { permissions, keystore, attestation: AttestationPallet::new() }
}

#[test]
fn attest_block_success() {
    let mut c = chain_with_attestor(1, 5);
    let current_block = 15;
    let block_number = 10;
    let a = attestation(5, block_number);
    assert_eq!(
        c.attestation.attest_block(&c.permissions, &c.keystore, Origin::Signed(1), current_block, Some(block_number), a.clone(), true),
        Ok(AttestationEvent::BlockAttested { block_number, attestation: a.clone(), who: 1 })
    );
    let stored = c.attestation.attestations(block_number);
    assert!(stored.iter().any(|s| *s == a));
}

#[test]
fn attest_block_fails_if_account_not_registered() {
    let mut c = Chain {
        permissions: PermissionsPallet::new(32),
        keystore: KeystorePallet::new(),
        attestation: AttestationPallet::new(),
    };
    assert_eq!(
        c.attestation.attest_block(&c.permissions, &c.keystore, Origin::Signed(1), 15, Some(10), attestation(5, 10), true),
        Err(AttestationError::Permissions(PermissionsError::InsufficientPermissions))
    );
}

#[test]
fn attest_block_fails_if_duplicate_attestation() {
    let mut c = chain_with_attestor(1, 5);
    let a = attestation(5, 10);
    assert!(c.attestation.attest_block(&c.permissions, &c.keystore, Origin::Signed(1), 15, Some(10), a.clone(), true).is_ok());
    assert_eq!(
        c.attestation.attest_block(&c.permissions, &c.keystore, Origin::Signed(1), 15, Some(10), a, true),
        Err(AttestationError::AttestationAlreadyRecordedError)
    );
    assert_eq!(c.attestation.attestations(10).len(), 1);
}

#[test]
fn attest_block_fails_if_future_block() {
    let mut c = chain_with_attestor(1, 5);
    assert_eq!(
        c.attestation.attest_block(&c.permissions, &c.keystore, Origin::Signed(1), 1, Some(1000), attestation(5, 1000), true),
        Err(AttestationError::CannotAttestFutureBlock)
    );
    // the current block is not finalized yet
    assert_eq!(
        c.attestation.attest_block(&c.permissions, &c.keystore, Origin::Signed(1), 7, Some(7), attestation(5, 7), true),
        Err(AttestationError::CannotAttestCurrentBlock)
    );
}

#[test]
fn attest_block_checks_key_and_signature() {
    let mut c = chain_with_attestor(1, 5);
    assert_eq!(
        c.attestation.attest_block(&c.permissions, &c.keystore, Origin::Signed(1), 15, Some(10), attestation(6, 10), true),
        Err(AttestationError::Keystore(KeystoreError::KeyMismatch))
    );
    assert_eq!(
        c.attestation.attest_block(&c.permissions, &c.keystore, Origin::Signed(1), 15, Some(10), attestation(5, 10), false),
        Err(AttestationError::Keystore(KeystoreError::SignatureVerificationFailed))
    );
    assert_eq!(
        c.attestation.attest_block(&c.permissions, &c.keystore, Origin::Root, 15, Some(10), attestation(5, 10), true),
        Err(AttestationError::BadOrigin)
    );
    assert!(c.attestation.attestations(10).is_empty());
}

#[test]
fn attest_block_caps_attestations_per_block() {
    let mut permissions = PermissionsPallet::new(32);
    let mut keystore = KeystorePallet::new();
    let mut pallet = AttestationPallet::new();
    for i in 0..65u8 {
        let who = i as u64 + 1;
        assert!(keystore.register_key(Origin::Root, who, public_key(i), vec![i; 20], true).is_ok());
        assert!(permissions
            .set_permissions(Origin::Root, who, vec![PermissionLevel::AttestationPallet(AttestationPalletPermission::AttestBlock)])
            .is_ok());
        let r = pallet.attest_block(&permissions, &keystore, Origin::Signed(who), 100, Some(50), attestation(i, 50), true);
        if i < 64 {
            assert!(r.is_ok());
        } else {
            assert_eq!(r, Err(AttestationError::MaxAttestationsForBlockError));
        }
    }
    assert_eq!(pallet.attestations(50).len(), 64);
}

#[test]
fn mark_block_forwarded_needs_permission() {
    let mut c = chain_with_attestor(1, 5);
    assert_eq!(c.attestation.last_forwarded_block(), None);
    assert_eq!(
        c.attestation.mark_block_forwarded(&c.permissions, Origin::Signed(1), 9),
        Err(AttestationError::Permissions(PermissionsError::InsufficientPermissions))
    );
    assert_eq!(c.attestation.mark_block_forwarded(&c.permissions, Origin::Root, 9), Ok(()));
    assert_eq!(c.attestation.last_forwarded_block(), Some(9));
    assert!(c
        .permissions
        .set_permissions(
            Origin::Root,
            2,
            vec![PermissionLevel::AttestationPallet(AttestationPalletPermission::ForwardAttestedBlock)]
        )
        .is_ok());
    assert_eq!(c.attestation.mark_block_forwarded(&c.permissions, Origin::Signed(2), 11), Ok(()));
    assert_eq!(c.attestation.last_forwarded_block(), Some(11));
}

#[test]
fn attest_block_without_a_block_number_attests_the_current_block() {
    let mut c = chain_with_attestor(1, 5);
    let r = c.attestation.attest_block(&c.permissions, &c.keystore, Origin::Signed(1), 7, None, attestation(5, 7), true);
    assert!(matches!(r, Ok(AttestationEvent::BlockAttested { block_number: 7, who: 1, .. })));
    assert_eq!(c.attestation.attestations(7).len(), 1);
    // the same key cannot attest the current block twice
    assert_eq!(
        c.attestation.attest_block(&c.permissions, &c.keystore, Origin::Signed(1), 7, None, attestation(5, 7), true),
        Err(AttestationError::AttestationAlreadyRecordedError)
    );
}
