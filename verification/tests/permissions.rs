use sxt_pallets::permissions::{
    AttestationPalletPermission, PermissionLevel, PermissionsError, PermissionsEvent,
    PermissionsPallet,
};
use sxt_pallets::types::Origin;

/// The permission lists of the runtime hold at most 32 permissions.
fn new_pallet() -> PermissionsPallet {
    PermissionsPallet::new(32)
}

#[test]
fn set_permissions_should_fail_when_not_root_and_not_permissioned() {
    let mut p = new_pallet();
    assert_eq!(
        p.set_permissions(Origin::Signed(1), 1, vec![]),
        Err(PermissionsError::InsufficientPermissions)
    );
}

#[test]
fn set_permissions_should_work_permissioned() {
    let mut p = new_pallet();
    let who = 1;
    assert!(p.set_permissions(Origin::Root, who, vec![PermissionLevel::UpdatePermissions]).is_ok());
    let created = PermissionLevel::UserCreated(b"ThreatLevelMidnight".to_vec());
    let omega_user = 2;
    assert!(p.set_permissions(Origin::Signed(who), omega_user, vec![created]).is_ok());
    assert!(p.has_permissions(omega_user, &PermissionLevel::UserCreated(b"ThreatLevelMidnight".to_vec())));
}

#[test]
fn set_permissions_should_work_sudo() {
    let mut p = new_pallet();
    assert!(p.set_permissions(Origin::Root, 1, vec![PermissionLevel::UpdatePermissions]).is_ok());
}

#[test]
fn ensure_root_or_permissioned_should_work_root() {
    let p = new_pallet();
    assert!(p.ensure_root_or_permissioned(Origin::Root, &PermissionLevel::UpdatePermissions).is_ok());
}

#[test]
fn ensure_root_or_permissioned_should_work_permissioned() {
    let mut p = new_pallet();
    assert!(p.set_permissions(Origin::Root, 1, vec![PermissionLevel::UpdatePermissions]).is_ok());
    assert!(p.ensure_root_or_permissioned(Origin::Signed(1), &PermissionLevel::UpdatePermissions).is_ok());
}

#[test]
fn set_permissions_should_emit_event_when_successful() {
    let mut p = new_pallet();
    let user = 1;
    assert_eq!(
        p.set_permissions(Origin::Root, user, vec![PermissionLevel::UpdatePermissions]),
        Ok(PermissionsEvent::PermissionsSet(user, vec![PermissionLevel::UpdatePermissions]))
    );
}

#[test]
fn clear_permissions_should_work_when_permissioned() {
    let mut p = new_pallet();
    let who = 1;
    assert!(p.set_permissions(Origin::Root, who, vec![PermissionLevel::UpdatePermissions]).is_ok());
    let test_user = 2;
    assert!(p.clear_permissions(Origin::Signed(who), test_user).is_ok());
}

#[test]
fn clear_permissions_should_work_when_sudo() {
    let mut p = new_pallet();
    assert!(p.clear_permissions(Origin::Root, 2).is_ok());
}

#[test]
fn clear_permissions_should_work() {
    let mut p = new_pallet();
    let user = 1;
    assert!(p.set_permissions(Origin::Root, user, vec![PermissionLevel::UpdatePermissions]).is_ok());
    assert!(p.clear_permissions(Origin::Root, user).is_ok());
    assert!(p.permissions(user).is_none());
}

#[test]
fn set_permissions_should_fail_with_empty_list() {
    let mut p = new_pallet();
    assert_eq!(
        p.set_permissions(Origin::Root, 1, vec![]),
        Err(PermissionsError::EmptyPermissionsListError)
    );
}

#[test]
fn clear_permissions_should_work_with_no_permissions_set() {
    let mut p = new_pallet();
    assert!(p.clear_permissions(Origin::Root, 1).is_ok());
}

#[test]
fn ensure_root_or_permissioned_should_fail_when_not_signed() {
    let p = new_pallet();
    assert_eq!(
        p.ensure_root_or_permissioned(Origin::Unsigned, &PermissionLevel::UpdatePermissions),
        Err(PermissionsError::UnsignedTransaction)
    );
}

#[test]
fn ensure_root_or_permissioned_returns_the_signer() {
    let mut p = new_pallet();
    assert!(p.set_permissions(Origin::Root, 7, vec![PermissionLevel::UpdatePermissions]).is_ok());
    assert_eq!(p.ensure_root_or_permissioned(Origin::Signed(7), &PermissionLevel::UpdatePermissions), Ok(Some(7)));
    assert_eq!(p.ensure_root_or_permissioned(Origin::Root, &PermissionLevel::UpdatePermissions), Ok(None));
    assert_eq!(
        p.ensure_root_or_permissioned(Origin::Signed(8), &PermissionLevel::UpdatePermissions),
        Err(PermissionsError::InsufficientPermissions)
    );
}

#[test]
fn set_then_clear_permissions_round_trip() {
    let mut p = new_pallet();
    let attest = attest_block();
    assert!(p.set_permissions(Origin::Root, 3, vec![attest_block()]).is_ok());
    assert!(p.has_permissions(3, &attest));
    assert!(!p.has_permissions(3, &PermissionLevel::UpdatePermissions));
    assert!(p.has_any_permissions(3, &vec![PermissionLevel::UpdatePermissions, attest_block()]));
    assert_eq!(p.clear_permissions(Origin::Root, 3), Ok(PermissionsEvent::PermissionsSet(3, vec![])));
    assert!(!p.has_permissions(3, &attest));
    assert!(!p.has_any_permissions(3, &vec![attest]));
}

#[test]
fn add_proxy_permission_rules() {
    let mut p = PermissionsPallet::new(2);
    // a signer needs EditSpecificPermission of the permission it grants
    assert_eq!(
        p.add_proxy_permission(Origin::Signed(1), 2, attest_block()),
        Err(PermissionsError::InsufficientPermissions)
    );
    assert!(p
        .set_permissions(Origin::Root, 1, vec![PermissionLevel::EditSpecificPermission(Box::new(attest_block()))])
        .is_ok());
    assert_eq!(
        p.add_proxy_permission(Origin::Signed(1), 2, attest_block()),
        Ok(PermissionsEvent::PermissionsSet(2, vec![attest_block()]))
    );
    assert_eq!(
        p.add_proxy_permission(Origin::Signed(1), 2, attest_block()),
        Err(PermissionsError::PermissionAlreadyExists)
    );
    assert_eq!(
        p.add_proxy_permission(Origin::Root, 2, forward_block()),
        Ok(PermissionsEvent::PermissionsSet(2, vec![attest_block(), forward_block()]))
    );
    assert_eq!(
        p.add_proxy_permission(Origin::Root, 2, PermissionLevel::UpdatePermissions),
        Err(PermissionsError::PermissionListFull)
    );
}

fn attest_block() -> PermissionLevel {
    PermissionLevel::AttestationPallet(AttestationPalletPermission::AttestBlock)
}

fn forward_block() -> PermissionLevel {
    PermissionLevel::AttestationPallet(AttestationPalletPermission::ForwardAttestedBlock)
}
