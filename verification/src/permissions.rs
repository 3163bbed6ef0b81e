//! Accounts' permissions, and the check that a call's origin holds one.

use vstd::prelude::*;

use crate::types::{AccountId, Origin, TableIdentifier};
use crate::vecmap::{bytes_clone, bytes_eq, VecMap};

verus! {

/// Permissions within the indexing pallet.
#[derive(Debug, Clone, PartialEq, Eq)]
pub enum IndexingPalletPermission {
    /// May submit data for tables with a public quorum.
    SubmitDataForPublicQuorum,
    /// May submit data for the given table's privileged quorum.
    SubmitDataForPrivilegedQuorum(TableIdentifier),
}

/// Permissions within the attestation pallet.
#[derive(Debug, Clone, Copy, PartialEq, Eq)]
pub enum AttestationPalletPermission {
    /// May attest blocks.
    AttestBlock,
    /// May mark attested blocks as forwarded.
    ForwardAttestedBlock,
}

/// A permission that an account can hold.
#[derive(Debug, PartialEq, Eq)]
pub enum PermissionLevel {
    /// May set and clear other accounts' permissions.
    UpdatePermissions,
    /// May grant the inner permission to others.
    EditSpecificPermission(Box<PermissionLevel>),
    /// A permission of the indexing pallet.
    IndexingPallet(IndexingPalletPermission),
    /// A permission of the attestation pallet.
    AttestationPallet(AttestationPalletPermission),
    /// A permission named by users.
    UserCreated(Vec<u8>),
}

/// The mathematical value of a permission.
pub enum PermissionView {
    UpdatePermissions,
    EditSpecificPermission(Box<PermissionView>),
    SubmitDataForPublicQuorum,
    SubmitDataForPrivilegedQuorum((Seq<u8>, Seq<u8>)),
    AttestBlock,
    ForwardAttestedBlock,
    UserCreated(Seq<u8>),
}

/// The view of a permission.
pub open spec fn permission_view(p: PermissionLevel) -> PermissionView
    decreases p,
{
    match p {
        PermissionLevel::UpdatePermissions => PermissionView::UpdatePermissions,
        PermissionLevel::EditSpecificPermission(inner) => PermissionView::EditSpecificPermission(
            Box::new(permission_view(*inner)),
        ),
        PermissionLevel::IndexingPallet(IndexingPalletPermission::SubmitDataForPublicQuorum) =>
            PermissionView::SubmitDataForPublicQuorum,
        PermissionLevel::IndexingPallet(
            IndexingPalletPermission::SubmitDataForPrivilegedQuorum(t),
        ) => PermissionView::SubmitDataForPrivilegedQuorum(t@),
        PermissionLevel::AttestationPallet(AttestationPalletPermission::AttestBlock) =>
            PermissionView::AttestBlock,
        PermissionLevel::AttestationPallet(AttestationPalletPermission::ForwardAttestedBlock) =>
            PermissionView::ForwardAttestedBlock,
        PermissionLevel::UserCreated(name) => PermissionView::UserCreated(name@),
    }
}

impl View for PermissionLevel {
    type V = PermissionView;

    open spec fn view(&self) -> PermissionView {
        permission_view(*self)
    }
}

/// Whether two permissions are equal.
pub fn permission_eq(a: &PermissionLevel, b: &PermissionLevel) -> (r: bool)
    ensures
        r == (a@ == b@),
    decreases a,
{
    match (a, b) {
        (PermissionLevel::UpdatePermissions, PermissionLevel::UpdatePermissions) => true,
        (PermissionLevel::EditSpecificPermission(x), PermissionLevel::EditSpecificPermission(y)) => {
            let r = permission_eq(&**x, &**y);
            proof {
                if permission_view(**x) != permission_view(**y) {
                    assert(Box::new(permission_view(**x)) != Box::new(permission_view(**y)));
                }
            }
            r
        },
        (PermissionLevel::IndexingPallet(x), PermissionLevel::IndexingPallet(y)) => match (x, y) {
            (
                IndexingPalletPermission::SubmitDataForPublicQuorum,
                IndexingPalletPermission::SubmitDataForPublicQuorum,
            ) => true,
            (
                IndexingPalletPermission::SubmitDataForPrivilegedQuorum(s),
                IndexingPalletPermission::SubmitDataForPrivilegedQuorum(t),
            ) => bytes_eq(&s.namespace, &t.namespace) && bytes_eq(&s.name, &t.name),
            _ => false,
        },
        (PermissionLevel::AttestationPallet(x), PermissionLevel::AttestationPallet(y)) => match (
            x,
            y,
        ) {
            (AttestationPalletPermission::AttestBlock, AttestationPalletPermission::AttestBlock) =>
                true,
            (
                AttestationPalletPermission::ForwardAttestedBlock,
                AttestationPalletPermission::ForwardAttestedBlock,
            ) => true,
            _ => false,
        },
        (PermissionLevel::UserCreated(x), PermissionLevel::UserCreated(y)) => bytes_eq(x, y),
        _ => false,
    }
}

/// A copy of a permission.
pub fn permission_clone(p: &PermissionLevel) -> (r: PermissionLevel)
    ensures
        r@ == p@,
    decreases p,
{
    match p {
        PermissionLevel::UpdatePermissions => PermissionLevel::UpdatePermissions,
        PermissionLevel::EditSpecificPermission(inner) => PermissionLevel::EditSpecificPermission(
            Box::new(permission_clone(&**inner)),
        ),
        PermissionLevel::IndexingPallet(IndexingPalletPermission::SubmitDataForPublicQuorum) =>
            PermissionLevel::IndexingPallet(IndexingPalletPermission::SubmitDataForPublicQuorum),
        PermissionLevel::IndexingPallet(
            IndexingPalletPermission::SubmitDataForPrivilegedQuorum(t),
        ) => PermissionLevel::IndexingPallet(
            IndexingPalletPermission::SubmitDataForPrivilegedQuorum(t.duplicate()),
        ),
        PermissionLevel::AttestationPallet(AttestationPalletPermission::AttestBlock) =>
            PermissionLevel::AttestationPallet(AttestationPalletPermission::AttestBlock),
        PermissionLevel::AttestationPallet(AttestationPalletPermission::ForwardAttestedBlock) =>
            PermissionLevel::AttestationPallet(AttestationPalletPermission::ForwardAttestedBlock),
        PermissionLevel::UserCreated(name) => PermissionLevel::UserCreated(bytes_clone(name)),
    }
}

/// The views of a list of permissions.
pub open spec fn list_view(l: Seq<PermissionLevel>) -> Seq<PermissionView> {
    l.map_values(|p: PermissionLevel| p@)
}

/// A copy of a list of permissions.
pub fn list_clone(l: &Vec<PermissionLevel>) -> (r: Vec<PermissionLevel>)
    ensures
        list_view(r@) == list_view(l@),
{
    let mut r: Vec<PermissionLevel> = Vec::new();
    let mut i: usize = 0;
    while i < l.len()
        invariant
            i <= l.len(),
            r@.len() == i,
            forall|j: int| 0 <= j < i ==> r@[j]@ == l@[j]@,
        decreases l.len() - i,
    {
        r.push(permission_clone(&l[i]));
        i += 1;
    }
    assert(list_view(r@) =~= list_view(l@));
    r
}

/// Whether `p` occurs in the list.
pub fn list_contains(l: &Vec<PermissionLevel>, p: &PermissionLevel) -> (r: bool)
    ensures
        r == list_view(l@).contains(p@),
{
    let mut i: usize = 0;
    while i < l.len()
        invariant
            i <= l.len(),
            forall|j: int| 0 <= j < i ==> l@[j]@ != p@,
        decreases l.len() - i,
    {
        if permission_eq(&l[i], p) {
            assert(list_view(l@)[i as int] == p@);
            return true;
        }
        i += 1;
    }
    proof {
        if list_view(l@).contains(p@) {
            let j = choose|j: int| 0 <= j < list_view(l@).len() && list_view(l@)[j] == p@;
            assert(l@[j]@ == p@);
        }
    }
    false
}

/// Errors of the permissions pallet.
#[derive(Debug, Clone, Copy, PartialEq, Eq)]
pub enum PermissionsError {
    /// The signer of this transaction has insufficient permissions.
    InsufficientPermissions,
    /// `set_permissions` was called with an empty list of permissions.
    EmptyPermissionsListError,
    /// This transaction was unsigned.
    UnsignedTransaction,
    /// Bad origin.
    PermissionsBadOrigin,
    /// The proxy user already has this permission.
    PermissionAlreadyExists,
    /// The proxy user's permission list is full.
    PermissionListFull,
}

/// Events of the permissions pallet.
#[derive(Debug, PartialEq, Eq)]
pub enum PermissionsEvent {
    /// The permissions for an account were set to the given list.
    PermissionsSet(AccountId, Vec<PermissionLevel>),
}

/// The stored permissions of every account.
pub struct PermissionsPallet {
    permissions: VecMap<AccountId, Vec<PermissionLevel>>,
    list_capacity: usize,
}

/// What an origin may do for a required permission.
pub open spec fn spec_ensure_root_or_permissioned(
    perms: Map<AccountId, Seq<PermissionView>>,
    origin: Origin,
    p: PermissionView,
) -> Result<Option<AccountId>, PermissionsError> {
    match origin {
        Origin::Root => Ok(None),
        Origin::Signed(who) => if spec_has_permission(perms, who, p) {
            Ok(Some(who))
        } else {
            Err(PermissionsError::InsufficientPermissions)
        },
        Origin::Unsigned => Err(PermissionsError::UnsignedTransaction),
    }
}

/// Whether `who` holds permission `p`.
pub open spec fn spec_has_permission(
    perms: Map<AccountId, Seq<PermissionView>>,
    who: AccountId,
    p: PermissionView,
) -> bool {
    perms.contains_key(who) && perms[who].contains(p)
}

impl PermissionsPallet {
    /// The permissions of every account that has a stored list.
    pub closed spec fn view(&self) -> Map<AccountId, Seq<PermissionView>> {
        self.permissions@.map_values(|l: Vec<PermissionLevel>| list_view(l@))
    }

    /// The most permissions one account can hold.
    pub closed spec fn capacity(&self) -> nat {
        self.list_capacity as nat
    }

    /// The stored state is consistent.
    pub closed spec fn wf(&self) -> bool {
        &&& self.permissions.wf()
        &&& forall|a: AccountId| #[trigger]
            self.permissions@.contains_key(a) ==> self.permissions@[a]@.len()
                <= self.list_capacity
    }

    /// A pallet where no account holds a permission, and lists hold at most
    /// `list_capacity` permissions.
    pub fn new(list_capacity: usize) -> (r: Self)
        ensures
            r.wf(),
            r@ == Map::<AccountId, Seq<PermissionView>>::empty(),
            r.capacity() == list_capacity,
    {
        let r = PermissionsPallet { permissions: VecMap::new(), list_capacity };
        assert(r@ =~= Map::<AccountId, Seq<PermissionView>>::empty());
        r
    }

    /// The permissions stored for `who`, if any.
    pub fn permissions(&self, who: AccountId) -> (r: Option<Vec<PermissionLevel>>)
        requires
            self.wf(),
        ensures
            r is Some <==> self@.contains_key(who),
            r matches Some(l) ==> list_view(l@) == self@[who],
    {
        match self.permissions.get(&who) {
            Some(l) => Some(list_clone(l)),
            None => None,
        }
    }

    /// Returns `true` if the account `who` has permission `p`.
    pub fn has_permissions(&self, who: AccountId, p: &PermissionLevel) -> (r: bool)
        requires
            self.wf(),
        ensures
            r == spec_has_permission(self@, who, p@),
    {
        match self.permissions.get(&who) {
            Some(l) => list_contains(l, p),
            None => false,
        }
    }

    /// Returns `true` if the account `who` has at least one of the given permissions.
    pub fn has_any_permissions(&self, who: AccountId, permissions: &Vec<PermissionLevel>) -> (r:
        bool)
        requires
            self.wf(),
        ensures
            r == exists|i: int|
                0 <= i < permissions@.len() && spec_has_permission(
                    self@,
                    who,
                    #[trigger] permissions@[i]@,
                ),
    {
        let mut i: usize = 0;
        while i < permissions.len()
            invariant
                self.wf(),
                i <= permissions.len(),
                forall|j: int| 0 <= j < i ==> !spec_has_permission(self@, who, #[trigger] permissions@[j]@),
            decreases permissions.len() - i,
        {
            if self.has_permissions(who, &permissions[i]) {
                return true;
            }
            i += 1;
        }
        false
    }

    /// Checks that the origin is root, or a signed account holding `permission`.
    ///
    /// Returns `Ok(None)` for root, `Ok(Some(who))` for a permitted signer,
    /// `InsufficientPermissions` for a signer without it, and
    /// `UnsignedTransaction` otherwise.
    pub fn ensure_root_or_permissioned(&self, origin: Origin, permission: &PermissionLevel) -> (r:
        Result<Option<AccountId>, PermissionsError>)
        requires
            self.wf(),
        ensures
            r == spec_ensure_root_or_permissioned(self@, origin, permission@),
    {
        match origin {
            Origin::Root => Ok(None),
            Origin::Signed(who) => {
                if self.has_permissions(who, permission) {
                    Ok(Some(who))
                } else {
                    Err(PermissionsError::InsufficientPermissions)
                }
            },
            Origin::Unsigned => Err(PermissionsError::UnsignedTransaction),
        }
    }

    /// Sets the permissions of `who`.  Requires root or `UpdatePermissions`,
    /// and a non-empty list that fits the capacity.
    pub fn set_permissions(
        &mut self,
        origin: Origin,
        who: AccountId,
        permissions: Vec<PermissionLevel>,
    ) -> (r: Result<PermissionsEvent, PermissionsError>)
        requires
            old(self).wf(),
            permissions@.len() <= old(self).capacity(),
        ensures
            final(self).wf(),
            final(self).capacity() == old(self).capacity(),
            match spec_ensure_root_or_permissioned(
                old(self)@,
                origin,
                PermissionView::UpdatePermissions,
            ) {
                Err(e) => r == Err::<PermissionsEvent, PermissionsError>(e) && final(self)@ == old(
                    self,
                )@,
                Ok(_) => if permissions@.len() == 0 {
                    r == Err::<PermissionsEvent, PermissionsError>(
                        PermissionsError::EmptyPermissionsListError,
                    ) && final(self)@ == old(self)@
                } else {
                    &&& final(self)@ == old(self)@.insert(who, list_view(permissions@))
                    &&& r matches Ok(PermissionsEvent::PermissionsSet(w, l))
                    &&& w == who
                    &&& list_view(l@) == list_view(permissions@)
                },
            },
    {
        let up = PermissionLevel::UpdatePermissions;
        let checked = self.ensure_root_or_permissioned(origin, &up);
        if let Err(e) = checked {
            return Err(e);
        }
        if permissions.len() == 0 {
            return Err(PermissionsError::EmptyPermissionsListError);
        }
        let event_list = list_clone(&permissions);
        let ghost pre = self@;
        let ghost pv = list_view(permissions@);
        self.permissions.insert(who, permissions);
        proof {
            assert(self@ =~= pre.insert(who, pv));
        }
        Ok(PermissionsEvent::PermissionsSet(who, event_list))
    }

    /// Clears the permissions of `who`.  Requires root or `UpdatePermissions`.
    pub fn clear_permissions(&mut self, origin: Origin, who: AccountId) -> (r: Result<
        PermissionsEvent,
        PermissionsError,
    >)
        requires
            old(self).wf(),
        ensures
            final(self).wf(),
            final(self).capacity() == old(self).capacity(),
            match spec_ensure_root_or_permissioned(
                old(self)@,
                origin,
                PermissionView::UpdatePermissions,
            ) {
                Err(e) => r == Err::<PermissionsEvent, PermissionsError>(e) && final(self)@ == old(
                    self,
                )@,
                Ok(_) => {
                    &&& final(self)@ == old(self)@.remove(who)
                    &&& r matches Ok(PermissionsEvent::PermissionsSet(w, l))
                    &&& w == who
                    &&& l@.len() == 0
                },
            },
    {
        let up = PermissionLevel::UpdatePermissions;
        let checked = self.ensure_root_or_permissioned(origin, &up);
        if let Err(e) = checked {
            return Err(e);
        }
        let ghost pre = self@;
        let _ = self.permissions.remove(&who);
        proof {
            assert(self@ =~= pre.remove(who));
        }
        Ok(PermissionsEvent::PermissionsSet(who, Vec::new()))
    }

    /// Adds `permission` to the list of `proxy`, if it is not there yet.
    /// Requires root or `EditSpecificPermission(permission)`.
    pub fn add_proxy_permission(
        &mut self,
        origin: Origin,
        proxy: AccountId,
        permission: PermissionLevel,
    ) -> (r: Result<PermissionsEvent, PermissionsError>)
        requires
            old(self).wf(),
        ensures
            final(self).wf(),
            final(self).capacity() == old(self).capacity(),
            ({
                let current = if old(self)@.contains_key(proxy) {
                    old(self)@[proxy]
                } else {
                    Seq::<PermissionView>::empty()
                };
                match spec_ensure_root_or_permissioned(
                    old(self)@,
                    origin,
                    PermissionView::EditSpecificPermission(Box::new(permission@)),
                ) {
                    Err(e) => r == Err::<PermissionsEvent, PermissionsError>(e) && final(self)@
                        == old(self)@,
                    Ok(_) => if current.contains(permission@) {
                        r == Err::<PermissionsEvent, PermissionsError>(
                            PermissionsError::PermissionAlreadyExists,
                        ) && final(self)@ == old(self)@
                    } else if current.len() >= old(self).capacity() {
                        r == Err::<PermissionsEvent, PermissionsError>(
                            PermissionsError::PermissionListFull,
                        ) && final(self)@ == old(self)@
                    } else {
                        &&& final(self)@ == old(self)@.insert(proxy, current.push(permission@))
                        &&& r matches Ok(PermissionsEvent::PermissionsSet(w, l))
                        &&& w == proxy
                        &&& list_view(l@) == current.push(permission@)
                    },
                }
            }),
    {
        let required = PermissionLevel::EditSpecificPermission(
            Box::new(permission_clone(&permission)),
        );
        proof {
            assert(required@ == PermissionView::EditSpecificPermission(Box::new(permission@)));
        }
        let checked = self.ensure_root_or_permissioned(origin, &required);
        if let Err(e) = checked {
            return Err(e);
        }
        let mut list: Vec<PermissionLevel> = match self.permissions.get(&proxy) {
            Some(l) => list_clone(l),
            None => Vec::new(),
        };
        proof {
            if !self@.contains_key(proxy) {
                assert(list_view(list@) =~= Seq::<PermissionView>::empty());
            }
        }
        if list_contains(&list, &permission) {
            return Err(PermissionsError::PermissionAlreadyExists);
        }
        if list.len() >= self.list_capacity {
            return Err(PermissionsError::PermissionListFull);
        }
        let ghost before = list_view(list@);
        let ghost pv = permission@;
        list.push(permission);
        assert(list_view(list@) =~= before.push(pv));
        let event_list = list_clone(&list);
        let ghost pre = self@;
        self.permissions.insert(proxy, list);
        proof {
            assert(self@ =~= pre.insert(proxy, before.push(pv)));
        }
        Ok(PermissionsEvent::PermissionsSet(proxy, event_list))
    }
}

} // verus!

verus! {

/// Setting an account's permissions makes it hold exactly the listed
/// permissions; clearing them makes it hold none; other accounts keep
/// theirs either way.
pub proof fn lemma_set_and_clear_permissions(
    perms: Map<AccountId, Seq<PermissionView>>,
    who: AccountId,
    list: Seq<PermissionView>,
    other: AccountId,
    p: PermissionView,
)
    requires
        other != who,
    ensures
        spec_has_permission(perms.insert(who, list), who, p) == list.contains(p),
        !spec_has_permission(perms.remove(who), who, p),
        spec_has_permission(perms.insert(who, list), other, p) == spec_has_permission(
            perms,
            other,
            p,
        ),
        spec_has_permission(perms.remove(who), other, p) == spec_has_permission(perms, other, p),
{
}

/// Root passes every permission check, an unsigned origin none, and a
/// signer exactly those it holds.
pub proof fn lemma_permission_check(
    perms: Map<AccountId, Seq<PermissionView>>,
    origin: Origin,
    p: PermissionView,
)
    ensures
        origin == Origin::Root ==> spec_ensure_root_or_permissioned(perms, origin, p) is Ok,
        origin == Origin::Unsigned ==> spec_ensure_root_or_permissioned(perms, origin, p) is Err,
        origin matches Origin::Signed(who) ==> (spec_ensure_root_or_permissioned(perms, origin, p)
            is Ok <==> spec_has_permission(perms, who, p)),
{
}

} // verus!
