//! The attestation pallet: permitted accounts attest past blocks with the
//! Ethereum key they registered in the keystore, at most once per key and
//! block and at most 64 attestations per block; a permitted account marks
//! the last block forwarded.

use vstd::prelude::*;

use crate::keystore::{spec_verify_ethereum_msg, EthereumKey, KeystoreError, KeystorePallet};
use crate::permissions::{
    spec_ensure_root_or_permissioned, AttestationPalletPermission, PermissionLevel, PermissionView,
    PermissionsError, PermissionsPallet,
};
use crate::types::{AccountId, Origin};
use crate::vecmap::{bytes_clone, VecMap};

verus! {

/// A block number of the chain.
pub type BlockNumber = u32;

/// The most attestations recorded for one block.
pub const MAX_ATTESTATIONS_PER_BLOCK: usize = 64;

/// An attestation of a block's state.
#[derive(Debug, Clone, PartialEq, Eq)]
pub enum Attestation {
    /// An attestation signed with an Ethereum key.
    EthereumAttestation {
        /// The signature over the attestation message.
        signature: Vec<u8>,
        /// The attestor's public key.
        proposed_pub_key: [u8; 33],
        /// The attestor's Ethereum address.
        address20: Vec<u8>,
        /// The attested state root.
        state_root: Vec<u8>,
        /// The attested block.
        block_number: BlockNumber,
        /// The attested block's hash.
        block_hash: [u8; 32],
    },
}

/// The value of an attestation.
pub struct AttestationView {
    pub signature: Seq<u8>,
    pub proposed_pub_key: Seq<u8>,
    pub address20: Seq<u8>,
    pub state_root: Seq<u8>,
    pub block_number: BlockNumber,
    pub block_hash: Seq<u8>,
}

impl View for Attestation {
    type V = AttestationView;

    open spec fn view(&self) -> AttestationView {
        match self {
            Attestation::EthereumAttestation {
                signature,
                proposed_pub_key,
                address20,
                state_root,
                block_number,
                block_hash,
            } => AttestationView {
                signature: signature@,
                proposed_pub_key: proposed_pub_key@,
                address20: address20@,
                state_root: state_root@,
                block_number: *block_number,
                block_hash: block_hash@,
            },
        }
    }
}

impl Attestation {
    /// A copy of the attestation.
    pub fn duplicate(&self) -> (r: Self)
        ensures
            r@ == self@,
    {
        match self {
            Attestation::EthereumAttestation {
                signature,
                proposed_pub_key,
                address20,
                state_root,
                block_number,
                block_hash,
            } => Attestation::EthereumAttestation {
                signature: bytes_clone(signature),
                proposed_pub_key: *proposed_pub_key,
                address20: bytes_clone(address20),
                state_root: bytes_clone(state_root),
                block_number: *block_number,
                block_hash: *block_hash,
            },
        }
    }

    /// The attestor's public key.
    pub fn pub_key(&self) -> (r: [u8; 33])
        ensures
            r@ == self@.proposed_pub_key,
    {
        match self {
            Attestation::EthereumAttestation { proposed_pub_key, .. } => *proposed_pub_key,
        }
    }
}

/// Errors of the attestation pallet, and of the pallets it calls.
#[derive(Debug, Clone, Copy, PartialEq, Eq)]
pub enum AttestationError {
    /// The call is not signed.
    BadOrigin,
    /// The permissions pallet refused the caller.
    Permissions(PermissionsError),
    /// The keystore refused the attestation's key or signature.
    Keystore(KeystoreError),
    /// Maximum attestations for the block have been recorded.
    MaxAttestationsForBlockError,
    /// Attestation already exists for the given block and key.
    AttestationAlreadyRecordedError,
    /// Cannot attest to a block that has not occurred yet.
    CannotAttestFutureBlock,
    /// Cannot attest to the current (non-finalized) block.
    CannotAttestCurrentBlock,
}

/// Events of the attestation pallet.
#[derive(Debug, PartialEq, Eq)]
pub enum AttestationEvent {
    /// A block was attested.
    BlockAttested {
        /// The number of the block that was attested.
        block_number: BlockNumber,
        /// The attestation.
        attestation: Attestation,
        /// The attestor.
        who: AccountId,
    },
}

/// The values of a list of attestations.
pub open spec fn attestations_view(v: Seq<Attestation>) -> Seq<AttestationView> {
    v.map_values(|a: Attestation| a@)
}

/// Whether some attestation in `list` is by `pub_key`.
pub open spec fn has_key(list: Seq<AttestationView>, pub_key: Seq<u8>) -> bool {
    exists|i: int| 0 <= i < list.len() && (#[trigger] list[i]).proposed_pub_key == pub_key
}

/// The attestation pallet's storage.
pub struct AttestationPallet {
    attestations: VecMap<BlockNumber, Vec<Attestation>>,
    last_forwarded_block: Option<BlockNumber>,
}

/// The attestations of each block.
pub open spec fn block_attestations(m: Map<BlockNumber, Seq<AttestationView>>, b: BlockNumber) -> Seq<
    AttestationView,
> {
    if m.contains_key(b) {
        m[b]
    } else {
        Seq::empty()
    }
}

/// The block an attestation is recorded under: the given one, or the
/// current block when none is given.
pub open spec fn target_block(block_number: Option<BlockNumber>, current_block: BlockNumber) -> BlockNumber {
    match block_number {
        Some(b) => b,
        None => current_block,
    }
}

/// What attesting `block_number` does, as of `current_block`: a given
/// block must be past, the caller permitted, the key and signature the
/// caller's, no attestation by that key recorded for the block, and room
/// left.  Without a block number the attestation is for the current block,
/// with no check of its number.  On success the attestation is appended to
/// the block's list.
pub open spec fn attest_outcome(
    m: Map<BlockNumber, Seq<AttestationView>>,
    perms: Map<AccountId, Seq<PermissionView>>,
    keys: Map<AccountId, crate::keystore::UserKeystoreView>,
    origin: Origin,
    current_block: BlockNumber,
    block_number: Option<BlockNumber>,
    a: AttestationView,
    signature_valid: bool,
) -> Result<Map<BlockNumber, Seq<AttestationView>>, AttestationError> {
    let k = target_block(block_number, current_block);
    match origin {
        Origin::Signed(who) => {
            if block_number matches Some(b) && b > current_block {
                Err(AttestationError::CannotAttestFutureBlock)
            } else if block_number matches Some(b) && b == current_block {
                Err(AttestationError::CannotAttestCurrentBlock)
            } else if spec_ensure_root_or_permissioned(perms, origin, PermissionView::AttestBlock) is Err {
                Err(AttestationError::Permissions(
                    spec_ensure_root_or_permissioned(perms, origin, PermissionView::AttestBlock)->Err_0,
                ))
            } else if spec_verify_ethereum_msg(keys, who, a.proposed_pub_key, signature_valid) is Err {
                Err(AttestationError::Keystore(
                    spec_verify_ethereum_msg(keys, who, a.proposed_pub_key, signature_valid)->Err_0,
                ))
            } else if has_key(block_attestations(m, k), a.proposed_pub_key) {
                Err(AttestationError::AttestationAlreadyRecordedError)
            } else if block_attestations(m, k).len() >= MAX_ATTESTATIONS_PER_BLOCK {
                Err(AttestationError::MaxAttestationsForBlockError)
            } else {
                Ok(m.insert(k, block_attestations(m, k).push(a)))
            }
        },
        _ => Err(AttestationError::BadOrigin),
    }
}

fn contains_key_of(list: &Vec<Attestation>, pk: &[u8; 33]) -> (r: bool)
    ensures
        r == has_key(attestations_view(list@), pk@),
{
    let mut i: usize = 0;
    while i < list.len()
        invariant
            i <= list@.len(),
            forall|j: int| 0 <= j < i ==> (#[trigger] list@[j])@.proposed_pub_key != pk@,
        decreases list.len() - i,
    {
        let other = list[i].pub_key();
        let mut k: usize = 0;
        let mut same = true;
        while k < 33
            invariant
                k <= 33,
                other@.len() == 33,
                pk@.len() == 33,
                same <==> forall|q: int| 0 <= q < k ==> other@[q] == pk@[q],
            decreases 33 - k,
        {
            if other[k] != pk[k] {
                same = false;
            }
            k += 1;
        }
        if same {
            assert(other@ =~= pk@);
            assert(attestations_view(list@)[i as int] == list@[i as int]@);
            return true;
        } else {
            assert(other@ != pk@) by {
                let q = choose|q: int| 0 <= q < 33 && !(other@[q] == pk@[q]);
            }
        }
        i += 1;
    }
    proof {
        let lv = attestations_view(list@);
        assert forall|j: int| 0 <= j < lv.len() implies (#[trigger] lv[j]).proposed_pub_key
            != pk@ by {
            assert(lv[j] == list@[j]@);
        }
    }
    false
}

impl AttestationPallet {
    /// The attestations recorded for each block that has some.
    pub closed spec fn view(&self) -> Map<BlockNumber, Seq<AttestationView>> {
        self.attestations@.map_values(|v: Vec<Attestation>| attestations_view(v@))
    }

    /// The last block marked forwarded.
    pub closed spec fn spec_last_forwarded_block(&self) -> Option<BlockNumber> {
        self.last_forwarded_block
    }

    /// The storage is well formed: no block has more than 64 attestations.
    pub closed spec fn wf(&self) -> bool {
        &&& self.attestations.wf()
        &&& forall|b: BlockNumber| #[trigger]
            self.attestations@.contains_key(b) ==> self.attestations@[b]@.len()
                <= MAX_ATTESTATIONS_PER_BLOCK
    }

    /// A pallet with no attestations and no block forwarded.
    pub fn new() -> (r: Self)
        ensures
            r.wf(),
            r@ == Map::<BlockNumber, Seq<AttestationView>>::empty(),
            r.spec_last_forwarded_block() is None,
    {
        let r = AttestationPallet { attestations: VecMap::new(), last_forwarded_block: None };
        assert(r@ =~= Map::<BlockNumber, Seq<AttestationView>>::empty());
        r
    }

    /// The attestations recorded for `block_number`.
    pub fn attestations(&self, block_number: BlockNumber) -> (r: Vec<Attestation>)
        requires
            self.wf(),
        ensures
            attestations_view(r@) == block_attestations(self@, block_number),
    {
        let mut out: Vec<Attestation> = Vec::new();
        match self.attestations.get(&block_number) {
            Some(list) => {
                let mut i: usize = 0;
                while i < list.len()
                    invariant
                        i <= list@.len(),
                        attestations_view(out@) == attestations_view(list@.take(i as int)),
                    decreases list.len() - i,
                {
                    let ghost prev = out@;
                    out.push(list[i].duplicate());
                    proof {
                        assert(list@.take(i + 1) =~= list@.take(i as int).push(list@[i as int]));
                        assert(attestations_view(out@) =~= attestations_view(prev).push(list@[i as int]@));
                        assert(attestations_view(out@) =~= attestations_view(list@.take(i + 1)));
                    }
                    i += 1;
                }
                assert(list@.take(list@.len() as int) =~= list@);
            },
            None => {
                assert(attestations_view(out@) =~= Seq::<AttestationView>::empty());
            },
        }
        out
    }

    /// The last block marked forwarded, if any.
    pub fn last_forwarded_block(&self) -> (r: Option<BlockNumber>)
        ensures
            r == self.spec_last_forwarded_block(),
    {
        self.last_forwarded_block
    }

    /// Records an attestation of `block_number`, or of the current block when
    /// none is given, by the signer of `origin`, as of `current_block`.
    /// `signature_valid` is whether the attestation's signature over its
    /// message verifies with its key.
    pub fn attest_block(
        &mut self,
        permissions: &PermissionsPallet,
        keystore: &KeystorePallet,
        origin: Origin,
        current_block: BlockNumber,
        block_number: Option<BlockNumber>,
        attestation: Attestation,
        signature_valid: bool,
    ) -> (r: Result<AttestationEvent, AttestationError>)
        requires
            old(self).wf(),
            permissions.wf(),
            keystore.wf(),
        ensures
            final(self).wf(),
            final(self).spec_last_forwarded_block() == old(self).spec_last_forwarded_block(),
            match attest_outcome(
                old(self)@,
                permissions@,
                keystore@,
                origin,
                current_block,
                block_number,
                attestation@,
                signature_valid,
            ) {
                Ok(m) => final(self)@ == m && (r matches Ok(AttestationEvent::BlockAttested {
                    block_number: b,
                    attestation: a,
                    who,
                }) && b == target_block(block_number, current_block) && a@ == attestation@ && origin
                    == Origin::Signed(who)),
                Err(e) => r == Err::<AttestationEvent, AttestationError>(e) && final(self)@ == old(
                    self,
                )@,
            },
    {
        let who = match origin {
            Origin::Signed(w) => w,
            _ => {
                return Err(AttestationError::BadOrigin);
            },
        };
        if let Some(b) = block_number {
            if b > current_block {
                return Err(AttestationError::CannotAttestFutureBlock);
            }
            if b == current_block {
                return Err(AttestationError::CannotAttestCurrentBlock);
            }
        }
        let block_number = match block_number {
            Some(b) => b,
            None => current_block,
        };
        let permission = PermissionLevel::AttestationPallet(AttestationPalletPermission::AttestBlock);
        match permissions.ensure_root_or_permissioned(origin, &permission) {
            Ok(_) => {},
            Err(e) => {
                return Err(AttestationError::Permissions(e));
            },
        }
        let key = match &attestation {
            Attestation::EthereumAttestation { proposed_pub_key, address20, .. } => EthereumKey {
                pub_key: *proposed_pub_key,
                address20: bytes_clone(address20),
            },
        };
        match keystore.verify_ethereum_msg(who, &key, signature_valid) {
            Ok(()) => {},
            Err(e) => {
                return Err(AttestationError::Keystore(e));
            },
        }
        let mut list = self.attestations(block_number);
        let pk = attestation.pub_key();
        if contains_key_of(&list, &pk) {
            return Err(AttestationError::AttestationAlreadyRecordedError);
        }
        if list.len() >= MAX_ATTESTATIONS_PER_BLOCK {
            return Err(AttestationError::MaxAttestationsForBlockError);
        }
        let ghost pre = self@;
        let ghost prev = list@;
        list.push(attestation.duplicate());
        proof {
            assert(attestations_view(list@) =~= attestations_view(prev).push(attestation@));
        }
        let ghost lv = attestations_view(list@);
        self.attestations.insert(block_number, list);
        proof {
            assert(self@ =~= pre.insert(block_number, lv));
        }
        Ok(AttestationEvent::BlockAttested { block_number, attestation, who })
    }

    /// Marks `block_number` as the last block forwarded.  Requires root or
    /// the `ForwardAttestedBlock` permission.
    pub fn mark_block_forwarded(
        &mut self,
        permissions: &PermissionsPallet,
        origin: Origin,
        block_number: BlockNumber,
    ) -> (r: Result<(), AttestationError>)
        requires
            old(self).wf(),
            permissions.wf(),
        ensures
            final(self).wf(),
            final(self)@ == old(self)@,
            match spec_ensure_root_or_permissioned(
                permissions@,
                origin,
                PermissionView::ForwardAttestedBlock,
            ) {
                Ok(_) => r is Ok && final(self).spec_last_forwarded_block() == Some(block_number),
                Err(e) => r == Err::<(), AttestationError>(AttestationError::Permissions(e))
                    && final(self).spec_last_forwarded_block() == old(
                    self,
                ).spec_last_forwarded_block(),
            },
    {
        let permission = PermissionLevel::AttestationPallet(
            AttestationPalletPermission::ForwardAttestedBlock,
        );
        match permissions.ensure_root_or_permissioned(origin, &permission) {
            Ok(_) => {
                self.last_forwarded_block = Some(block_number);
                Ok(())
            },
            Err(e) => Err(AttestationError::Permissions(e)),
        }
    }
}

/// Once an attestation is recorded for a block, the same key can never
/// attest that block again, whatever else is submitted.
pub proof fn lemma_attestation_recorded_once(
    m: Map<BlockNumber, Seq<AttestationView>>,
    perms: Map<AccountId, Seq<PermissionView>>,
    keys: Map<AccountId, crate::keystore::UserKeystoreView>,
    origin: Origin,
    current_block: BlockNumber,
    block_number: Option<BlockNumber>,
    a: AttestationView,
    signature_valid: bool,
    origin2: Origin,
    current_block2: BlockNumber,
    block_number2: Option<BlockNumber>,
    a2: AttestationView,
    signature_valid2: bool,
)
    requires
        attest_outcome(m, perms, keys, origin, current_block, block_number, a, signature_valid) is Ok,
        target_block(block_number2, current_block2) == target_block(block_number, current_block),
        a2.proposed_pub_key == a.proposed_pub_key,
    ensures
        ({
            let m1 = attest_outcome(
                m,
                perms,
                keys,
                origin,
                current_block,
                block_number,
                a,
                signature_valid,
            )->Ok_0;
            &&& block_attestations(m1, target_block(block_number, current_block)).last() == a
            &&& attest_outcome(
                m1,
                perms,
                keys,
                origin2,
                current_block2,
                block_number2,
                a2,
                signature_valid2,
            ) is Err
        }),
{
    let m1 = attest_outcome(m, perms, keys, origin, current_block, block_number, a, signature_valid)->Ok_0;
    let l = block_attestations(m1, target_block(block_number, current_block));
    assert(l[l.len() - 1].proposed_pub_key == a2.proposed_pub_key);
    assert(has_key(l, a2.proposed_pub_key));
}

} // verus!
