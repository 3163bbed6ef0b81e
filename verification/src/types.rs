//! Plain data shared by the pallets: accounts, origins and table identifiers.

use vstd::prelude::*;

use crate::vecmap::{bytes_clone, bytes_eq, MapKey};

verus! {

/// An account of the chain.
pub type AccountId = u64;

/// An account of the chain as its 32 bytes, as the staking side of the
/// chain names accounts.
pub type AccountId32 = [u8; 32];

/// The account whose bytes are `bytes`.
pub open spec fn account_of(bytes: Seq<u8>) -> AccountId32 {
    choose|a: AccountId32| a@ == bytes
}

/// A 32-byte hash, such as a data hash of a submission.
pub type DataHash = [u8; 32];

/// The origin of a call.
#[derive(Debug, Clone, Copy, PartialEq, Eq)]
pub enum Origin {
    /// The chain's root (sudo).
    Root,
    /// A signed transaction.
    Signed(AccountId),
    /// An unsigned transaction.
    Unsigned,
}

/// Identifies a table by namespace and name.
#[derive(Debug, Clone, PartialEq, Eq)]
pub struct TableIdentifier {
    /// The table's namespace (schema).
    pub namespace: Vec<u8>,
    /// The table's name.
    pub name: Vec<u8>,
}

impl View for TableIdentifier {
    type V = (Seq<u8>, Seq<u8>);

    open spec fn view(&self) -> (Seq<u8>, Seq<u8>) {
        (self.namespace@, self.name@)
    }
}

impl MapKey for TableIdentifier {
    fn key_eq(&self, other: &Self) -> (r: bool) {
        bytes_eq(&self.namespace, &other.namespace) && bytes_eq(&self.name, &other.name)
    }

    fn key_clone(&self) -> (r: Self) {
        TableIdentifier { namespace: bytes_clone(&self.namespace), name: bytes_clone(&self.name) }
    }
}

impl TableIdentifier {
    /// Builds an identifier from its two parts.
    pub fn new(namespace: Vec<u8>, name: Vec<u8>) -> (r: Self)
        ensures
            r.namespace == namespace,
            r.name == name,
    {
        TableIdentifier { namespace, name }
    }

    /// A copy of the identifier.
    pub fn duplicate(&self) -> (r: Self)
        ensures
            r@ == self@,
    {
        self.key_clone()
    }
}

/// Whether two hashes are equal.
pub fn hash_eq(a: &DataHash, b: &DataHash) -> (r: bool)
    ensures
        r == (a@ == b@),
{
    let mut i: usize = 0;
    while i < 32
        invariant
            i <= 32,
            a@.len() == 32,
            b@.len() == 32,
            forall|j: int| 0 <= j < i ==> a@[j] == b@[j],
        decreases 32 - i,
    {
        if a[i] != b[i] {
            return false;
        }
        i += 1;
    }
    assert(a@ =~= b@);
    true
}

} // verus!
