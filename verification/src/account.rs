//! Account identifiers.

use vstd::prelude::*;

verus! {

/// An opaque 32-byte name for a participant in the ledger.
///
/// Two identifiers name the same account exactly when their bytes agree.
/// The view of an identifier is the sequence of its bytes.
#[derive(Clone, Copy, Debug, Eq)]
pub struct AccountId {
    pub bytes: [u8; 32],
}

impl View for AccountId {
    type V = Seq<u8>;

    open spec fn view(&self) -> Seq<u8> {
        self.bytes@
    }
}

impl PartialEq for AccountId {
    fn eq(&self, other: &Self) -> (same: bool) {
        let mut i: usize = 0;
        while i < 32
            invariant
                i <= 32,
                forall|j: int| 0 <= j < i ==> self.bytes[j] == other.bytes[j],
            decreases 32 - i,
        {
            if self.bytes[i] != other.bytes[i] {
                return false;
            }
            i += 1;
        }
        proof {
            assert(self.bytes =~= other.bytes);
        }
        true
    }
}

impl vstd::std_specs::cmp::PartialEqSpecImpl for AccountId {
    open spec fn obeys_eq_spec() -> bool {
        true
    }

    open spec fn eq_spec(&self, other: &Self) -> bool {
        *self == *other
    }
}

/// An array that agrees with `bytes` on its first `n` positions and is zero
/// on the rest.
spec fn array_from_prefix(bytes: Seq<u8>, n: nat) -> [u8; 32]
    decreases n,
{
    if n == 0 {
        vstd::array::spec_array_fill_for_copy_type::<u8, 32>(0u8)
    } else {
        vstd::array::spec_array_update(
            array_from_prefix(bytes, (n - 1) as nat),
            n - 1,
            bytes[n - 1],
        )
    }
}

proof fn lemma_array_from_prefix(bytes: Seq<u8>, n: nat)
    requires
        n <= 32,
    ensures
        forall|i: int| 0 <= i < n ==> array_from_prefix(bytes, n)@[i] == bytes[i],
    decreases n,
{
    broadcast use vstd::array::axiom_spec_array_update;

    if n > 0 {
        lemma_array_from_prefix(bytes, (n - 1) as nat);
    }
}

impl AccountId {
    /// The identifier made of the 32 bytes of `bytes`.
    pub closed spec fn from_seq(bytes: Seq<u8>) -> AccountId
        recommends
            bytes.len() == 32,
    {
        AccountId { bytes: array_from_prefix(bytes, 32) }
    }

    /// An identifier is determined by its bytes: `from_seq` inverts the view.
    pub proof fn lemma_from_seq(bytes: Seq<u8>)
        requires
            bytes.len() == 32,
        ensures
            Self::from_seq(bytes)@ == bytes,
    {
        lemma_array_from_prefix(bytes, 32);
    }

    /// Identifiers with the same bytes are the same identifier.
    pub proof fn lemma_view_injective(a: AccountId, b: AccountId)
        requires
            a@ == b@,
        ensures
            a == b,
    {
        assert(a.bytes =~= b.bytes);
    }

    /// Wraps 32 bytes as an identifier.
    pub fn new(bytes: [u8; 32]) -> (id: AccountId)
        ensures
            id.bytes == bytes,
    {
        AccountId { bytes }
    }

    /// Reads an identifier from a slice of exactly 32 bytes.
    pub fn from_slice(bytes: &[u8]) -> (id: AccountId)
        requires
            bytes@.len() == 32,
        ensures
            id == Self::from_seq(bytes@),
    {
        let mut array = [0u8; 32];
        let mut i: usize = 0;
        while i < 32
            invariant
                i <= 32,
                bytes@.len() == 32,
                forall|j: int| 0 <= j < i ==> array@[j] == bytes@[j],
            decreases 32 - i,
        {
            array[i] = bytes[i];
            i += 1;
        }
        let id = AccountId { bytes: array };
        proof {
            assert(id@ =~= bytes@);
            Self::lemma_from_seq(bytes@);
            Self::lemma_view_injective(id, Self::from_seq(bytes@));
        }
        id
    }

    /// The identifier's bytes.
    pub fn to_bytes(&self) -> (bytes: [u8; 32])
        ensures
            bytes == self.bytes,
    {
        self.bytes
    }
}

} // verus!
