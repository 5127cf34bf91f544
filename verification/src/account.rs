//! Account identifiers.
//!
//! An account identifier is an opaque 32-byte identity value for a
//! participant (a wallet or address). The registry interprets no internal
//! structure of it; all it needs is equality.

use vstd::prelude::*;

verus! {

/// An opaque, equality-comparable identity of a participant.
#[derive(Clone, Copy)]
#[verifier::ext_equal]
pub struct AccountId {
    /// The raw identity bytes.
    pub bytes: [u8; 32],
}

/// Two account identities are equal exactly when their bytes are equal.
pub proof fn lemma_account_eq(a: AccountId, b: AccountId)
    ensures
        (a == b) <==> (a.bytes == b.bytes),
{
    if a.bytes == b.bytes {
        assert(a =~= b);
    }
}

impl PartialEq for AccountId {
    fn eq(&self, other: &AccountId) -> (r: bool) {
        let mut i: usize = 0;
        while i < 32
            invariant
                i <= 32,
                forall|j: int| 0 <= j < i ==> self.bytes@[j] == other.bytes@[j],
            decreases 32 - i,
        {
            if self.bytes[i] != other.bytes[i] {
                return false;
            }
            i = i + 1;
        }
        proof {
            assert(self.bytes =~= other.bytes);
        }
        true
    }
}

impl vstd::std_specs::cmp::PartialEqSpecImpl for AccountId {
    open spec fn obeys_eq_spec() -> bool {
        true
    }

    open spec fn eq_spec(&self, other: &AccountId) -> bool {
        self.bytes == other.bytes
    }
}

impl From<[u8; 32]> for AccountId {
    fn from(bytes: [u8; 32]) -> (r: AccountId) {
        AccountId { bytes }
    }
}

impl vstd::std_specs::convert::FromSpecImpl<[u8; 32]> for AccountId {
    open spec fn obeys_from_spec() -> bool {
        true
    }

    open spec fn from_spec(bytes: [u8; 32]) -> AccountId {
        AccountId { bytes }
    }
}

} // verus!
