//! Account handles as the engine sees them: an opaque 32-byte identity,
//! supplied positionally. The engine only reads the identity and forwards it
//! to the delegated transfer capability; it never owns or mutates accounts.

use vstd::prelude::*;

verus! {

/// The identity of an external account: its 32-byte public key.
#[derive(Debug, Clone, Copy)]
pub struct AccountId {
    pub bytes: [u8; 32],
}

impl View for AccountId {
    type V = Seq<u8>;

    open spec fn view(&self) -> Seq<u8> {
        self.bytes@
    }
}

impl AccountId {
    /// Wraps raw key bytes as an account identity.
    pub fn new(bytes: [u8; 32]) -> (r: AccountId)
        ensures
            r@ == bytes@,
    {
        AccountId { bytes }
    }
}

/// The identities of a sequence of account handles.
pub open spec fn ids_of(accounts: Seq<AccountId>) -> Seq<Seq<u8>> {
    accounts.map_values(|a: AccountId| a@)
}

/// Whether two handles name the same account.
pub fn same_id(a: &AccountId, b: &AccountId) -> (r: bool)
    ensures
        r == (a@ == b@),
{
    let mut i: usize = 0;
    while i < 32
        invariant
            i <= 32,
            forall|j: int| 0 <= j < i ==> a.bytes@[j] == b.bytes@[j],
        decreases 32 - i,
    {
        if a.bytes[i] != b.bytes[i] {
            assert(a@[i as int] != b@[i as int]);
            return false;
        }
        i += 1;
    }
    proof {
        assert(a@ =~= b@);
    }
    true
}

} // verus!
