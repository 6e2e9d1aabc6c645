//! The static program identity: the host hands every invocation the
//! identity it was addressed to, and the entry point may check it against
//! the identity this program is deployed under before dispatching.

use vstd::prelude::*;
use crate::account::AccountId;
use crate::account::same_id;

verus! {

/// The 32 public-key bytes of the identity this program is deployed under.
pub open spec fn spec_program_id() -> Seq<u8> {
    seq![
        0xbcu8, 0x07u8, 0xc5u8, 0x6eu8, 0x60u8, 0xadu8, 0x3du8, 0x3fu8, 0x17u8, 0x73u8, 0x82u8,
        0xeau8, 0xc6u8, 0x54u8, 0x8fu8, 0xbau8, 0x1fu8, 0xd3u8, 0x2cu8, 0xfdu8, 0x90u8, 0xcau8,
        0x02u8, 0xb3u8, 0xe7u8, 0xcfu8, 0xa1u8, 0x85u8, 0xfdu8, 0xceu8, 0x73u8, 0x98u8,
    ]
}

/// The identity this program is deployed under.
pub fn expected_program_id() -> (r: AccountId)
    ensures
        r@ == spec_program_id(),
{
    let bytes: [u8; 32] = [
        0xbc, 0x07, 0xc5, 0x6e, 0x60, 0xad, 0x3d, 0x3f, 0x17, 0x73, 0x82, 0xea, 0xc6, 0x54, 0x8f,
        0xba, 0x1f, 0xd3, 0x2c, 0xfd, 0x90, 0xca, 0x02, 0xb3, 0xe7, 0xcf, 0xa1, 0x85, 0xfd, 0xce,
        0x73, 0x98,
    ];
    let r = AccountId::new(bytes);
    proof {
        assert(r@ =~= spec_program_id());
    }
    r
}

/// Whether an invocation is addressed to this program.
pub fn check_id(program_id: &AccountId) -> (r: bool)
    ensures
        r == (program_id@ == spec_program_id()),
{
    let own = expected_program_id();
    same_id(program_id, &own)
}

} // verus!
