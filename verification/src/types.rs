//! The identifiers that the RPC methods take.
use vstd::prelude::*;

verus! {

/// The id of a subnet.
#[derive(Clone, Copy, Debug, PartialEq, Eq, Structural)]
pub struct NetUid(pub u16);

/// The id of a mechanism within a subnet.
#[derive(Clone, Copy, Debug, PartialEq, Eq, Structural)]
pub struct MechId(pub u8);

/// The id of an account, a hotkey or a coldkey.
#[derive(Clone, Copy, Debug, PartialEq, Eq)]
pub struct AccountId32(pub [u8; 32]);

impl View for AccountId32 {
    type V = Seq<u8>;

    open spec fn view(&self) -> Seq<u8> {
        self.0@
    }
}

/// An account id stands for its bytes.
pub proof fn law_an_account_stands_for_its_bytes(account: AccountId32)
    ensures
        account@ == account.0@,
        account@.len() == 32,
{
}

} // verus!
