//! Addresses and program instructions as plain data.
use vstd::prelude::*;

verus! {

/// A 32-byte account address.
pub type Address = [u8; 32];

/// An account an instruction touches, and how.
#[derive(Clone, Copy, Debug)]
pub struct AccountMeta {
    pub address: Address,
    pub is_signer: bool,
    pub is_writable: bool,
}

/// What an [`AccountMeta`] says.
pub struct AccountMetaView {
    pub address: Seq<u8>,
    pub is_signer: bool,
    pub is_writable: bool,
}

impl View for AccountMeta {
    type V = AccountMetaView;

    open spec fn view(&self) -> AccountMetaView {
        AccountMetaView {
            address: self.address@,
            is_signer: self.is_signer,
            is_writable: self.is_writable,
        }
    }
}

/// A writable account.
pub open spec fn writable(address: Seq<u8>, is_signer: bool) -> AccountMetaView {
    AccountMetaView { address, is_signer, is_writable: true }
}

/// An account that is only read.
pub open spec fn readonly(address: Seq<u8>, is_signer: bool) -> AccountMetaView {
    AccountMetaView { address, is_signer, is_writable: false }
}

impl AccountMeta {
    /// An account the instruction may write to.
    pub fn new(address: Address, is_signer: bool) -> (meta: Self)
        ensures
            meta@ == writable(address@, is_signer),
    {
        AccountMeta { address, is_signer, is_writable: true }
    }

    /// An account the instruction only reads.
    pub fn new_readonly(address: Address, is_signer: bool) -> (meta: Self)
        ensures
            meta@ == readonly(address@, is_signer),
    {
        AccountMeta { address, is_signer, is_writable: false }
    }
}

/// One call of an on-chain program.
#[derive(Debug)]
pub struct Instruction {
    pub program_id: Address,
    pub accounts: Vec<AccountMeta>,
    pub data: Vec<u8>,
}

/// What an [`Instruction`] says.
#[verifier::ext_equal]
pub struct InstructionView {
    pub program_id: Seq<u8>,
    pub accounts: Seq<AccountMetaView>,
    pub data: Seq<u8>,
}

/// What each of several account entries says.
pub open spec fn metas_view(accounts: Seq<AccountMeta>) -> Seq<AccountMetaView> {
    accounts.map_values(|meta: AccountMeta| meta@)
}

impl View for Instruction {
    type V = InstructionView;

    open spec fn view(&self) -> InstructionView {
        InstructionView {
            program_id: self.program_id@,
            accounts: metas_view(self.accounts@),
            data: self.data@,
        }
    }
}

/// What each of several instructions says.
pub open spec fn ixs_view(ixs: Seq<Instruction>) -> Seq<InstructionView> {
    ixs.map_values(|ix: Instruction| ix@)
}

/// The bytes of two addresses compared one by one.
pub fn same_address(a: &Address, b: &Address) -> (same: bool)
    ensures
        same == (a@ == b@),
{
    let mut i: usize = 0;
    while i < 32
        invariant
            i <= 32,
            forall|j: int| 0 <= j < i ==> a@[j] == b@[j],
        decreases 32 - i,
    {
        if a[i] != b[i] {
            return false;
        }
        i = i + 1;
    }
    assert(a@ =~= b@);
    true
}

} // verus!
