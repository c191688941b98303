//! Instructions and addresses that the chain's standard programs define.
use crate::bytes::{le_bytes, le_value};
use crate::instruction::{readonly, writable, AccountMeta, Address, Instruction, InstructionView};
use vstd::prelude::*;

verus! {

/// The system program.
pub const SYSTEM_PROGRAM_ID: [u8; 32] = [
    0, 0, 0, 0, 0, 0, 0, 0, 0, 0, 0, 0, 0, 0, 0, 0, 0, 0, 0, 0, 0, 0, 0, 0, 0, 0, 0, 0, 0, 0, 0, 0,
];

/// The SPL token program.
pub const SPL_TOKEN_ID: [u8; 32] = [
    6, 221, 246, 225, 215, 101, 161, 147, 217, 203, 225, 70, 206, 235, 121, 172, 28, 180, 133, 237,
    95, 91, 55, 145, 58, 140, 245, 133, 126, 255, 0, 169,
];

/// The associated token account program.
pub const SPL_ASSOCIATED_TOKEN_ID: [u8; 32] = [
    140, 151, 37, 143, 78, 36, 137, 241, 187, 61, 16, 41, 20, 142, 13, 131, 11, 90, 19, 153, 218,
    255, 16, 132, 4, 142, 123, 216, 219, 233, 248, 89,
];

/// The rent sysvar account.
pub const RENT_SYSVAR_ID: [u8; 32] = [
    6, 167, 213, 23, 25, 44, 92, 81, 33, 140, 201, 76, 61, 74, 241, 127, 88, 218, 238, 8, 155, 161,
    253, 68, 227, 219, 217, 138, 0, 0, 0, 0,
];

/// The delegation program.
pub const DELEGATION_PROGRAM_ID: [u8; 32] = [
    181, 183, 0, 225, 242, 87, 58, 192, 204, 6, 34, 1, 52, 74, 207, 151, 184, 53, 6, 235, 140, 229,
    25, 152, 204, 98, 126, 24, 147, 128, 167, 62,
];

/// Bytes a token mint occupies on chain.
pub const MINT_LEN: u64 = 82;

/// Bytes a token account occupies on chain.
pub const TOKEN_ACCOUNT_LEN: usize = 165;

/// An error of an on-chain program's client code.
#[verifier::external_type_specification]
#[verifier::external_body]
pub struct ExProgramError(solana_sdk::program_error::ProgramError);

/// The address that `Pubkey::try_find_program_address` derives for a program
/// from seeds, if it derives one.
pub uninterp spec fn program_address(seeds: Seq<Seq<u8>>, program: Seq<u8>) -> Option<Seq<u8>>;

/// What each of several seeds holds.
pub open spec fn seeds_view(seeds: Seq<Vec<u8>>) -> Seq<Seq<u8>> {
    seeds.map_values(|seed: Vec<u8>| seed@)
}

/// Calls `solana_pubkey::Pubkey::try_find_program_address` and keeps the
/// address. Claims that the outcome is a function of the seeds and the
/// program alone. (`Pubkey::find_program_address` gives the same address and
/// panics where this gives none.)
#[verifier::external_body]
pub(crate) fn find_program_address(seeds: &Vec<Vec<u8>>, program: &Address) -> (found: Option<
    Address,
>)
    ensures
        match found {
            Some(address) => program_address(seeds_view(seeds@), program@) == Some(address@),
            None => program_address(seeds_view(seeds@), program@) is None,
        },
{
    let parts: Vec<&[u8]> = seeds.iter().map(|seed| seed.as_slice()).collect();
    let program = solana_pubkey::Pubkey::new_from_array(*program);
    let found = solana_pubkey::Pubkey::try_find_program_address(&parts, &program);
    found.map(|(address, _bump)| address.to_bytes())
}

/// The seeds of a delegated account's delegation record.
pub open spec fn record_seeds(account: Seq<u8>) -> Seq<Seq<u8>> {
    seq![seq![100u8, 101, 108, 101, 103, 97, 116, 105, 111, 110], account]
}

/// The seeds of a delegated account's delegation metadata.
pub open spec fn metadata_seeds(account: Seq<u8>) -> Seq<Seq<u8>> {
    seq![
        seq![
            100u8, 101, 108, 101, 103, 97, 116, 105, 111, 110, 45, 109, 101, 116, 97, 100, 97, 116,
            97,
        ],
        account,
    ]
}

/// The seeds of the buffer used while an account is delegated.
pub open spec fn buffer_seeds(account: Seq<u8>) -> Seq<Seq<u8>> {
    seq![seq![98u8, 117, 102, 102, 101, 114], account]
}

/// Calls `dlp_api::pda::delegation_record_pda_from_delegated_account`. Claims
/// that it derives the address from the tag `delegation` and the account,
/// under the delegation program.
#[verifier::external_body]
pub(crate) fn delegation_record_pda(account: &Address) -> (address: Address)
    requires
        program_address(record_seeds(account@), DELEGATION_PROGRAM_ID@) is Some,
    ensures
        program_address(record_seeds(account@), DELEGATION_PROGRAM_ID@) == Some(address@),
{
    dlp_api::pda::delegation_record_pda_from_delegated_account(&(*account).into()).to_bytes()
}

/// Calls `dlp_api::pda::delegation_metadata_pda_from_delegated_account`.
/// Claims that it derives the address from the tag `delegation-metadata` and
/// the account, under the delegation program.
#[verifier::external_body]
pub(crate) fn delegation_metadata_pda(account: &Address) -> (address: Address)
    requires
        program_address(metadata_seeds(account@), DELEGATION_PROGRAM_ID@) is Some,
    ensures
        program_address(metadata_seeds(account@), DELEGATION_PROGRAM_ID@) == Some(address@),
{
    dlp_api::pda::delegation_metadata_pda_from_delegated_account(&(*account).into()).to_bytes()
}

/// Calls
/// `dlp_api::pda::delegate_buffer_pda_from_delegated_account_and_owner_program`.
/// Claims that it derives the address from the tag `buffer` and the account,
/// under the program that owns the account.
#[verifier::external_body]
pub(crate) fn delegate_buffer_pda(account: &Address, owner: &Address) -> (address: Address)
    requires
        program_address(buffer_seeds(account@), owner@) is Some,
    ensures
        program_address(buffer_seeds(account@), owner@) == Some(address@),
{
    dlp_api::pda::delegate_buffer_pda_from_delegated_account_and_owner_program(
        &(*account).into(),
        &(*owner).into(),
    ).to_bytes()
}

/// A token transfer signed by the source's owner.
pub open spec fn transfer_ix(
    source: Seq<u8>,
    destination: Seq<u8>,
    authority: Seq<u8>,
    amount: u64,
) -> InstructionView {
    InstructionView {
        program_id: SPL_TOKEN_ID@,
        accounts: seq![
            writable(source, false),
            writable(destination, false),
            readonly(authority, true),
        ],
        data: seq![3u8] + le_bytes(amount as nat, 8),
    }
}

/// Calls `spl_token::instruction::transfer` for the SPL token program with no
/// further signers. Claims that it succeeds and lays the instruction out as
/// [`transfer_ix`] says.
#[verifier::external_body]
pub(crate) fn spl_transfer(
    source: &Address,
    destination: &Address,
    authority: &Address,
    amount: u64,
) -> (result: Result<Instruction, solana_sdk::program_error::ProgramError>)
    ensures
        result is Ok,
        result->Ok_0@ == transfer_ix(source@, destination@, authority@, amount),
{
    let id = spl_token::id();
    let (from, to, owner) = ((*source).into(), (*destination).into(), (*authority).into());
    let ix = spl_token::instruction::transfer(&id, &from, &to, &owner, &[], amount)?;
    let accounts = ix.accounts.iter().map(
        |m| AccountMeta {
            address: m.pubkey.to_bytes(),
            is_signer: m.is_signer,
            is_writable: m.is_writable,
        },
    ).collect();
    Ok(Instruction { program_id: ix.program_id.to_bytes(), accounts, data: ix.data })
}

/// Minting tokens into an account, signed by the mint's authority.
pub open spec fn mint_to_ix(
    mint: Seq<u8>,
    account: Seq<u8>,
    authority: Seq<u8>,
    amount: u64,
) -> InstructionView {
    InstructionView {
        program_id: SPL_TOKEN_ID@,
        accounts: seq![
            writable(mint, false),
            writable(account, false),
            readonly(authority, true),
        ],
        data: seq![7u8] + le_bytes(amount as nat, 8),
    }
}

/// Calls `spl_token::instruction::mint_to` for the SPL token program with no
/// further signers. Claims that it succeeds and lays the instruction out as
/// [`mint_to_ix`] says.
#[verifier::external_body]
pub(crate) fn spl_mint_to(
    mint: &Address,
    account: &Address,
    authority: &Address,
    amount: u64,
) -> (result: Result<Instruction, solana_sdk::program_error::ProgramError>)
    ensures
        result is Ok,
        result->Ok_0@ == mint_to_ix(mint@, account@, authority@, amount),
{
    let id = spl_token::id();
    let (mint, to, owner) = ((*mint).into(), (*account).into(), (*authority).into());
    let ix = spl_token::instruction::mint_to(&id, &mint, &to, &owner, &[], amount)?;
    let accounts = ix.accounts.iter().map(
        |m| AccountMeta {
            address: m.pubkey.to_bytes(),
            is_signer: m.is_signer,
            is_writable: m.is_writable,
        },
    ).collect();
    Ok(Instruction { program_id: ix.program_id.to_bytes(), accounts, data: ix.data })
}

/// Setting up a mint that has no freeze authority.
pub open spec fn initialize_mint_ix(
    mint: Seq<u8>,
    authority: Seq<u8>,
    decimals: u8,
) -> InstructionView {
    InstructionView {
        program_id: SPL_TOKEN_ID@,
        accounts: seq![writable(mint, false), readonly(RENT_SYSVAR_ID@, false)],
        data: seq![0u8, decimals] + authority + seq![0u8],
    }
}

/// Calls `spl_token::instruction::initialize_mint` for the SPL token program
/// without a freeze authority. Claims that it succeeds and lays the
/// instruction out as [`initialize_mint_ix`] says.
#[verifier::external_body]
pub(crate) fn spl_initialize_mint(mint: &Address, authority: &Address, decimals: u8) -> (result:
    Result<Instruction, solana_sdk::program_error::ProgramError>)
    ensures
        result is Ok,
        result->Ok_0@ == initialize_mint_ix(mint@, authority@, decimals),
{
    let id = spl_token::id();
    let (mint, owner) = ((*mint).into(), (*authority).into());
    let ix = spl_token::instruction::initialize_mint(&id, &mint, &owner, None, decimals)?;
    let accounts = ix.accounts.iter().map(
        |m| AccountMeta {
            address: m.pubkey.to_bytes(),
            is_signer: m.is_signer,
            is_writable: m.is_writable,
        },
    ).collect();
    Ok(Instruction { program_id: ix.program_id.to_bytes(), accounts, data: ix.data })
}

/// Creating an account of `space` bytes that `owner` will own, signed by the
/// funding account and by the new one.
pub open spec fn create_account_ix(
    from: Seq<u8>,
    to: Seq<u8>,
    lamports: u64,
    space: u64,
    owner: Seq<u8>,
) -> InstructionView {
    InstructionView {
        program_id: SYSTEM_PROGRAM_ID@,
        accounts: seq![writable(from, true), writable(to, true)],
        data: le_bytes(0, 4) + le_bytes(lamports as nat, 8) + le_bytes(space as nat, 8) + owner,
    }
}

/// Calls `solana_system_interface::instruction::create_account`. Claims that
/// it lays the instruction out as [`create_account_ix`] says.
#[verifier::external_body]
pub(crate) fn system_create_account(
    from: &Address,
    to: &Address,
    lamports: u64,
    space: u64,
    owner: &Address,
) -> (ix: Instruction)
    ensures
        ix@ == create_account_ix(from@, to@, lamports, space, owner@),
{
    let (from, to, owner) = ((*from).into(), (*to).into(), (*owner).into());
    let ix = solana_system_interface::instruction::create_account(
        &from, &to, lamports, space, &owner,
    );
    let accounts = ix.accounts.iter().map(
        |m| AccountMeta {
            address: m.pubkey.to_bytes(),
            is_signer: m.is_signer,
            is_writable: m.is_writable,
        },
    ).collect();
    Instruction { program_id: ix.program_id.to_bytes(), accounts, data: ix.data }
}

/// The seeds of a wallet's associated token account.
pub open spec fn associated_token_seeds(wallet: Seq<u8>, mint: Seq<u8>) -> Seq<Seq<u8>> {
    seq![wallet, SPL_TOKEN_ID@, mint]
}

/// Creating a wallet's associated token account, at `account`, unless it is
/// there already.
pub open spec fn create_associated_token_ix(
    payer: Seq<u8>,
    wallet: Seq<u8>,
    mint: Seq<u8>,
    account: Seq<u8>,
) -> InstructionView {
    InstructionView {
        program_id: SPL_ASSOCIATED_TOKEN_ID@,
        accounts: seq![
            writable(payer, true),
            writable(account, false),
            readonly(wallet, false),
            readonly(mint, false),
            readonly(SYSTEM_PROGRAM_ID@, false),
            readonly(SPL_TOKEN_ID@, false),
        ],
        data: seq![1u8],
    }
}

/// Calls `spl_associated_token_account_interface::instruction::`
/// `create_associated_token_account_idempotent` for the SPL token program.
/// Claims that it derives the account's address from the wallet, the token
/// program and the mint, and lays the instruction out as
/// [`create_associated_token_ix`] says.
#[verifier::external_body]
pub(crate) fn create_associated_token_account(
    payer: &Address,
    wallet: &Address,
    mint: &Address,
) -> (ix: Instruction)
    requires
        program_address(associated_token_seeds(wallet@, mint@), SPL_ASSOCIATED_TOKEN_ID@) is Some,
    ensures
        ix@ == create_associated_token_ix(
            payer@,
            wallet@,
            mint@,
            program_address(
                associated_token_seeds(wallet@, mint@),
                SPL_ASSOCIATED_TOKEN_ID@,
            )->Some_0,
        ),
{
    let (payer, wallet, mint) = ((*payer).into(), (*wallet).into(), (*mint).into());
    let ix =
        spl_associated_token_account_interface::instruction::create_associated_token_account_idempotent(
        &payer, &wallet, &mint, &spl_token::id(),
    );
    let accounts = ix.accounts.iter().map(
        |m| AccountMeta {
            address: m.pubkey.to_bytes(),
            is_signer: m.is_signer,
            is_writable: m.is_writable,
        },
    ).collect();
    Instruction { program_id: ix.program_id.to_bytes(), accounts, data: ix.data }
}

/// Whether four bytes at `at` tag an absent or a present optional field.
pub open spec fn is_option_tag(data: Seq<u8>, at: int) -> bool {
    &&& data[at] == 0 || data[at] == 1
    &&& data[at + 1] == 0
    &&& data[at + 2] == 0
    &&& data[at + 3] == 0
}

/// Whether the bytes are those of a token account that has been set up: the
/// delegate, the native reserve and the close authority are optional fields,
/// and the state byte is not that of an account never initialized.
pub open spec fn is_token_account(data: Seq<u8>) -> bool {
    &&& data.len() == TOKEN_ACCOUNT_LEN
    &&& is_option_tag(data, 72)
    &&& data[108] == 1 || data[108] == 2
    &&& is_option_tag(data, 109)
    &&& is_option_tag(data, 129)
}

/// The amount that a token account's bytes record.
pub open spec fn token_amount(data: Seq<u8>) -> nat {
    le_value(data.subrange(64, 72))
}

/// Calls `spl_token::state::Account::unpack` and keeps the amount. Claims on
/// which bytes it succeeds and where it reads the amount.
#[verifier::external_body]
pub(crate) fn unpack_token_amount(data: &[u8]) -> (result: Result<
    u64,
    solana_sdk::program_error::ProgramError,
>)
    ensures
        result is Ok <==> is_token_account(data@),
        result matches Ok(amount) ==> amount == token_amount(data@),
{
    let account = <spl_token::state::Account as solana_sdk::program_pack::Pack>::unpack(data)?;
    Ok(account.amount)
}

} // verus!
