use er_bench::instruction::{same_address, Instruction};
use er_bench::programs::{
    DELEGATION_PROGRAM_ID, MINT_LEN, RENT_SYSVAR_ID, SPL_ASSOCIATED_TOKEN_ID, SPL_TOKEN_ID,
    SYSTEM_PROGRAM_ID, TOKEN_ACCOUNT_LEN,
};
use er_bench::setup::{
    delegate_eata_ix, deposit_spl_tokens_ix, derive_global_vault, initialize_eata_ix,
    initialize_global_vault_ix, Setup, TokenPrograms, VaultAccounts, ESCROW_LAMPORTS,
    LAMPORTS_PER_SOL, USDC_DECIMALS, USER_DEPOSIT,
};
use er_bench::signing::Signer;
use solana_pubkey::Pubkey;
use solana_sdk::program_pack::Pack;

fn address(tag: u8) -> [u8; 32] {
    [tag; 32]
}

fn programs() -> TokenPrograms {
    TokenPrograms {
        eata: address(50),
        token: SPL_TOKEN_ID,
        associated_token: SPL_ASSOCIATED_TOKEN_ID,
    }
}

fn vault() -> VaultAccounts {
    VaultAccounts { vault: address(60), eata: address(61), ata: address(62) }
}

fn roles(ix: &Instruction) -> Vec<([u8; 32], bool, bool)> {
    ix.accounts.iter().map(|m| (m.address, m.is_signer, m.is_writable)).collect()
}

fn sdk_roles(ix: &solana_sdk::instruction::Instruction) -> Vec<([u8; 32], bool, bool)> {
    ix.accounts.iter().map(|m| (m.pubkey.to_bytes(), m.is_signer, m.is_writable)).collect()
}

fn same_as_sdk(ours: &Instruction, theirs: &solana_sdk::instruction::Instruction) {
    assert_eq!(ours.program_id, theirs.program_id.to_bytes());
    assert_eq!(roles(ours), sdk_roles(theirs));
    assert_eq!(ours.data, theirs.data);
}

fn setup_of(users: u8) -> Setup {
    let signers: Vec<Signer> = (0..users).map(|i| Signer::from_secret([i + 100; 32])).collect();
    let atas = (0..users).map(|i| address(i + 1)).collect();
    let eatas = (0..users).map(|i| address(i + 30)).collect();
    Setup::new(
        Signer::from_secret([7; 32]),
        Signer::from_secret([8; 32]),
        signers,
        atas,
        eatas,
        address(99),
        programs(),
        address(61),
        address(62),
    )
    .unwrap()
}

#[test]
fn program_ids_are_those_of_the_crates() {
    assert_eq!(SPL_TOKEN_ID, spl_token::id().to_bytes());
    assert_eq!(
        SPL_ASSOCIATED_TOKEN_ID,
        spl_associated_token_account_interface::program::id().to_bytes()
    );
    assert_eq!(SYSTEM_PROGRAM_ID, solana_system_interface::program::id().to_bytes());
    assert_eq!(RENT_SYSVAR_ID, solana_sdk::sysvar::rent::id().to_bytes());
    assert_eq!(DELEGATION_PROGRAM_ID, dlp_api::id().to_bytes());
}

#[test]
fn sizes_and_amounts_are_those_of_the_crates() {
    assert_eq!(MINT_LEN, spl_token::state::Mint::LEN as u64);
    assert_eq!(TOKEN_ACCOUNT_LEN, spl_token::state::Account::LEN);
    assert_eq!(LAMPORTS_PER_SOL, solana_sdk::native_token::LAMPORTS_PER_SOL);
    assert_eq!(ESCROW_LAMPORTS, LAMPORTS_PER_SOL / 100);
    assert_eq!(USER_DEPOSIT, 1_000 * 10u64.pow(USDC_DECIMALS as u32));
}

#[test]
fn addresses_are_compared_byte_by_byte() {
    let mut other = address(3);
    assert!(same_address(&address(3), &other));
    other[31] = 4;
    assert!(!same_address(&address(3), &other));
}

#[test]
fn the_global_vault_is_derived_from_the_mint() {
    let (mint, program) = (address(5), address(50));
    let expected = Pubkey::find_program_address(&[&mint], &Pubkey::new_from_array(program)).0;
    assert_eq!(derive_global_vault(&mint, &program), Some(expected.to_bytes()));
    assert_ne!(derive_global_vault(&mint, &program), derive_global_vault(&address(6), &program));
}

#[test]
fn the_vault_instruction_lists_its_accounts() {
    let ix = initialize_global_vault_ix(address(1), address(2), &vault(), &programs());
    assert_eq!(ix.program_id, address(50));
    assert_eq!(
        roles(&ix),
        vec![
            (address(60), false, true),
            (address(1), true, true),
            (address(2), false, false),
            (address(61), false, true),
            (address(62), false, true),
            (SPL_TOKEN_ID, false, false),
            (SPL_ASSOCIATED_TOKEN_ID, false, false),
            (SYSTEM_PROGRAM_ID, false, false),
        ]
    );
    assert_eq!(ix.data, vec![1]);
}

#[test]
fn the_eata_instruction_lists_its_accounts() {
    let ix = initialize_eata_ix(address(1), address(2), address(3), address(4), &programs());
    assert_eq!(ix.program_id, address(50));
    assert_eq!(
        roles(&ix),
        vec![
            (address(4), false, true),
            (address(1), true, true),
            (address(2), false, false),
            (address(3), false, false),
            (SYSTEM_PROGRAM_ID, false, false),
        ]
    );
    assert_eq!(ix.data, vec![0]);
}

#[test]
fn the_deposit_instruction_is_signed_by_the_user() {
    let ix = deposit_spl_tokens_ix(
        address(1),
        address(2),
        address(3),
        address(4),
        &vault(),
        USER_DEPOSIT,
        &programs(),
    );
    assert_eq!(
        roles(&ix),
        vec![
            (address(3), false, true),
            (address(60), false, false),
            (address(2), false, false),
            (address(4), false, true),
            (address(62), false, true),
            (address(1), true, false),
            (SPL_TOKEN_ID, false, false),
        ]
    );
    assert_eq!(ix.data, vec![2, 0x00, 0xca, 0x9a, 0x3b, 0, 0, 0, 0]);
}

#[test]
fn the_delegate_instruction_names_the_derived_accounts() {
    let (payer, eata, validator, program) = (address(1), address(2), address(3), address(50));
    let ix = delegate_eata_ix(payer, eata, validator, program).unwrap();
    let dlp = Pubkey::new_from_array(DELEGATION_PROGRAM_ID);
    let buffer =
        Pubkey::find_program_address(&[b"buffer", &eata], &Pubkey::new_from_array(program)).0;
    let record = Pubkey::find_program_address(&[b"delegation", &eata], &dlp).0;
    let metadata = Pubkey::find_program_address(&[b"delegation-metadata", &eata], &dlp).0;
    assert_eq!(ix.program_id, program);
    assert_eq!(
        roles(&ix),
        vec![
            (payer, true, true),
            (eata, false, true),
            (program, false, false),
            (buffer.to_bytes(), false, true),
            (record.to_bytes(), false, true),
            (metadata.to_bytes(), false, true),
            (DELEGATION_PROGRAM_ID, false, false),
            (SYSTEM_PROGRAM_ID, false, false),
        ]
    );
    assert_eq!(ix.data[0], 4);
    assert_eq!(ix.data[1..], validator);
}

#[test]
fn the_mint_plan_carries_the_crates_instructions() {
    let setup = setup_of(0);
    let payer = Pubkey::new_from_array(setup.payer.address());
    let mint = Pubkey::new_from_array(setup.mint_kp.address());
    let plan = setup.mint_plan(1_461_600).unwrap();
    assert_eq!(plan.len(), 1);
    assert_eq!(plan[0].ixs.len(), 3);
    same_as_sdk(
        &plan[0].ixs[0],
        &solana_system_interface::instruction::create_account(
            &payer,
            &mint,
            1_461_600,
            82,
            &spl_token::id(),
        ),
    );
    same_as_sdk(
        &plan[0].ixs[1],
        &spl_token::instruction::initialize_mint(&spl_token::id(), &mint, &payer, None, 6).unwrap(),
    );
    assert_eq!(plan[0].ixs[2].data, vec![1]);
}

#[test]
fn the_account_plan_carries_the_crates_instructions() {
    let setup = setup_of(1);
    let payer = Pubkey::new_from_array(setup.payer.address());
    let mint = Pubkey::new_from_array(setup.mint_kp.address());
    let user = Pubkey::new_from_array(setup.world.users[0].address());
    let plan = setup.account_plan().unwrap();
    assert_eq!(plan.len(), 1);
    assert_eq!(plan[0].ixs.len(), 3);
    same_as_sdk(
        &plan[0].ixs[0],
        &spl_associated_token_account_interface::instruction::create_associated_token_account_idempotent(
            &payer,
            &user,
            &mint,
            &spl_token::id(),
        ),
    );
    same_as_sdk(
        &plan[0].ixs[1],
        &spl_token::instruction::mint_to(
            &spl_token::id(),
            &mint,
            &Pubkey::new_from_array(address(1)),
            &payer,
            &[],
            1_000_000_000,
        )
        .unwrap(),
    );
    assert_eq!(plan[0].ixs[2].accounts[0].address, address(30));
}
