use er_bench::instruction::{AccountMeta, Instruction};
use er_bench::plan::{chunked_plan, SignerRef};
use er_bench::programs::{SPL_ASSOCIATED_TOKEN_ID, SPL_TOKEN_ID};
use er_bench::setup::{
    derive_global_vault, generate_signers, Setup, TokenPrograms, DELEGATE_EPHEMERAL_ATA,
    DEPOSIT_SPL_TOKENS, ESCROWS_PER_TX, USERS_PER_TX,
};
use er_bench::signing::{is_signable, sign_tx, Signer};
use solana_sdk::transaction::Transaction;

fn address(tag: u8) -> [u8; 32] {
    [tag; 32]
}

fn setup_of(users: u8) -> Setup {
    Setup::new(
        Signer::from_secret([7; 32]),
        Signer::from_secret([8; 32]),
        (0..users).map(|i| Signer::from_secret([i + 100; 32])).collect(),
        (0..users).map(|i| address(i + 1)).collect(),
        (0..users).map(|i| address(i + 30)).collect(),
        address(99),
        TokenPrograms {
            eata: address(50),
            token: SPL_TOKEN_ID,
            associated_token: SPL_ASSOCIATED_TOKEN_ID,
        },
        address(61),
        address(62),
    )
    .unwrap()
}

fn tagged(tag: u8) -> Instruction {
    Instruction { program_id: address(tag), accounts: Vec::new(), data: vec![tag] }
}

#[test]
fn generated_signers_differ() {
    let signers = generate_signers(5);
    assert_eq!(signers.len(), 5);
    for i in 0..5 {
        for j in 0..i {
            assert_ne!(signers[i].address(), signers[j].address());
        }
    }
    assert!(generate_signers(0).is_empty());
}

#[test]
fn shards_take_the_users_in_turn() {
    let world = setup_of(6).world;
    assert_eq!(world.shard_range(0, 2), 0..2);
    assert_eq!(world.shard_range(2, 2), 4..6);
    let shard = world.shard(1, 2);
    assert_eq!(shard.atas, vec![address(3), address(4)]);
    assert_eq!(shard.users[0].address(), world.users[2].address());
    assert_eq!(shard.users[1].address(), world.users[3].address());
}

#[test]
fn every_user_is_in_one_shard() {
    let world = setup_of(6).world;
    for user in 0..6usize {
        let owners: Vec<usize> =
            (0..3).filter(|s| world.shard_range(*s, 2).contains(&user)).collect();
        assert_eq!(owners, vec![user / 2]);
    }
}

#[test]
fn plans_group_users_and_keep_their_order() {
    let per_user: Vec<Vec<Instruction>> =
        (0..5u8).map(|i| vec![tagged(2 * i), tagged(2 * i + 1)]).collect();
    let plan = chunked_plan(2, per_user, true);
    let tags: Vec<Vec<u8>> =
        plan.iter().map(|tx| tx.ixs.iter().map(|ix| ix.data[0]).collect()).collect();
    assert_eq!(tags, vec![vec![0, 1, 2, 3], vec![4, 5, 6, 7], vec![8, 9]]);
    assert_eq!(
        plan[1].signer_indexes,
        vec![SignerRef::Payer, SignerRef::User(2), SignerRef::User(3)]
    );
    assert_eq!(plan[2].signer_indexes, vec![SignerRef::Payer, SignerRef::User(4)]);
}

#[test]
fn payer_signed_plans_name_no_user() {
    let plan = chunked_plan(3, (0..4u8).map(|i| vec![tagged(i)]).collect(), false);
    assert_eq!(plan.len(), 2);
    assert_eq!(plan[0].signer_indexes, vec![SignerRef::Payer]);
    assert_eq!(plan[1].ixs.len(), 1);
    assert!(chunked_plan(3, Vec::new(), false).is_empty());
}

#[test]
fn deposits_are_signed_by_their_users() {
    let setup = setup_of(4);
    let plan = setup.deposit_plan();
    assert_eq!(USERS_PER_TX, 3);
    assert_eq!(plan.len(), 2);
    assert_eq!(
        plan[0].signer_indexes,
        vec![SignerRef::Payer, SignerRef::User(0), SignerRef::User(1), SignerRef::User(2)]
    );
    assert_eq!(plan[1].signer_indexes, vec![SignerRef::Payer, SignerRef::User(3)]);
    assert_eq!(plan[1].ixs[0].data[0], DEPOSIT_SPL_TOKENS);
    assert_eq!(plan[1].ixs[0].accounts[3].address, address(4));
    assert_eq!(plan[1].ixs[0].accounts[5].address, setup.world.users[3].address());
}

#[test]
fn delegations_name_the_validator() {
    let setup = setup_of(4);
    let plan = setup.delegate_plan().unwrap();
    assert_eq!(plan.len(), 2);
    assert_eq!(plan[0].ixs.len(), 3);
    assert_eq!(plan[0].signer_indexes, vec![SignerRef::Payer]);
    assert_eq!(plan[1].ixs[0].data[0], DELEGATE_EPHEMERAL_ATA);
    assert_eq!(plan[1].ixs[0].data[1..], address(99));
    assert_eq!(plan[1].ixs[0].accounts[1].address, address(33));
}

#[test]
fn every_plan_can_be_signed() {
    let setup = setup_of(5);
    let topups: Vec<Vec<Instruction>> = setup
        .world
        .users
        .iter()
        .map(|user| {
            vec![Instruction {
                program_id: address(70),
                accounts: vec![
                    AccountMeta::new(setup.payer.address(), true),
                    AccountMeta::new(user.address(), true),
                ],
                data: vec![9],
            }]
        })
        .collect();
    let plans = vec![
        setup.mint_plan(1).unwrap(),
        setup.account_plan().unwrap(),
        setup.deposit_plan(),
        setup.delegate_plan().unwrap(),
        setup.escrow_plan(topups),
    ];
    assert_eq!(plans[4].len(), 5usize.div_ceil(ESCROWS_PER_TX));
    for plan in &plans {
        for tx in plan {
            let signers = setup.resolve_signers(&tx.signer_indexes);
            assert!(is_signable(&tx.ixs, &signers));
            let wire = sign_tx(&tx.ixs, &signers, &[1; 32]);
            let parsed: Transaction = bincode::deserialize(&wire).unwrap();
            assert!(parsed.verify().is_ok());
            assert_eq!(parsed.message.account_keys[0].to_bytes(), setup.payer.address());
            assert_eq!(parsed.message.instructions.len(), tx.ixs.len());
        }
    }
}

#[test]
fn signers_are_resolved_by_role() {
    let setup = setup_of(2);
    let signers =
        setup.resolve_signers(&vec![SignerRef::User(1), SignerRef::Payer, SignerRef::Mint]);
    let found: Vec<[u8; 32]> = signers.iter().map(|s| s.address()).collect();
    assert_eq!(
        found,
        vec![setup.world.users[1].address(), setup.payer.address(), setup.mint_kp.address()]
    );
    assert_eq!(setup.world.mint, setup.mint_kp.address());
}

#[test]
fn the_vault_is_derived_from_the_mint() {
    let mut setup = setup_of(2);
    let vault = derive_global_vault(&setup.mint_kp.address(), &address(50)).unwrap();
    assert_eq!(setup.vault.vault, vault);
    assert_eq!((setup.vault.eata, setup.vault.ata), (address(61), address(62)));
    assert!(setup.has_own_vault());
    assert_eq!(setup.mint_plan(1).unwrap()[0].ixs[2].accounts[0].address, vault);
    for tx in setup.deposit_plan() {
        for ix in tx.ixs {
            assert_eq!(ix.accounts[1].address, vault);
        }
    }
    setup.vault.vault[0] ^= 1;
    assert!(!setup.has_own_vault());
}
