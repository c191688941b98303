use base64::Engine;
use er_bench::instruction::{AccountMeta, Instruction};
use er_bench::signing::{is_signable, sign_tx, Signer};
use er_bench::transfers::{transfer_tx, wire_text};
use solana_pubkey::Pubkey;
use solana_sdk::signature::Keypair;
use solana_sdk::transaction::Transaction;

fn address(tag: u8) -> [u8; 32] {
    [tag; 32]
}

fn asks(key: [u8; 32]) -> Instruction {
    Instruction {
        program_id: address(70),
        accounts: vec![AccountMeta::new_readonly(key, true), AccountMeta::new(address(3), false)],
        data: vec![1, 2, 3],
    }
}

#[test]
fn addresses_belong_to_their_secrets() {
    let secret = [42u8; 32];
    let keypair = Keypair::new_from_array(secret);
    let expected = solana_sdk::signer::Signer::pubkey(&keypair).to_bytes();
    assert_eq!(Signer::from_secret(secret).address(), expected);
    assert_ne!(Signer::from_secret(secret).address(), secret);
}

#[test]
fn signed_transactions_verify() {
    let (payer, other) = (Signer::from_secret([1; 32]), Signer::from_secret([2; 32]));
    let ixs = vec![asks(other.address())];
    let signers = vec![payer, other];
    assert!(is_signable(&ixs, &signers));
    let wire = sign_tx(&ixs, &signers, &[9; 32]);
    let tx: Transaction = bincode::deserialize(&wire).unwrap();
    assert!(tx.verify().is_ok());
    assert_eq!(tx.signatures.len(), 2);
    assert_eq!(tx.message.recent_blockhash.to_bytes(), [9; 32]);
    assert_eq!(tx.message.account_keys[0].to_bytes(), payer.address());
    assert_eq!(tx.message.instructions[0].data, vec![1, 2, 3]);
}

#[test]
fn signers_must_match_what_is_asked_for() {
    let (payer, other) = (Signer::from_secret([1; 32]), Signer::from_secret([2; 32]));
    let ixs = vec![asks(other.address())];
    assert!(!is_signable(&ixs, &vec![payer]));
    assert!(!is_signable(&ixs, &Vec::new()));
    assert!(!is_signable(&vec![asks(payer.address())], &vec![payer, other]));
    assert!(is_signable(&vec![asks(payer.address())], &vec![payer]));
    assert!(is_signable(&Vec::new(), &vec![payer]));
}

fn crowd(count: usize, address_of: impl Fn(usize) -> [u8; 32]) -> Instruction {
    Instruction {
        program_id: address(70),
        accounts: (0..count).map(|i| AccountMeta::new_readonly(address_of(i), false)).collect(),
        data: Vec::new(),
    }
}

fn numbered(i: usize) -> [u8; 32] {
    let mut bytes = [200; 32];
    bytes[..8].copy_from_slice(&(i as u64).to_le_bytes());
    bytes
}

#[test]
fn too_many_addresses_do_not_fit() {
    let payer = Signer::from_secret([1; 32]);
    assert!(!is_signable(&vec![crowd(255, numbered)], &vec![payer]));
    let full = vec![crowd(254, numbered)];
    assert!(is_signable(&full, &vec![payer]));
    let wire = sign_tx(&full, &vec![payer], &[9; 32]);
    let tx: Transaction = bincode::deserialize(&wire).unwrap();
    assert!(tx.verify().is_ok());
    assert_eq!(tx.message.account_keys.len(), 256);
}

#[test]
fn repeated_addresses_count_once() {
    let payer = Signer::from_secret([1; 32]);
    let ixs = vec![crowd(400, |i| numbered(i % 3)), crowd(400, |i| numbered(i % 5))];
    assert!(is_signable(&ixs, &vec![payer]));
    let wire = sign_tx(&ixs, &vec![payer], &[9; 32]);
    let tx: Transaction = bincode::deserialize(&wire).unwrap();
    assert!(tx.verify().is_ok());
    assert_eq!(tx.message.account_keys.len(), 7);
    assert_eq!(tx.message.instructions[1].accounts.len(), 400);
}

#[test]
fn too_long_lists_do_not_fit() {
    let payer = Signer::from_secret([1; 32]);
    let with_data = |len: usize| {
        vec![Instruction { program_id: address(70), accounts: Vec::new(), data: vec![0; len] }]
    };
    assert!(!is_signable(&with_data(65536), &vec![payer]));
    assert!(is_signable(&with_data(65535), &vec![payer]));
    let wire = sign_tx(&with_data(65535), &vec![payer], &[9; 32]);
    assert!(wire.len() > 65535 && wire.len() <= 24556 + 65535 + 7);
    assert!(!is_signable(&vec![crowd(65536, |_| address(3))], &vec![payer]));
    assert!(is_signable(&vec![crowd(65535, |_| address(3))], &vec![payer]));
}

#[test]
fn transfers_carry_the_token_instruction() {
    let from = Signer::from_secret([5; 32]);
    let (src, dst) = (address(10), address(11));
    let wire = transfer_tx(&from, &src, &dst, 995, &[4; 32]).unwrap();
    let tx: Transaction = bincode::deserialize(&wire).unwrap();
    assert!(tx.verify().is_ok());
    assert_eq!(tx.signatures.len(), 1);
    let owner = Pubkey::new_from_array(from.address());
    let ix = spl_token::instruction::transfer(
        &spl_token::id(),
        &Pubkey::new_from_array(src),
        &Pubkey::new_from_array(dst),
        &owner,
        &[],
        995,
    )
    .unwrap();
    let mut expected = Transaction::new_with_payer(&[ix], Some(&owner));
    expected.sign(&[Keypair::new_from_array([5; 32])], [4; 32].into());
    assert_eq!(tx, expected);
    assert_eq!(tx.message.instructions[0].data, vec![3, 0xe3, 0x03, 0, 0, 0, 0, 0, 0]);
}

#[test]
fn different_transfers_have_different_signatures() {
    let from = Signer::from_secret([5; 32]);
    let a = transfer_tx(&from, &address(10), &address(11), 1, &[4; 32]).unwrap();
    let b = transfer_tx(&from, &address(10), &address(11), 2, &[4; 32]).unwrap();
    let (a, b): (Transaction, Transaction) =
        (bincode::deserialize(&a).unwrap(), bincode::deserialize(&b).unwrap());
    assert_ne!(a.signatures[0], b.signatures[0]);
}

#[test]
fn wires_are_written_as_base64() {
    assert_eq!(wire_text(&Vec::new()), "");
    assert_eq!(wire_text(&b"M".to_vec()), "TQ==");
    assert_eq!(wire_text(&b"Ma".to_vec()), "TWE=");
    assert_eq!(wire_text(&b"Man".to_vec()), "TWFu");
    assert_eq!(wire_text(&vec![251, 255, 254]), "+//+");
    assert_eq!(wire_text(&vec![0, 16, 131, 16, 81, 135]), "ABCDEFGH");
    let all: Vec<u8> = (0..=255).collect();
    let text = wire_text(&all);
    assert_eq!(text.len(), 344);
    assert_eq!(base64::engine::general_purpose::STANDARD.decode(&text).unwrap(), all);
    assert!(text.chars().all(|c| c > ' ' && c != '"' && c != '\\'));
}
