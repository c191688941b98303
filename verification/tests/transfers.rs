use base64::Engine;
use er_bench::signing::Signer;
use er_bench::transfers::{
    merge_stripes, presign_stripe, signer_slice, signer_thread_count, stripe_count, JitSigner, Shard,
    Transfer,
};
use solana_sdk::transaction::Transaction;

fn shard_of(users: u8) -> Shard {
    Shard {
        users: (0..users).map(|i| Signer::from_secret([i + 1; 32])).collect(),
        atas: (0..users).map(|i| [i + 100; 32]).collect(),
    }
}

fn decoded(text: &str) -> Transaction {
    let wire = base64::engine::general_purpose::STANDARD.decode(text).unwrap();
    bincode::deserialize(&wire).unwrap()
}

#[test]
fn the_last_pair_is_the_probes() {
    let shard = shard_of(8);
    assert_eq!(shard.pairs(), 4);
    assert_eq!(shard.load_pairs(), 3);
    assert_eq!(shard.probe_pair(), Some(3));
    for index in 0..50 {
        let load = Transfer::presigned(index, shard.load_pairs());
        assert!(load.from < 6 && load.to < 6);
    }
}

#[test]
fn a_single_pair_leaves_none_for_the_probe() {
    for users in [2, 3] {
        let shard = shard_of(users);
        assert_eq!(shard.pairs(), 1);
        assert_eq!(shard.load_pairs(), 1);
        assert_eq!(shard.probe_pair(), None);
    }
    assert_eq!(shard_of(0).probe_pair(), None);
    assert_eq!(shard_of(5).pairs(), 2);
    assert_eq!(shard_of(5).probe_pair(), Some(1));
}

#[test]
fn the_probes_pair_is_no_load_pair() {
    for users in 2..12 {
        let shard = shard_of(users);
        if let Some(pair) = shard.probe_pair() {
            assert!(pair >= shard.load_pairs());
        }
    }
}

#[test]
fn presigned_transfers_alternate_and_grow() {
    let pairs = 3;
    assert_eq!(Transfer::presigned(0, pairs), Transfer { from: 0, to: 1, amount: 1 });
    assert_eq!(Transfer::presigned(2, pairs), Transfer { from: 4, to: 5, amount: 1 });
    assert_eq!(Transfer::presigned(3, pairs), Transfer { from: 1, to: 0, amount: 1 });
    assert_eq!(Transfer::presigned(6, pairs), Transfer { from: 0, to: 1, amount: 2 });
    assert_eq!(Transfer::presigned(11, pairs), Transfer { from: 5, to: 4, amount: 2 });
}

#[test]
fn presigned_transfers_are_unique() {
    let mut seen: Vec<Transfer> = Vec::new();
    for index in 0..200 {
        let transfer = Transfer::presigned(index, 7);
        assert!(!seen.contains(&transfer));
        seen.push(transfer);
    }
}

#[test]
fn just_in_time_transfers_repeat_after_1990() {
    assert_eq!(Transfer::just_in_time(2, 1), Transfer { from: 5, to: 4, amount: 2 });
    assert_eq!(Transfer::just_in_time(2, 2), Transfer { from: 4, to: 5, amount: 3 });
    assert_eq!(Transfer::just_in_time(0, 995), Transfer { from: 1, to: 0, amount: 1 });
    assert_eq!(Transfer::just_in_time(0, 7), Transfer::just_in_time(0, 7 + 1990));
    for gap in 1..1990 {
        assert_ne!(Transfer::just_in_time(0, 7), Transfer::just_in_time(0, 7 + gap));
    }
}

#[test]
fn warmup_moves_one_unit_forward() {
    assert_eq!(Transfer::warmup(3), Transfer { from: 6, to: 7, amount: 1 });
}

#[test]
fn signer_threads_are_bounded_by_pairs() {
    assert_eq!(signer_thread_count(0, 5), 1);
    assert_eq!(signer_thread_count(3, 5), 3);
    assert_eq!(signer_thread_count(9, 5), 5);
    assert_eq!(signer_thread_count(3, 0), 0);
}

#[test]
fn signer_slices_share_the_pairs_out() {
    assert_eq!(signer_slice(7, 3, 0), vec![0, 3, 6]);
    assert_eq!(signer_slice(7, 3, 1), vec![1, 4]);
    assert_eq!(signer_slice(7, 3, 2), vec![2, 5]);
    assert_eq!(signer_slice(2, 3, 2), Vec::<usize>::new());
    let mut all: Vec<usize> = (0..3).flat_map(|t| signer_slice(7, 3, t)).collect();
    all.sort();
    assert_eq!(all, vec![0, 1, 2, 3, 4, 5, 6]);
}

#[test]
fn a_signer_walks_its_slice_in_turn() {
    let mut signer = JitSigner::new(vec![1, 4]);
    assert_eq!(signer.next_transfer(), Transfer { from: 3, to: 2, amount: 2 });
    assert_eq!(signer.next_transfer(), Transfer { from: 8, to: 9, amount: 3 });
    assert_eq!(signer.next_transfer(), Transfer { from: 3, to: 2, amount: 4 });
    assert_eq!(signer.counter, 3);
}

#[test]
fn consecutive_transfers_go_in_opposite_directions() {
    let mut signer = JitSigner::new(vec![0, 1, 2]);
    let mut last = signer.next_transfer();
    for _ in 0..20 {
        let next = signer.next_transfer();
        assert_eq!(last.from < last.to, next.from > next.to);
        last = next;
    }
}

#[test]
fn encoded_transfers_are_signed_by_their_sender() {
    let shard = shard_of(4);
    let transfer = Transfer { from: 3, to: 2, amount: 17 };
    let tx = decoded(&shard.encode_transfer(&transfer, &[6; 32]).unwrap());
    assert!(tx.verify().is_ok());
    let keys: Vec<[u8; 32]> = tx.message.account_keys.iter().map(|k| k.to_bytes()).collect();
    assert_eq!(keys[0], shard.users[3].address());
    let accounts = &tx.message.instructions[0].accounts;
    assert_eq!(keys[accounts[0] as usize], [103; 32]);
    assert_eq!(keys[accounts[1] as usize], [102; 32]);
    assert_eq!(tx.message.instructions[0].data[1], 17);
    let wire = shard.sign_transfer(&transfer, &[6; 32]).unwrap();
    assert_eq!(bincode::deserialize::<Transaction>(&wire).unwrap(), tx);
}

#[test]
fn stripes_hold_the_whole_run_once() {
    let shard = shard_of(6);
    let (count, threads) = (11, 4);
    let stripes: Vec<Vec<String>> =
        (0..threads).map(|t| presign_stripe(&shard, count, threads, t, &[2; 32])).collect();
    assert_eq!(stripes.iter().map(|s| s.len()).collect::<Vec<_>>(), vec![3, 3, 3, 2]);
    for (t, stripe) in stripes.iter().enumerate() {
        for (k, text) in stripe.iter().enumerate() {
            let transfer = Transfer::presigned(t + k * threads, shard.load_pairs());
            assert_eq!(*text, shard.encode_transfer(&transfer, &[2; 32]).unwrap());
        }
    }
    let all = merge_stripes(stripes.clone());
    assert_eq!(all, stripes.concat());
    let mut signatures = Vec::new();
    for text in &all {
        let signature = decoded(text).signatures[0];
        assert!(!signatures.contains(&signature));
        signatures.push(signature);
    }
    assert_eq!(signatures.len(), count);
}

#[test]
fn an_empty_run_has_empty_stripes() {
    assert!(presign_stripe(&shard_of(2), 0, 2, 1, &[2; 32]).is_empty());
    assert!(merge_stripes(Vec::new()).is_empty());
}

#[test]
fn any_number_of_threads_signs_the_same_run() {
    let shard = shard_of(6);
    let count = 11;
    let run = |threads: usize| {
        let stripes = stripe_count(threads);
        let parts: Vec<Vec<String>> =
            (0..stripes).map(|t| presign_stripe(&shard, count, stripes, t, &[2; 32])).collect();
        merge_stripes(parts)
    };
    let alone = run(1);
    assert_eq!(alone.len(), count);
    for (index, text) in alone.iter().enumerate() {
        let transfer = Transfer::presigned(index, shard.load_pairs());
        assert_eq!(*text, shard.encode_transfer(&transfer, &[2; 32]).unwrap());
    }
    assert_eq!(run(0), alone);
    let merged = run(3);
    let by_class: Vec<String> = [0, 3, 6, 9, 1, 4, 7, 10, 2, 5, 8]
        .iter()
        .map(|index: &usize| alone[*index].clone())
        .collect();
    assert_eq!(merged, by_class);
    for threads in [2, 5, 11, 20] {
        let mut other = run(threads);
        let mut expected = alone.clone();
        other.sort();
        expected.sort();
        assert_eq!(other, expected);
    }
}

#[test]
fn a_run_has_at_least_one_stripe() {
    assert_eq!(stripe_count(0), 1);
    assert_eq!(stripe_count(1), 1);
    assert_eq!(stripe_count(6), 6);
}
