use er_bench::load::{
    batch_body, claim_batch, failed_batch, poll_step, read_balances, reply_outcome, reply_results,
    sender_goes_on, tally_replies, verify, BalanceError, BrokenPair, CountMismatch, LoadConfig,
    PollStep, Probe, ProbeAction, ProbeEvent, BALANCE_CHUNK,
};
use er_bench::signing::Signer;
use er_bench::stats::BatchOutcome;
use er_bench::transfers::{Shard, Transfer};
use solana_sdk::program_option::COption;
use solana_sdk::program_pack::Pack;
use spl_token::state::{Account, AccountState};

fn shard_of(users: u8) -> Shard {
    Shard {
        users: (0..users).map(|i| Signer::from_secret([i + 1; 32])).collect(),
        atas: (0..users).map(|i| [i + 100; 32]).collect(),
    }
}

fn token_account(amount: u64) -> Vec<u8> {
    let account = Account {
        mint: [1; 32].into(),
        owner: [2; 32].into(),
        amount,
        delegate: COption::None,
        state: AccountState::Initialized,
        is_native: COption::None,
        delegated_amount: 0,
        close_authority: COption::None,
    };
    let mut data = vec![0; Account::LEN];
    Account::pack(account, &mut data).unwrap();
    data
}

fn texts(items: &[&str]) -> Vec<String> {
    items.iter().map(|s| s.to_string()).collect()
}

#[test]
fn load_settings_scale_with_connections() {
    let config =
        LoadConfig { duration_secs: 30, connections: 8, batch_size: 400, signer_threads: 3 };
    assert_eq!(config.channel_capacity(), 12_800);
    assert_eq!(config.idle_connections(), 16);
}

#[test]
fn batches_are_json_rpc() {
    assert_eq!(batch_body(&texts(&["x"]), 0, 0), "[]");
    assert_eq!(
        batch_body(&texts(&["skip", "AA==", "BB=="]), 1, 3),
        "[{\"jsonrpc\":\"2.0\",\"id\":0,\"method\":\"sendTransaction\",\"params\":[\"AA==\",{\"encoding\":\"base64\",\"skipPreflight\":true}]},{\"jsonrpc\":\"2.0\",\"id\":1,\"method\":\"sendTransaction\",\"params\":[\"BB==\",{\"encoding\":\"base64\",\"skipPreflight\":true}]}]"
    );
}

#[test]
fn batches_parse_as_json() {
    let txs: Vec<String> = (0..12).map(|i| format!("tx{i}")).collect();
    let body: serde_json::Value = serde_json::from_str(&batch_body(&txs, 0, 12)).unwrap();
    let entries = body.as_array().unwrap();
    assert_eq!(entries.len(), 12);
    for (i, entry) in entries.iter().enumerate() {
        assert_eq!(entry["id"], i);
        assert_eq!(entry["params"][0], txs[i].as_str());
        assert_eq!(entry["params"][1]["skipPreflight"], true);
    }
}

#[test]
fn claims_take_every_transaction_once() {
    assert_eq!(claim_batch(0, 4, 10), Some((0, 4)));
    assert_eq!(claim_batch(4, 4, 10), Some((4, 8)));
    assert_eq!(claim_batch(8, 4, 10), Some((8, 10)));
    assert_eq!(claim_batch(12, 4, 10), None);
    assert_eq!(claim_batch(0, 4, 0), None);
    assert_eq!(claim_batch(6, 4, 10), Some((6, 10)));
}

#[test]
fn senders_stop_when_told_or_drained() {
    assert!(sender_goes_on(1, false));
    assert!(!sender_goes_on(0, false));
    assert!(!sender_goes_on(5, true));
}

#[test]
fn replies_are_counted_by_result() {
    let body = br#"[{"id":0,"result":"sig"},{"id":1,"error":{}},{"id":2,"result":null},7,"result"]"#;
    assert_eq!(reply_results(body), Some(vec![true, false, true, false, false]));
    assert_eq!(reply_outcome(body, 5), BatchOutcome { accepted: 2, errors: 3 });
}

#[test]
fn a_reply_with_one_entry_each_covers_the_batch() {
    let outcome = reply_outcome(br#"[{"result":1},{"error":2}]"#, 2);
    assert_eq!(outcome.accepted + outcome.errors, 2);
}

#[test]
fn anything_but_an_array_fails_the_batch() {
    for body in [&b"{\"result\":1}"[..], b"not json", b"", b"null", b"[1,"] {
        assert_eq!(reply_results(body), None);
        assert_eq!(reply_outcome(body, 9), BatchOutcome { accepted: 0, errors: 9 });
    }
    assert_eq!(failed_batch(9), BatchOutcome { accepted: 0, errors: 9 });
    assert_eq!(reply_outcome(b"[]", 9), BatchOutcome { accepted: 0, errors: 0 });
}

#[test]
fn tallies_add_up() {
    let outcome = tally_replies(&vec![true, true, false]);
    assert_eq!(outcome, BatchOutcome { accepted: 2, errors: 1 });
    assert_eq!(tally_replies(&Vec::new()), BatchOutcome { accepted: 0, errors: 0 });
}

#[test]
fn polls_retry_until_the_deadline() {
    assert_eq!(poll_step(true, true), PollStep::Ready);
    assert_eq!(poll_step(true, false), PollStep::Ready);
    assert_eq!(poll_step(false, true), PollStep::Retry);
    assert_eq!(poll_step(false, false), PollStep::GiveUp);
}

#[test]
fn the_probe_uses_its_own_pair() {
    let mut probe = Probe::new(&shard_of(8)).unwrap();
    assert_eq!(probe.next_transfer(), Transfer { from: 7, to: 6, amount: 2 });
    assert_eq!(probe.next_transfer(), Transfer { from: 6, to: 7, amount: 3 });
    assert_eq!(probe.rounds, 2);
}

#[test]
fn a_single_pair_is_not_probed() {
    assert!(Probe::new(&shard_of(2)).is_none());
    assert!(Probe::new(&shard_of(0)).is_none());
    assert_eq!(Probe::new(&shard_of(4)).unwrap().pair, 1);
}

#[test]
fn only_executed_probes_yield_latency() {
    assert_eq!(
        Probe::after(ProbeEvent::Executed),
        ProbeAction { record_latency: true, pause_ms: 200 }
    );
    assert_eq!(
        Probe::after(ProbeEvent::Refused),
        ProbeAction { record_latency: false, pause_ms: 200 }
    );
    assert_eq!(
        Probe::after(ProbeEvent::NotSigned),
        ProbeAction { record_latency: false, pause_ms: 0 }
    );
    assert_eq!(
        Probe::after(ProbeEvent::NoBlockhash),
        ProbeAction { record_latency: false, pause_ms: 500 }
    );
}

#[test]
fn balances_come_from_token_accounts() {
    assert_eq!(BALANCE_CHUNK, 100);
    let accounts = vec![Some(token_account(5)), Some(token_account(u64::MAX))];
    assert_eq!(read_balances(&accounts), Ok(vec![5, u64::MAX]));
    assert_eq!(read_balances(&Vec::new()), Ok(Vec::new()));
}

#[test]
fn missing_accounts_are_reported() {
    let accounts = vec![Some(token_account(5)), None, Some(vec![1])];
    assert_eq!(read_balances(&accounts), Err(BalanceError::Missing(1)));
}

#[test]
fn malformed_accounts_are_reported() {
    assert_eq!(read_balances(&vec![Some(vec![1])]), Err(BalanceError::Malformed(0)));
    let never_set_up = vec![0; 165];
    assert_eq!(read_balances(&vec![Some(never_set_up)]), Err(BalanceError::Malformed(0)));
    for (at, value) in [(72, 2u8), (73, 1), (108, 3), (109, 2), (129, 2), (132, 1)] {
        let mut data = token_account(5);
        data[at] = value;
        assert!(Account::unpack(&data).is_err());
        assert_eq!(read_balances(&vec![Some(data)]), Err(BalanceError::Malformed(0)));
    }
    let mut frozen = token_account(6);
    frozen[108] = 2;
    assert_eq!(read_balances(&vec![Some(frozen)]), Ok(vec![6]));
    assert_eq!(
        read_balances(&vec![Some(vec![0; 166]), None]),
        Err(BalanceError::Malformed(0))
    );
}

#[test]
fn conserved_pairs_verify() {
    let found = verify(&shard_of(6), &vec![10, 10, 5, 5, 3, 4], &vec![8, 12, 5, 5, 4, 3])
        .ok()
        .unwrap();
    assert_eq!((found.ok, found.failed, found.changed), (3, 0, 2));
    assert!(found.broken.is_empty());
}

#[test]
fn broken_pairs_are_listed() {
    let found = verify(&shard_of(4), &vec![10, 10, 5, 5], &vec![10, 11, u64::MAX, u64::MAX])
        .ok()
        .unwrap();
    assert_eq!((found.ok, found.failed, found.changed), (0, 2, 1));
    assert_eq!(
        found.broken,
        vec![
            BrokenPair { pair: 0, before: 20, now: 21 },
            BrokenPair { pair: 1, before: 10, now: 36_893_488_147_419_103_230 },
        ]
    );
}

#[test]
fn only_the_first_broken_pairs_are_listed() {
    let found = verify(&shard_of(14), &vec![0; 14], &vec![1; 14]).ok().unwrap();
    assert_eq!((found.ok, found.failed, found.changed), (0, 7, 7));
    assert_eq!(found.broken.iter().map(|b| b.pair).collect::<Vec<_>>(), vec![0, 1, 2, 3, 4]);
}

#[test]
fn readings_of_different_size_are_refused() {
    assert_eq!(
        verify(&shard_of(4), &vec![1, 2], &vec![1, 2, 3, 4]).err(),
        Some(CountMismatch { baseline: 2, after: 4 })
    );
}

#[test]
fn transfers_within_pairs_conserve_sums() {
    let shard = shard_of(6);
    let baseline = vec![100u64, 100, 0, 50, 7, 7];
    let mut balances = baseline.clone();
    for index in 0..40 {
        let t = Transfer::presigned(index, shard.pairs());
        if balances[t.from] >= t.amount {
            balances[t.from] -= t.amount;
            balances[t.to] += t.amount;
        }
    }
    let found = verify(&shard, &baseline, &balances).ok().unwrap();
    assert_eq!((found.ok, found.failed), (3, 0));
}
