use er_bench::execution::{
    Confirmations, Funding, PlanRun, PlanStep, SetupStep, SignatureStatus, AIRDROP_LIMIT,
    MAX_ROUNDS, STATUS_CHUNK,
};
use er_bench::plan::{PlannedTx, SignerRef};

fn plan_of(count: usize) -> Vec<PlannedTx> {
    (0..count)
        .map(|_| PlannedTx { ixs: Vec::new(), signer_indexes: vec![SignerRef::Payer] })
        .collect()
}

#[test]
fn an_empty_plan_is_done() {
    let run = PlanRun::new(Vec::new());
    assert_eq!(run.next_step(), PlanStep::Done);
    assert_eq!(run.outcome("mint"), Ok("[setup:mint] 0 txs confirmed".to_string()));
}

#[test]
fn unconfirmed_transactions_stay_pending() {
    let mut run = PlanRun::new(plan_of(5));
    assert_eq!(run.pending, vec![0, 1, 2, 3, 4]);
    assert_eq!(run.next_step(), PlanStep::Send);
    run.settle(&vec![3, 0, 2], &vec![true, true, false]);
    assert_eq!(run.pending, vec![1, 2, 4]);
    assert_eq!(run.retry_line("deposit"), "[setup:deposit] attempt 1: 3/5 txs unconfirmed, retrying");
    run.settle(&vec![0, 1, 2], &vec![true, true, true]);
    assert_eq!(run.pending, Vec::<usize>::new());
    assert_eq!(run.next_step(), PlanStep::Done);
    assert_eq!(run.outcome("deposit"), Ok("[setup:deposit] 5 txs confirmed".to_string()));
}

#[test]
fn plans_are_given_up_after_the_last_round() {
    let mut run = PlanRun::new(plan_of(2));
    for _ in 0..MAX_ROUNDS {
        assert_eq!(run.next_step(), PlanStep::Send);
        run.settle(&vec![1], &vec![false]);
    }
    assert_eq!(MAX_ROUNDS, 4);
    assert_eq!(run.next_step(), PlanStep::GiveUp);
    assert_eq!(run.retry_line("escrow"), "[setup:escrow] attempt 4: 2/2 txs unconfirmed, retrying");
    assert_eq!(
        run.outcome("escrow"),
        Err("[setup:escrow] 2 of 2 txs failed after retries".to_string())
    );
}

#[test]
fn confirmed_transactions_are_not_sent_again() {
    let mut run = PlanRun::new(plan_of(3));
    run.settle(&vec![1], &vec![true]);
    run.settle(&vec![1], &vec![true]);
    assert_eq!(run.pending, vec![0]);
}

#[test]
fn statuses_are_taken_in_by_chunk() {
    assert_eq!(STATUS_CHUNK, 200);
    let mut found = Confirmations::new(4);
    assert!(found.goes_on(true));
    found.begin_poll();
    let first = vec![SignatureStatus::Succeeded, SignatureStatus::Unknown];
    assert_eq!(found.apply(0, &first), Ok(()));
    assert_eq!(found.confirmed, vec![true, false, false, false]);
    let second = vec![SignatureStatus::Succeeded, SignatureStatus::Succeeded];
    assert_eq!(found.apply(2, &second), Ok(()));
    assert!(!found.settled);
    assert!(!found.all_confirmed());
    assert!(found.goes_on(true));
    assert!(!found.goes_on(false));
    found.begin_poll();
    assert_eq!(found.apply(0, &first[..1].to_vec()), Ok(()));
    assert_eq!(found.apply(1, &vec![SignatureStatus::Succeeded]), Ok(()));
    assert_eq!(found.apply(2, &second), Ok(()));
    assert!(found.settled);
    assert!(!found.goes_on(true));
    assert!(found.all_confirmed());
}

#[test]
fn what_one_poll_reported_holds_in_the_next() {
    let mut found = Confirmations::new(2);
    found.begin_poll();
    let one = vec![SignatureStatus::Succeeded, SignatureStatus::Unknown];
    assert_eq!(found.apply(0, &one), Ok(()));
    found.begin_poll();
    let other = vec![SignatureStatus::Unknown, SignatureStatus::Succeeded];
    assert_eq!(found.apply(0, &other), Ok(()));
    assert_eq!(found.confirmed, vec![true, true]);
    assert!(found.settled);
}

#[test]
fn a_poll_of_nothing_settles() {
    let mut found = Confirmations::new(0);
    found.begin_poll();
    assert!(!found.goes_on(true));
}

#[test]
fn confirmations_are_final() {
    let mut found = Confirmations::new(2);
    found.begin_poll();
    let both = vec![SignatureStatus::Succeeded, SignatureStatus::Succeeded];
    assert_eq!(found.apply(0, &both), Ok(()));
    found.begin_poll();
    let later = vec![SignatureStatus::Unknown, SignatureStatus::Failed];
    assert_eq!(found.apply(0, &later), Ok(()));
    assert_eq!(found.confirmed, vec![true, true]);
    assert!(found.settled);
}

#[test]
fn the_first_failure_is_reported() {
    let mut found = Confirmations::new(3);
    found.begin_poll();
    let statuses =
        vec![SignatureStatus::Succeeded, SignatureStatus::Failed, SignatureStatus::Failed];
    assert_eq!(found.apply(0, &statuses), Err(1));
    assert_eq!(found.confirmed, vec![true, false, false]);
}

#[test]
fn nothing_to_confirm_is_confirmed() {
    assert!(Confirmations::new(0).all_confirmed());
    assert!(!Confirmations::new(1).all_confirmed());
}

#[test]
fn funding_covers_rent_and_escrow() {
    let funding = Funding::new(512);
    assert_eq!(funding.needed, 512 * 30_000_000 + 10_000_000_000);
    assert_eq!(funding.next_airdrop(), Some(25_360_000_000));
}

#[test]
fn airdrops_add_up_to_what_is_needed() {
    let mut funding = Funding::new(40_000);
    let mut airdrops = Vec::new();
    while let Some(lamports) = funding.next_airdrop() {
        airdrops.push(lamports);
        funding.record(lamports);
    }
    assert_eq!(AIRDROP_LIMIT, 500_000_000_000);
    assert_eq!(airdrops, vec![AIRDROP_LIMIT, AIRDROP_LIMIT, 210_000_000_000]);
    assert_eq!(funding.funded, funding.needed);
}

#[test]
fn setup_steps_follow_each_other() {
    let mut steps = vec![SetupStep::Fund];
    while let Some(step) = steps[steps.len() - 1].next() {
        steps.push(step);
    }
    let shown: Vec<(&str, Option<&str>)> =
        steps.iter().map(|s| (s.progress(), s.label())).collect();
    assert_eq!(
        shown,
        vec![
            ("funding master payer", None),
            ("creating USDC mint + global vault", Some("mint")),
            ("creating ATAs, minting USDC, initializing eATAs", Some("ata+mint+eata")),
            ("depositing USDC into eATAs", Some("deposit")),
            ("delegating eATAs to the validator", Some("delegate")),
            ("funding + delegating fee escrows", Some("escrow")),
        ]
    );
}
