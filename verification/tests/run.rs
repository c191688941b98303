use er_bench::load::Verification;
use er_bench::run::{
    counted, executed_between, presign_threads, result_line, sweep_max, sweep_point, PairTotals,
    Run, RunError, Stage,
};

fn stages(run: &Run) -> Vec<Stage> {
    let mut found = vec![Stage::Build];
    while found[found.len() - 1] != Stage::Done {
        found.push(run.next(found[found.len() - 1]));
    }
    found
}

#[test]
fn odd_users_are_refused() {
    let error = Run::new(Vec::new(), 3, 0).err().unwrap();
    assert_eq!(error, RunError::OddUsers);
    assert_eq!(error.message(), "--users-per-shard must be even (users are paired)");
}

#[test]
fn an_empty_sweep_is_refused() {
    let error = Run::new(Vec::new(), 2, 0).err().unwrap();
    assert_eq!(error, RunError::EmptySweep);
    assert_eq!(error.message(), "empty sweep");
}

#[test]
fn the_largest_point_decides_the_users() {
    assert_eq!(sweep_max(&vec![1, 4, 2]), Some(4));
    assert_eq!(sweep_max(&vec![0]), Some(0));
    assert_eq!(sweep_max(&Vec::new()), None);
    assert_eq!(Run::new(vec![1, 4, 2], 512, 0).ok().unwrap().total_users(), 2048);
}

#[test]
fn a_run_goes_through_its_points() {
    let run = Run::new(vec![1, 2], 4, 0).ok().unwrap();
    assert_eq!(
        stages(&run),
        vec![
            Stage::Build,
            Stage::Chain,
            Stage::Setup,
            Stage::Start(0),
            Stage::Warmup(0),
            Stage::Load(0),
            Stage::Verify(0),
            Stage::Start(1),
            Stage::Warmup(1),
            Stage::Load(1),
            Stage::Verify(1),
            Stage::Done,
        ]
    );
    assert_eq!(run.next(Stage::Done), Stage::Done);
}

#[test]
fn a_presigned_run_signs_first() {
    let run = Run::new(vec![1], 4, 9).ok().unwrap();
    assert_eq!(
        stages(&run)[3..],
        [
            Stage::Start(0),
            Stage::Warmup(0),
            Stage::Load(0),
            Stage::Presign(0),
            Stage::SendPresigned(0),
            Stage::Verify(0),
            Stage::Done,
        ]
    );
}

#[test]
fn stages_are_announced() {
    let run = Run::new(vec![1, 4, 2], 512, 1000).ok().unwrap();
    let said: Vec<(&str, String)> =
        stages(&run).into_iter().take(10).map(|s| run.announcement(s)).collect();
    let expected = [
        ("build", "building magicblock-validator (release)"),
        ("chain", "starting local base chain (solana-test-validator)"),
        ("setup", "delegating 2048 USDC accounts (4 shards)"),
        ("start", "starting 1 ephemeral validator(s)"),
        ("warmup", "cloning 512 accounts into 1 validator(s)"),
        ("load", "blasting USDC transfers at 1 validator(s)"),
        ("presign", "pre-signing 1000 transfers per shard"),
        ("load", "blasting pre-signed transfers at 1 validator(s)"),
        ("verify", "checking balance conservation per pair"),
        ("start", "starting 4 ephemeral validator(s)"),
    ];
    for (found, wanted) in said.iter().zip(expected) {
        assert_eq!((found.0, found.1.as_str()), wanted);
    }
    assert_eq!(run.announcement(Stage::Done), ("done", "benchmark complete".to_string()));
}

#[test]
fn presigning_uses_twice_the_threads() {
    assert_eq!(presign_threads(0), 4);
    assert_eq!(presign_threads(2), 4);
    assert_eq!(presign_threads(3), 6);
}

#[test]
fn executed_is_summed_over_validators() {
    assert_eq!(
        executed_between(&vec![Some(5), Some(10)], &vec![Some(9), Some(10)]),
        Some(4)
    );
    assert_eq!(executed_between(&vec![Some(5), Some(10)], &vec![Some(9), Some(3)]), Some(4));
    assert_eq!(executed_between(&Vec::new(), &Vec::new()), Some(0));
}

#[test]
fn an_unread_counter_leaves_executed_open() {
    assert_eq!(executed_between(&vec![Some(5), None], &vec![Some(9), Some(3)]), None);
    assert_eq!(executed_between(&vec![Some(5)], &vec![None]), None);
}

#[test]
fn the_validators_count_is_preferred() {
    assert_eq!(counted(Some(7), 9), 7);
    assert_eq!(counted(Some(0), 9), 0);
    assert_eq!(counted(None, 9), 9);
}

#[test]
fn verifications_add_up() {
    let mut totals = PairTotals::new();
    totals.add_shard(&Verification { ok: 3, failed: 1, changed: 2, broken: Vec::new() });
    totals.add_shard(&Verification { ok: 4, failed: 0, changed: 4, broken: Vec::new() });
    assert_eq!(totals, PairTotals { ok: 7, failed: 1, changed: 6 });
}

#[test]
fn points_hold_their_results() {
    let totals = PairTotals { ok: 7, failed: 1, changed: 6 };
    let point = sweep_point(2, 10.0, 5.0, 300, Some(290), totals, Some((1.5, 9.0)));
    assert_eq!((point.validators, point.tps, point.per_node_tps), (2, 10.0, 5.0));
    assert_eq!((point.accepted, point.executed), (300, Some(290)));
    assert_eq!((point.verified_pairs, point.failed_pairs, point.changed_pairs), (7, 1, 6));
    assert_eq!((point.latency_avg_ms, point.latency_p99_ms), (Some(1.5), Some(9.0)));
    let silent = sweep_point(2, 10.0, 5.0, 300, None, totals, None);
    assert_eq!((silent.executed, silent.latency_avg_ms, silent.latency_p99_ms), (None, None, None));
}

#[test]
fn results_are_reported_in_one_line() {
    let totals = PairTotals { ok: 7, failed: 1, changed: 6 };
    assert_eq!(
        result_line(2, "105300", "52650", 300, 310, Some(290), totals),
        "validators=2 tps=105300 per_node=52650 accepted=300/310 executed=290 pairs_ok=7 pairs_failed=1 pairs_active=6"
    );
    assert_eq!(
        result_line(1, "1", "1", 0, 0, None, PairTotals::new()),
        "validators=1 tps=1 per_node=1 accepted=0/0 executed=n/a pairs_ok=0 pairs_failed=0 pairs_active=0"
    );
}
