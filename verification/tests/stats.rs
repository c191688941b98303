use er_bench::stats::{
    total, AppState, BatchOutcome, HistoryPoint, RunInfo, Sampler, ShardStats, SweepPoint,
    HISTORY_WINDOW,
};

fn point(t: f64) -> HistoryPoint<f64> {
    HistoryPoint { t, aggregate_tps: 2.0 * t, per_shard: vec![t, t] }
}

#[test]
fn counters_start_at_zero_and_count() {
    let mut stats: ShardStats<f64> = ShardStats::default();
    assert_eq!(
        (stats.submitted(), stats.accepted(), stats.errors(), stats.executed()),
        (0, 0, 0, 0)
    );
    stats.record_submitted(400);
    stats.record_outcome(BatchOutcome { accepted: 390, errors: 10 });
    assert_eq!((stats.submitted(), stats.accepted(), stats.errors()), (400, 390, 10));
    assert_eq!(stats.accepted() + stats.errors(), stats.submitted());
    assert_eq!(stats.executed(), 0);
}

#[test]
fn counters_wrap_round() {
    let mut stats: ShardStats<f64> = ShardStats::new();
    stats.record_submitted(u64::MAX);
    stats.record_submitted(3);
    assert_eq!(stats.submitted(), 2);
}

#[test]
fn latency_samples_are_kept_in_order() {
    let mut stats: ShardStats<f64> = ShardStats::new();
    stats.record_latency(3.5);
    stats.record_latency(1.25);
    assert_eq!(stats.latency_samples(), &vec![3.5, 1.25]);
}

#[test]
fn a_new_state_is_blank() {
    let state: AppState<f64> = AppState::new();
    assert_eq!(state.info.phase, "");
    assert!(state.shards.is_empty() && state.history.is_empty() && state.sweep.is_empty());
    assert_eq!(RunInfo::default().total_delegated_accounts, 0);
}

#[test]
fn phases_are_logged() {
    let mut state: AppState<f64> = AppState::new();
    state.set_run(2, 512, 1024);
    let line = state.set_phase("load", "blasting");
    assert_eq!(line, "[phase] load blasting");
    assert_eq!((state.info.phase.as_str(), state.info.detail.as_str()), ("load", "blasting"));
    assert_eq!(state.info.validators, 2);
    assert_eq!(state.info.users_per_shard, 512);
    assert_eq!(state.info.total_delegated_accounts, 1024);
}

#[test]
fn resetting_clears_counters_and_chart() {
    let mut state: AppState<f64> = AppState::new();
    state.reset_shards(1);
    state.shards[0].record_submitted(7);
    state.push_history(point(1.0));
    state.reset_shards(3);
    assert_eq!(state.submitted_per_shard(), vec![0, 0, 0]);
    assert_eq!(state.accepted_per_shard(), vec![0, 0, 0]);
    assert!(state.history.is_empty());
}

#[test]
fn sweep_points_survive_a_reset() {
    let mut state: AppState<f64> = AppState::new();
    state.push_sweep(SweepPoint {
        validators: 4,
        tps: 8.0,
        per_node_tps: 2.0,
        accepted: 9,
        executed: None,
        verified_pairs: 1,
        failed_pairs: 0,
        changed_pairs: 1,
        latency_avg_ms: None,
        latency_p99_ms: None,
    });
    state.reset_shards(2);
    assert_eq!(state.sweep.len(), 1);
    assert_eq!(state.sweep[0].validators, 4);
}

#[test]
fn the_chart_shows_the_newest_samples() {
    let mut state: AppState<f64> = AppState::new();
    for i in 0..HISTORY_WINDOW {
        state.push_history(point(i as f64));
    }
    assert_eq!(HISTORY_WINDOW, 600);
    assert_eq!(state.history_start(), 0);
    state.push_history(point(600.0));
    assert_eq!(state.history_start(), 1);
    assert_eq!(state.history[state.history_start()].t, 1.0);
}

#[test]
fn per_shard_counts_follow_the_shards() {
    let mut state: AppState<f64> = AppState::new();
    state.reset_shards(2);
    state.shards[1].record_submitted(5);
    state.shards[1].record_outcome(BatchOutcome { accepted: 4, errors: 1 });
    assert_eq!(state.accepted_per_shard(), vec![0, 4]);
    assert_eq!(state.submitted_per_shard(), vec![0, 5]);
    assert_eq!(total(&state.accepted_per_shard()), 4);
    assert_eq!(total(&Vec::new()), 0);
}

#[test]
fn gains_add_up_to_the_last_reading() {
    let mut sampler = Sampler::new(2);
    assert_eq!(sampler.sample(&vec![5, 0]), vec![5, 0]);
    assert_eq!(sampler.sample(&vec![5, 7]), vec![0, 7]);
    assert_eq!(sampler.sample(&vec![9, 8]), vec![4, 1]);
    assert_eq!(sampler.last, vec![9, 8]);
}
