//! The course of a benchmark: which stage follows which, what is announced,
//! and how a sweep point's result is put together.
use crate::load::Verification;
use crate::stats::{sum, total, SweepPoint};
use crate::text::{decimal, decimal_string};
use vstd::prelude::*;

verus! {

/// Why a run cannot begin.
#[derive(Clone, Copy, Debug, PartialEq, Eq, Structural)]
pub enum RunError {
    /// The users of a shard do not form pairs.
    OddUsers,
    /// There is nothing to sweep over.
    EmptySweep,
}

impl RunError {
    /// The text to report.
    pub fn message(self) -> (text: &'static str)
        ensures
            text@ == match self {
                RunError::OddUsers => "--users-per-shard must be even (users are paired)"@,
                RunError::EmptySweep => "empty sweep"@,
            },
    {
        match self {
            RunError::OddUsers => "--users-per-shard must be even (users are paired)",
            RunError::EmptySweep => "empty sweep",
        }
    }
}

/// The greatest number of a list.
pub open spec fn greatest(counts: Seq<usize>) -> usize
    decreases counts.len(),
{
    if counts.len() == 0 {
        0
    } else {
        let rest = greatest(counts.drop_last());
        if counts.last() > rest {
            counts.last()
        } else {
            rest
        }
    }
}

/// The greatest number of a list is one of its numbers, and none exceeds it.
pub proof fn greatest_is_the_maximum(counts: Seq<usize>)
    ensures
        counts.len() > 0 ==> counts.contains(greatest(counts)),
        forall|i: int| 0 <= i < counts.len() ==> #[trigger] counts[i] <= greatest(counts),
    decreases counts.len(),
{
    if counts.len() > 0 {
        let rest = counts.drop_last();
        greatest_is_the_maximum(rest);
        if counts.last() > greatest(rest) || rest.len() == 0 {
            assert(counts[counts.len() - 1] == greatest(counts));
        } else {
            let k = choose|k: int| 0 <= k < rest.len() && rest[k] == greatest(rest);
            assert(counts[k] == greatest(counts));
        }
        assert forall|i: int| 0 <= i < counts.len() implies #[trigger] counts[i] <= greatest(
            counts,
        ) by {
            if i < rest.len() {
                assert(counts[i] == rest[i]);
            }
        }
    }
}

/// The most validators that a sweep starts at once; none for an empty sweep.
pub fn sweep_max(sweep: &Vec<usize>) -> (max: Option<usize>)
    ensures
        match max {
            Some(max) => sweep@.len() > 0 && max == greatest(sweep@),
            None => sweep@.len() == 0,
        },
{
    if sweep.len() == 0 {
        return None;
    }
    let mut max: usize = 0;
    let mut i: usize = 0;
    while i < sweep.len()
        invariant
            i <= sweep@.len(),
            max == greatest(sweep@.take(i as int)),
        decreases sweep@.len() - i,
    {
        assert(sweep@.take(i + 1).drop_last() =~= sweep@.take(i as int));
        if sweep[i] > max {
            max = sweep[i];
        }
        i += 1;
    }
    assert(sweep@.take(i as int) =~= sweep@);
    Some(max)
}

/// A stage of the benchmark. Where it belongs to a sweep point, it holds the
/// point's place in the sweep.
#[derive(Clone, Copy, Debug, PartialEq, Eq, Structural)]
pub enum Stage {
    /// Build the validator.
    Build,
    /// Start the local base chain.
    Chain,
    /// Create and delegate the users' accounts.
    Setup,
    /// Start the point's validators.
    Start(usize),
    /// Read every account through its validator.
    Warmup(usize),
    /// Start counting; without signed transfers at hand, sign and send for
    /// the run's duration.
    Load(usize),
    /// Sign the transfers of the point.
    Presign(usize),
    /// Send the transfers signed before.
    SendPresigned(usize),
    /// Compare balances and stop the validators.
    Verify(usize),
    /// The sweep is complete.
    Done,
}

/// What is to be run.
pub struct Run {
    pub sweep: Vec<usize>,
    pub users_per_shard: usize,
    pub presign_txs: usize,
}

impl Run {
    /// The sweep has a point, users form pairs, and points and their users can
    /// be counted.
    pub open spec fn wf(self) -> bool {
        &&& 0 < self.sweep@.len() <= usize::MAX
        &&& self.users_per_shard % 2 == 0
        &&& forall|k: int|
            0 <= k < self.sweep@.len() ==> (#[trigger] self.sweep@[k]) * self.users_per_shard
                <= usize::MAX
    }

    /// A run over the points of `sweep`. It is refused if users do not form
    /// pairs, or else if there is no point.
    pub fn new(sweep: Vec<usize>, users_per_shard: usize, presign_txs: usize) -> (result: Result<
        Run,
        RunError,
    >)
        requires
            forall|k: int|
                0 <= k < sweep@.len() ==> (#[trigger] sweep@[k]) * users_per_shard <= usize::MAX,
        ensures
            match result {
                Ok(run) => {
                    &&& run.wf()
                    &&& run.sweep@ == sweep@
                    &&& run.users_per_shard == users_per_shard
                    &&& run.presign_txs == presign_txs
                },
                Err(RunError::OddUsers) => users_per_shard % 2 != 0,
                Err(RunError::EmptySweep) => users_per_shard % 2 == 0 && sweep@.len() == 0,
            },
    {
        if users_per_shard % 2 != 0 {
            return Err(RunError::OddUsers);
        }
        if sweep.len() == 0 {
            return Err(RunError::EmptySweep);
        }
        Ok(Run { sweep, users_per_shard, presign_txs })
    }

    /// How many users the run needs.
    pub open spec fn users_needed(self) -> nat {
        (greatest(self.sweep@) * self.users_per_shard) as nat
    }

    /// How many users the run needs: enough for its largest point.
    pub fn total_users(&self) -> (users: usize)
        requires
            self.wf(),
        ensures
            users == self.users_needed(),
    {
        proof {
            greatest_is_the_maximum(self.sweep@);
        }
        match sweep_max(&self.sweep) {
            Some(max) => max * self.users_per_shard,
            None => 0,
        }
    }

    /// Whether the stage is one of this run.
    pub open spec fn has(self, stage: Stage) -> bool {
        match stage {
            Stage::Start(k) => k < self.sweep@.len(),
            Stage::Warmup(k) => k < self.sweep@.len(),
            Stage::Load(k) => k < self.sweep@.len(),
            Stage::Presign(k) => k < self.sweep@.len() && self.presign_txs > 0,
            Stage::SendPresigned(k) => k < self.sweep@.len() && self.presign_txs > 0,
            Stage::Verify(k) => k < self.sweep@.len(),
            _ => true,
        }
    }

    /// The stage that follows.
    pub open spec fn following(self, stage: Stage) -> Stage {
        match stage {
            Stage::Build => Stage::Chain,
            Stage::Chain => Stage::Setup,
            Stage::Setup => Stage::Start(0),
            Stage::Start(k) => Stage::Warmup(k),
            Stage::Warmup(k) => Stage::Load(k),
            Stage::Load(k) => if self.presign_txs > 0 {
                Stage::Presign(k)
            } else {
                Stage::Verify(k)
            },
            Stage::Presign(k) => Stage::SendPresigned(k),
            Stage::SendPresigned(k) => Stage::Verify(k),
            Stage::Verify(k) => if k + 1 < self.sweep@.len() {
                Stage::Start((k + 1) as usize)
            } else {
                Stage::Done
            },
            Stage::Done => Stage::Done,
        }
    }

    /// The stage that follows.
    pub fn next(&self, stage: Stage) -> (next: Stage)
        requires
            self.wf(),
            self.has(stage),
        ensures
            next == self.following(stage),
            self.has(next),
    {
        match stage {
            Stage::Build => Stage::Chain,
            Stage::Chain => Stage::Setup,
            Stage::Setup => Stage::Start(0),
            Stage::Start(k) => Stage::Warmup(k),
            Stage::Warmup(k) => Stage::Load(k),
            Stage::Load(k) => if self.presign_txs > 0 {
                Stage::Presign(k)
            } else {
                Stage::Verify(k)
            },
            Stage::Presign(k) => Stage::SendPresigned(k),
            Stage::SendPresigned(k) => Stage::Verify(k),
            Stage::Verify(k) => if k < self.sweep.len() - 1 {
                Stage::Start(k + 1)
            } else {
                Stage::Done
            },
            Stage::Done => Stage::Done,
        }
    }

    /// What is announced when the stage begins.
    pub open spec fn announced(self, stage: Stage) -> (Seq<char>, Seq<char>) {
        match stage {
            Stage::Build => ("build"@, "building magicblock-validator (release)"@),
            Stage::Chain => ("chain"@, "starting local base chain (solana-test-validator)"@),
            Stage::Setup => (
                "setup"@,
                "delegating "@ + decimal((greatest(self.sweep@) * self.users_per_shard) as nat)
                    + " USDC accounts ("@ + decimal(greatest(self.sweep@) as nat) + " shards)"@,
            ),
            Stage::Start(k) => (
                "start"@,
                "starting "@ + decimal(self.sweep@[k as int] as nat) + " ephemeral validator(s)"@,
            ),
            Stage::Warmup(k) => (
                "warmup"@,
                "cloning "@ + decimal((self.sweep@[k as int] * self.users_per_shard) as nat)
                    + " accounts into "@ + decimal(self.sweep@[k as int] as nat)
                    + " validator(s)"@,
            ),
            Stage::Load(k) => (
                "load"@,
                "blasting USDC transfers at "@ + decimal(self.sweep@[k as int] as nat)
                    + " validator(s)"@,
            ),
            Stage::Presign(k) => (
                "presign"@,
                "pre-signing "@ + decimal(self.presign_txs as nat) + " transfers per shard"@,
            ),
            Stage::SendPresigned(k) => (
                "load"@,
                "blasting pre-signed transfers at "@ + decimal(self.sweep@[k as int] as nat)
                    + " validator(s)"@,
            ),
            Stage::Verify(k) => ("verify"@, "checking balance conservation per pair"@),
            Stage::Done => ("done"@, "benchmark complete"@),
        }
    }

    /// The phase and the detail to announce when the stage begins.
    pub fn announcement(&self, stage: Stage) -> (announcement: (&'static str, String))
        requires
            self.wf(),
            self.has(stage),
        ensures
            announcement.0@ == self.announced(stage).0,
            announcement.1@ == self.announced(stage).1,
    {
        match stage {
            Stage::Build => ("build", String::from_str("building magicblock-validator (release)")),
            Stage::Chain => (
                "chain",
                String::from_str("starting local base chain (solana-test-validator)"),
            ),
            Stage::Setup => {
                let max: usize = match sweep_max(&self.sweep) {
                    Some(max) => max,
                    None => 0,
                };
                let mut detail = String::from_str("delegating ");
                detail.append(decimal_string(self.total_users() as u64).as_str());
                detail.append(" USDC accounts (");
                detail.append(decimal_string(max as u64).as_str());
                detail.append(" shards)");
                ("setup", detail)
            },
            Stage::Start(k) => {
                let mut detail = String::from_str("starting ");
                detail.append(decimal_string(self.sweep[k] as u64).as_str());
                detail.append(" ephemeral validator(s)");
                ("start", detail)
            },
            Stage::Warmup(k) => {
                let mut detail = String::from_str("cloning ");
                detail.append(
                    decimal_string((self.sweep[k] * self.users_per_shard) as u64).as_str(),
                );
                detail.append(" accounts into ");
                detail.append(decimal_string(self.sweep[k] as u64).as_str());
                detail.append(" validator(s)");
                ("warmup", detail)
            },
            Stage::Load(k) => {
                let mut detail = String::from_str("blasting USDC transfers at ");
                detail.append(decimal_string(self.sweep[k] as u64).as_str());
                detail.append(" validator(s)");
                ("load", detail)
            },
            Stage::Presign(_) => {
                let mut detail = String::from_str("pre-signing ");
                detail.append(decimal_string(self.presign_txs as u64).as_str());
                detail.append(" transfers per shard");
                ("presign", detail)
            },
            Stage::SendPresigned(k) => {
                let mut detail = String::from_str("blasting pre-signed transfers at ");
                detail.append(decimal_string(self.sweep[k] as u64).as_str());
                detail.append(" validator(s)");
                ("load", detail)
            },
            Stage::Verify(_) => (
                "verify",
                String::from_str("checking balance conservation per pair"),
            ),
            Stage::Done => ("done", String::from_str("benchmark complete")),
        }
    }

    /// How many stages a sweep point has.
    pub open spec fn stages_per_point(self) -> nat {
        if self.presign_txs > 0 {
            6
        } else {
            4
        }
    }

    /// How many stages come before this one.
    pub open spec fn position(self, stage: Stage) -> nat {
        match stage {
            Stage::Build => 0,
            Stage::Chain => 1,
            Stage::Setup => 2,
            Stage::Start(k) => 3 + k as nat * self.stages_per_point(),
            Stage::Warmup(k) => 4 + k as nat * self.stages_per_point(),
            Stage::Load(k) => 5 + k as nat * self.stages_per_point(),
            Stage::Presign(k) => 6 + k as nat * self.stages_per_point(),
            Stage::SendPresigned(k) => 7 + k as nat * self.stages_per_point(),
            Stage::Verify(k) => 2 + (k as nat + 1) * self.stages_per_point(),
            Stage::Done => 3 + self.sweep@.len() * self.stages_per_point(),
        }
    }

    /// The stage after `count` steps from the first.
    pub open spec fn stage_after(self, count: nat) -> Stage
        decreases count,
    {
        if count == 0 {
            Stage::Build
        } else {
            self.following(self.stage_after((count - 1) as nat))
        }
    }
}

/// A run goes through each of its stages, in order and point by point, and
/// ends: the stage after `count` steps is the one with `count` stages before
/// it, until the run is done.
pub proof fn runs_go_through_every_stage(run: Run, count: nat)
    requires
        run.wf(),
    ensures
        run.has(run.stage_after(count)),
        count <= run.position(Stage::Done) ==> run.position(run.stage_after(count)) == count,
        count >= run.position(Stage::Done) ==> run.stage_after(count) == Stage::Done,
    decreases count,
{
    let per = run.stages_per_point();
    let len = run.sweep@.len();
    assert(len * per >= per) by (nonlinear_arith)
        requires
            len >= 1,
    ;
    if count > 0 {
        let before = run.stage_after((count - 1) as nat);
        runs_go_through_every_stage(run, (count - 1) as nat);
        if let Stage::Verify(k) = before {
            if k + 1 < len {
                assert(run.position(Stage::Start((k + 1) as usize)) == 3 + (k as nat + 1) * per);
            } else {
                assert(k + 1 == len);
            }
        }
        if let Stage::Load(k) = before {
            assert((k as nat + 1) * per == k as nat * per + per) by (nonlinear_arith);
        }
        if let Stage::SendPresigned(k) = before {
            assert((k as nat + 1) * per == k as nat * per + per) by (nonlinear_arith);
        }
        if before == Stage::Done {
            assert(run.position(before) == run.position(Stage::Done));
        } else {
            stages_precede_the_end(run, before);
        }
    }
}

/// A stage other than the last comes before the last.
proof fn stages_precede_the_end(run: Run, stage: Stage)
    requires
        run.wf(),
        run.has(stage),
        stage != Stage::Done,
    ensures
        run.position(stage) < run.position(Stage::Done),
{
    let per = run.stages_per_point();
    let len = run.sweep@.len();
    let k = match stage {
        Stage::Start(k) => k as nat,
        Stage::Warmup(k) => k as nat,
        Stage::Load(k) => k as nat,
        Stage::Presign(k) => k as nat,
        Stage::SendPresigned(k) => k as nat,
        Stage::Verify(k) => k as nat,
        _ => 0nat,
    };
    assert((k + 1) * per == k * per + per) by (nonlinear_arith);
    assert((k + 1) * per <= len * per) by (nonlinear_arith)
        requires
            k + 1 <= len,
    ;
}

/// No two stages of a run have the same number of stages before them, so a
/// run comes to each of its stages exactly once.
pub proof fn every_stage_comes_once(run: Run, stage: Stage)
    requires
        run.wf(),
        run.has(stage),
    ensures
        run.stage_after(run.position(stage)) == stage,
{
    runs_go_through_every_stage(run, run.position(stage));
    if stage != Stage::Done {
        stages_precede_the_end(run, stage);
    }
    let found = run.stage_after(run.position(stage));
    positions_differ(run, found, stage);
}

/// Stages at the same position are the same.
proof fn positions_differ(run: Run, a: Stage, b: Stage)
    requires
        run.wf(),
        run.has(a),
        run.has(b),
        run.position(a) == run.position(b),
    ensures
        a == b,
{
    if a == Stage::Done && b != Stage::Done {
        stages_precede_the_end(run, b);
    }
    if b == Stage::Done && a != Stage::Done {
        stages_precede_the_end(run, a);
    }
    if run.presign_txs > 0 {
        assert(run.stages_per_point() == 6);
    } else {
        assert(run.stages_per_point() == 4);
    }
}

/// How many threads sign ahead of time where `signer_threads` are asked for.
pub open spec fn presigning_threads(signer_threads: nat) -> nat {
    if signer_threads > 2 {
        signer_threads * 2
    } else {
        4
    }
}

/// How many threads sign a shard's transfers before they are sent.
pub fn presign_threads(signer_threads: usize) -> (threads: usize)
    requires
        signer_threads * 2 <= usize::MAX,
    ensures
        threads == presigning_threads(signer_threads as nat),
{
    if signer_threads > 2 {
        signer_threads * 2
    } else {
        4
    }
}

/// Whether every counter could be read both times.
pub open spec fn all_read(before: Seq<Option<u64>>, after: Seq<Option<u64>>) -> bool {
    forall|i: int|
        #![trigger before[i]]
        0 <= i < before.len() ==> before[i] is Some && after[i] is Some
}

/// What each counter gained between two readings; a counter that fell gained
/// nothing.
pub open spec fn gains(before: Seq<Option<u64>>, after: Seq<Option<u64>>) -> Seq<u64> {
    Seq::new(
        before.len(),
        |i: int|
            if after[i]->Some_0 >= before[i]->Some_0 {
                (after[i]->Some_0 - before[i]->Some_0) as u64
            } else {
                0
            },
    )
}

/// How many transactions the validators executed between two readings of
/// their counters, if every counter could be read both times.
pub fn executed_between(before: &Vec<Option<u64>>, after: &Vec<Option<u64>>) -> (executed: Option<
    u64,
>)
    requires
        before@.len() == after@.len(),
        all_read(before@, after@) ==> sum(gains(before@, after@)) <= u64::MAX,
    ensures
        match executed {
            Some(executed) => all_read(before@, after@) && executed == sum(gains(before@, after@)),
            None => !all_read(before@, after@),
        },
{
    let mut counts: Vec<u64> = Vec::with_capacity(before.len());
    let mut i: usize = 0;
    while i < before.len()
        invariant
            i <= before@.len(),
            before@.len() == after@.len(),
            counts@ == gains(before@, after@).take(i as int),
            forall|k: int|
                #![trigger before@[k]]
                0 <= k < i ==> before@[k] is Some && after@[k] is Some,
        decreases before@.len() - i,
    {
        match (before[i], after[i]) {
            (Some(b), Some(a)) => {
                let gain: u64 = if a >= b {
                    a - b
                } else {
                    0
                };
                counts.push(gain);
                assert(counts@ =~= gains(before@, after@).take(i + 1));
            },
            _ => {
                assert(before@[i as int] is None || after@[i as int] is None);
                return None;
            },
        }
        i += 1;
    }
    assert(counts@ =~= gains(before@, after@));
    Some(total(&counts))
}

/// The count that throughput is computed from. The count of the validators is
/// preferred: what they accepted at first may have been dropped later.
pub fn counted(executed: Option<u64>, accepted: u64) -> (count: u64)
    ensures
        count == match executed {
            Some(executed) => executed,
            None => accepted,
        },
{
    match executed {
        Some(executed) => executed,
        None => accepted,
    }
}

/// The verifications of all shards, added up.
#[derive(Clone, Copy, Debug, PartialEq, Eq, Structural)]
pub struct PairTotals {
    pub ok: usize,
    pub failed: usize,
    pub changed: usize,
}

impl PairTotals {
    /// Nothing has been verified.
    pub fn new() -> (totals: Self)
        ensures
            totals == (PairTotals { ok: 0, failed: 0, changed: 0 }),
    {
        PairTotals { ok: 0, failed: 0, changed: 0 }
    }

    /// Adds the verification of a shard.
    pub fn add_shard(&mut self, found: &Verification)
        requires
            old(self).ok + found.ok <= usize::MAX,
            old(self).failed + found.failed <= usize::MAX,
            old(self).changed + found.changed <= usize::MAX,
        ensures
            final(self).ok == old(self).ok + found.ok,
            final(self).failed == old(self).failed + found.failed,
            final(self).changed == old(self).changed + found.changed,
    {
        self.ok += found.ok;
        self.failed += found.failed;
        self.changed += found.changed;
    }
}

/// Puts the result of a sweep point together.
pub fn sweep_point<R>(
    validators: usize,
    tps: R,
    per_node_tps: R,
    accepted: u64,
    executed: Option<u64>,
    totals: PairTotals,
    latency: Option<(R, R)>,
) -> (point: SweepPoint<R>)
    ensures
        point.validators == validators,
        point.tps == tps,
        point.per_node_tps == per_node_tps,
        point.accepted == accepted,
        point.executed == executed,
        point.verified_pairs == totals.ok,
        point.failed_pairs == totals.failed,
        point.changed_pairs == totals.changed,
        match latency {
            Some((avg, p99)) => point.latency_avg_ms == Some(avg) && point.latency_p99_ms == Some(
                p99,
            ),
            None => point.latency_avg_ms is None && point.latency_p99_ms is None,
        },
{
    let (latency_avg_ms, latency_p99_ms) = match latency {
        Some((avg, p99)) => (Some(avg), Some(p99)),
        None => (None, None),
    };
    SweepPoint {
        validators,
        tps,
        per_node_tps,
        accepted,
        executed,
        verified_pairs: totals.ok,
        failed_pairs: totals.failed,
        changed_pairs: totals.changed,
        latency_avg_ms,
        latency_p99_ms,
    }
}

/// The line that reports a sweep point, whose rates are given as text.
pub fn result_line(
    validators: usize,
    tps: &str,
    per_node: &str,
    accepted: u64,
    submitted: u64,
    executed: Option<u64>,
    totals: PairTotals,
) -> (line: String)
    ensures
        line@ == "validators="@ + decimal(validators as nat) + " tps="@ + tps@ + " per_node="@
            + per_node@ + " accepted="@ + decimal(accepted as nat) + "/"@ + decimal(
            submitted as nat,
        ) + " executed="@ + match executed {
            Some(executed) => decimal(executed as nat),
            None => "n/a"@,
        } + " pairs_ok="@ + decimal(totals.ok as nat) + " pairs_failed="@ + decimal(
            totals.failed as nat,
        ) + " pairs_active="@ + decimal(totals.changed as nat),
{
    let mut line = String::from_str("validators=");
    line.append(decimal_string(validators as u64).as_str());
    line.append(" tps=");
    line.append(tps);
    line.append(" per_node=");
    line.append(per_node);
    line.append(" accepted=");
    line.append(decimal_string(accepted).as_str());
    line.append("/");
    line.append(decimal_string(submitted).as_str());
    line.append(" executed=");
    match executed {
        Some(executed) => line.append(decimal_string(executed).as_str()),
        None => line.append("n/a"),
    }
    line.append(" pairs_ok=");
    line.append(decimal_string(totals.ok as u64).as_str());
    line.append(" pairs_failed=");
    line.append(decimal_string(totals.failed as u64).as_str());
    line.append(" pairs_active=");
    line.append(decimal_string(totals.changed as u64).as_str());
    line
}

/// Signing ahead of time uses twice the signer threads, counting at least two
/// of them.
pub proof fn presigning_doubles_the_threads(signer_threads: nat)
    ensures
        signer_threads >= 2 ==> presigning_threads(signer_threads) == signer_threads
            + signer_threads,
        signer_threads < 2 ==> presigning_threads(signer_threads) == presigning_threads(2),
{
}

/// A run has enough users for each of its points, and no more than its largest
/// point takes.
pub proof fn users_suffice_for_every_point(run: Run, k: int)
    requires
        run.wf(),
        0 <= k < run.sweep@.len(),
    ensures
        run.sweep@[k] * run.users_per_shard <= run.users_needed(),
        exists|j: int|
            0 <= j < run.sweep@.len() && (#[trigger] run.sweep@[j]) * run.users_per_shard
                == run.users_needed(),
{
    greatest_is_the_maximum(run.sweep@);
    let j = choose|j: int| 0 <= j < run.sweep@.len() && run.sweep@[j] == greatest(run.sweep@);
    assert(run.sweep@[j] * run.users_per_shard == run.users_needed());
    assert(run.sweep@[k] * run.users_per_shard <= greatest(run.sweep@) * run.users_per_shard)
        by (nonlinear_arith)
        requires
            run.sweep@[k] <= greatest(run.sweep@),
    ;
}

/// What is announced for a point speaks of that point: of its own number of
/// validators, and of the accounts that these serve.
pub proof fn announcements_speak_of_their_own_point(run: Run, k: usize)
    requires
        k < run.sweep@.len(),
    ensures
        run.announced(Stage::Start(k)) == (
            "start"@,
            "starting "@ + decimal(run.sweep@[k as int] as nat) + " ephemeral validator(s)"@,
        ),
        run.announced(Stage::Warmup(k)) == (
            "warmup"@,
            "cloning "@ + decimal((run.sweep@[k as int] * run.users_per_shard) as nat)
                + " accounts into "@ + decimal(run.sweep@[k as int] as nat) + " validator(s)"@,
        ),
        run.announced(Stage::Load(k)) == (
            "load"@,
            "blasting USDC transfers at "@ + decimal(run.sweep@[k as int] as nat)
                + " validator(s)"@,
        ),
        run.announced(Stage::Presign(k)) == (
            "presign"@,
            "pre-signing "@ + decimal(run.presign_txs as nat) + " transfers per shard"@,
        ),
        run.announced(Stage::SendPresigned(k)) == (
            "load"@,
            "blasting pre-signed transfers at "@ + decimal(run.sweep@[k as int] as nat)
                + " validator(s)"@,
        ),
        run.announced(Stage::Verify(k)) == (
            "verify"@,
            "checking balance conservation per pair"@,
        ),
        run.announced(Stage::Setup) == (
            "setup"@,
            "delegating "@ + decimal(run.users_needed()) + " USDC accounts ("@ + decimal(
                greatest(run.sweep@) as nat,
            ) + " shards)"@,
        ),
{
}

/// The stages of a point come in order and stay with the point: its validators
/// are started, warmed up, loaded, with signing and sending after that if
/// transfers are signed ahead, and verified; then comes the next point, or the
/// end.
pub proof fn points_are_run_one_by_one(run: Run, k: usize)
    requires
        run.wf(),
        k < run.sweep@.len(),
    ensures
        run.following(Stage::Setup) == Stage::Start(0),
        run.following(Stage::Start(k)) == Stage::Warmup(k),
        run.following(Stage::Warmup(k)) == Stage::Load(k),
        run.presign_txs == 0 ==> run.following(Stage::Load(k)) == Stage::Verify(k),
        run.presign_txs > 0 ==> run.following(Stage::Load(k)) == Stage::Presign(k)
            && run.following(Stage::Presign(k)) == Stage::SendPresigned(k) && run.following(
            Stage::SendPresigned(k),
        ) == Stage::Verify(k),
        k + 1 < run.sweep@.len() ==> run.following(Stage::Verify(k)) == Stage::Start(
            (k + 1) as usize,
        ),
        k + 1 == run.sweep@.len() ==> run.following(Stage::Verify(k)) == Stage::Done,
{
}

/// What a validator's counter gained and what it read before are what it reads
/// after; a counter that fell gained nothing. Where a reading is missing,
/// nothing is known of the whole.
pub proof fn gains_lead_from_before_to_after(
    before: Seq<Option<u64>>,
    after: Seq<Option<u64>>,
    i: int,
)
    requires
        before.len() == after.len(),
        0 <= i < before.len(),
    ensures
        before[i] is None || after[i] is None ==> !all_read(before, after),
        all_read(before, after) ==> before[i] is Some && after[i] is Some,
        gains(before, after).len() == before.len(),
        before[i] is Some && after[i] is Some && before[i]->Some_0 <= after[i]->Some_0
            ==> before[i]->Some_0 + gains(before, after)[i] == after[i]->Some_0,
        before[i] is Some && after[i] is Some && before[i]->Some_0 > after[i]->Some_0 ==> gains(
            before,
            after,
        )[i] == 0,
{
}

} // verus!
