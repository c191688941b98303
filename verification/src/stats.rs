//! Live counters, run state and results.
//!
//! `R` is the number type that rates and times are held in; nothing here
//! computes with it.
use vstd::prelude::*;

verus! {

/// What became of one batch: how many of its transactions were accepted and
/// how many failed.
#[derive(Clone, Copy, Debug, PartialEq, Eq, Structural)]
pub struct BatchOutcome {
    pub accepted: u64,
    pub errors: u64,
}

/// `a + b` in 64 bits, wrapping round.
pub open spec fn wrapped_sum(a: u64, b: u64) -> int {
    if a + b > u64::MAX {
        a + b - 0x1_0000_0000_0000_0000
    } else {
        a + b
    }
}

/// Live counters for one validator shard during a load run.
pub struct ShardStats<R> {
    pub submitted: u64,
    pub accepted: u64,
    pub errors: u64,
    /// Executed count reported by the validator.
    pub executed: u64,
    /// End-to-end latency samples from the probe transactions.
    pub latency_ms: Vec<R>,
}

impl<R> ShardStats<R> {
    /// Whether nothing has been counted yet.
    pub open spec fn is_zero(self) -> bool {
        &&& self.submitted == 0
        &&& self.accepted == 0
        &&& self.errors == 0
        &&& self.executed == 0
        &&& self.latency_ms@ == Seq::<R>::empty()
    }

    /// Whether every submitted transaction is accounted for.
    pub open spec fn balanced(self) -> bool {
        self.accepted + self.errors == self.submitted
    }

    /// Whether `after` is what these counters are once a batch has been
    /// counted as submitted.
    pub open spec fn submits(self, transactions: u64, after: Self) -> bool {
        &&& after.submitted == wrapped_sum(self.submitted, transactions)
        &&& after.accepted == self.accepted
        &&& after.errors == self.errors
        &&& after.executed == self.executed
        &&& after.latency_ms@ == self.latency_ms@
    }

    /// Whether `after` is what these counters are once a batch's outcome has
    /// been counted.
    pub open spec fn settles(self, outcome: BatchOutcome, after: Self) -> bool {
        &&& after.submitted == self.submitted
        &&& after.accepted == wrapped_sum(self.accepted, outcome.accepted)
        &&& after.errors == wrapped_sum(self.errors, outcome.errors)
        &&& after.executed == self.executed
        &&& after.latency_ms@ == self.latency_ms@
    }

    /// Counters that have counted nothing.
    pub fn new() -> (stats: Self)
        ensures
            stats.is_zero(),
    {
        ShardStats { submitted: 0, accepted: 0, errors: 0, executed: 0, latency_ms: Vec::new() }
    }

    pub fn accepted(&self) -> (count: u64)
        ensures
            count == self.accepted,
    {
        self.accepted
    }

    pub fn submitted(&self) -> (count: u64)
        ensures
            count == self.submitted,
    {
        self.submitted
    }

    pub fn errors(&self) -> (count: u64)
        ensures
            count == self.errors,
    {
        self.errors
    }

    pub fn executed(&self) -> (count: u64)
        ensures
            count == self.executed,
    {
        self.executed
    }

    /// Counts a batch about to be sent.
    pub fn record_submitted(&mut self, transactions: u64)
        ensures
            old(self).submits(transactions, *final(self)),
    {
        self.submitted = self.submitted.wrapping_add(transactions);
    }

    /// Counts what became of a batch.
    pub fn record_outcome(&mut self, outcome: BatchOutcome)
        ensures
            old(self).settles(outcome, *final(self)),
    {
        self.accepted = self.accepted.wrapping_add(outcome.accepted);
        self.errors = self.errors.wrapping_add(outcome.errors);
    }

    /// Adds a latency sample.
    pub fn record_latency(&mut self, ms: R)
        ensures
            final(self).latency_ms@ == old(self).latency_ms@.push(ms),
            final(self).submitted == old(self).submitted,
            final(self).accepted == old(self).accepted,
            final(self).errors == old(self).errors,
            final(self).executed == old(self).executed,
    {
        self.latency_ms.push(ms);
    }

    /// The latency samples so far, oldest first.
    pub fn latency_samples(&self) -> (samples: &Vec<R>)
        ensures
            samples@ == self.latency_ms@,
    {
        &self.latency_ms
    }
}

impl<R> Default for ShardStats<R> {
    fn default() -> (stats: Self)
        ensures
            stats.is_zero(),
    {
        ShardStats::new()
    }
}

/// A batch that is fully answered keeps the counters balanced: if the outcome
/// covers the batch, and the counters had room for it, then what was balanced
/// before the batch was sent is balanced after its outcome is in.
pub proof fn answered_batches_keep_balance<R>(
    before: ShardStats<R>,
    sent: ShardStats<R>,
    after: ShardStats<R>,
    transactions: u64,
    outcome: BatchOutcome,
)
    requires
        before.balanced(),
        before.submitted + transactions <= u64::MAX,
        outcome.accepted + outcome.errors == transactions,
        before.submits(transactions, sent),
        sent.settles(outcome, after),
    ensures
        after.balanced(),
{
}

/// One sample of the live throughput chart.
pub struct HistoryPoint<R> {
    pub t: R,
    pub aggregate_tps: R,
    pub per_shard: Vec<R>,
}

/// The result of one sweep point.
pub struct SweepPoint<R> {
    pub validators: usize,
    pub tps: R,
    pub per_node_tps: R,
    pub accepted: u64,
    pub executed: Option<u64>,
    pub verified_pairs: usize,
    pub failed_pairs: usize,
    pub changed_pairs: usize,
    pub latency_avg_ms: Option<R>,
    pub latency_p99_ms: Option<R>,
}

/// What the benchmark is doing.
#[derive(Clone, Debug)]
pub struct RunInfo {
    pub phase: String,
    pub detail: String,
    pub validators: usize,
    pub users_per_shard: usize,
    pub total_delegated_accounts: usize,
}

impl RunInfo {
    /// Whether no phase has begun.
    pub open spec fn is_blank(self) -> bool {
        &&& self.phase@ == Seq::<char>::empty()
        &&& self.detail@ == Seq::<char>::empty()
        &&& self.validators == 0
        &&& self.users_per_shard == 0
        &&& self.total_delegated_accounts == 0
    }
}

impl Default for RunInfo {
    fn default() -> (info: Self)
        ensures
            info.is_blank(),
    {
        RunInfo {
            phase: String::new(),
            detail: String::new(),
            validators: 0,
            users_per_shard: 0,
            total_delegated_accounts: 0,
        }
    }
}

/// How many of the newest chart samples the dashboard is given.
pub const HISTORY_WINDOW: usize = 600;

/// Where the newest chart samples of `len` begin.
pub open spec fn window_start(len: nat) -> nat {
    if len <= HISTORY_WINDOW {
        0
    } else {
        (len - HISTORY_WINDOW) as nat
    }
}

/// The state that the benchmark driver updates and the dashboard shows.
pub struct AppState<R> {
    pub info: RunInfo,
    pub shards: Vec<ShardStats<R>>,
    pub history: Vec<HistoryPoint<R>>,
    pub sweep: Vec<SweepPoint<R>>,
}

impl<R> AppState<R> {
    /// The state before anything has happened.
    pub fn new() -> (state: Self)
        ensures
            state.info.is_blank(),
            state.shards@ == Seq::<ShardStats<R>>::empty(),
            state.history@ == Seq::<HistoryPoint<R>>::empty(),
            state.sweep@ == Seq::<SweepPoint<R>>::empty(),
    {
        AppState {
            info: RunInfo::default(),
            shards: Vec::new(),
            history: Vec::new(),
            sweep: Vec::new(),
        }
    }

    /// Enters a phase, and gives the line that logs it.
    pub fn set_phase(&mut self, phase: &str, detail: &str) -> (line: String)
        ensures
            final(self).info.phase@ == phase@,
            final(self).info.detail@ == detail@,
            final(self).info.validators == old(self).info.validators,
            final(self).info.users_per_shard == old(self).info.users_per_shard,
            final(self).info.total_delegated_accounts == old(
                self,
            ).info.total_delegated_accounts,
            final(self).shards@ == old(self).shards@,
            final(self).history@ == old(self).history@,
            final(self).sweep@ == old(self).sweep@,
            line@ == "[phase] "@ + phase@ + " "@ + detail@,
    {
        self.info.phase = String::from_str(phase);
        self.info.detail = String::from_str(detail);
        let mut line = String::from_str("[phase] ");
        line.append(phase);
        line.append(" ");
        line.append(detail);
        line
    }

    /// Notes the size of the sweep point that begins.
    pub fn set_run(&mut self, validators: usize, users_per_shard: usize, total_accounts: usize)
        ensures
            final(self).info.phase@ == old(self).info.phase@,
            final(self).info.detail@ == old(self).info.detail@,
            final(self).info.validators == validators,
            final(self).info.users_per_shard == users_per_shard,
            final(self).info.total_delegated_accounts == total_accounts,
            final(self).shards@ == old(self).shards@,
            final(self).history@ == old(self).history@,
            final(self).sweep@ == old(self).sweep@,
    {
        self.info.validators = validators;
        self.info.users_per_shard = users_per_shard;
        self.info.total_delegated_accounts = total_accounts;
    }

    /// Starts over with `n` shards that have counted nothing, and an empty
    /// chart.
    pub fn reset_shards(&mut self, n: usize)
        ensures
            final(self).shards@.len() == n,
            forall|i: int| 0 <= i < n ==> (#[trigger] final(self).shards@[i]).is_zero(),
            final(self).history@ == Seq::<HistoryPoint<R>>::empty(),
            final(self).info == old(self).info,
            final(self).sweep@ == old(self).sweep@,
    {
        let mut shards: Vec<ShardStats<R>> = Vec::new();
        while shards.len() < n
            invariant
                shards@.len() <= n,
                forall|i: int| 0 <= i < shards@.len() ==> (#[trigger] shards@[i]).is_zero(),
            decreases n - shards@.len(),
        {
            shards.push(ShardStats::new());
        }
        self.shards = shards;
        self.history.clear();
    }

    /// Adds the result of a sweep point.
    pub fn push_sweep(&mut self, point: SweepPoint<R>)
        ensures
            final(self).sweep@ == old(self).sweep@.push(point),
            final(self).info == old(self).info,
            final(self).shards@ == old(self).shards@,
            final(self).history@ == old(self).history@,
    {
        self.sweep.push(point);
    }

    /// Adds a sample to the chart.
    pub fn push_history(&mut self, point: HistoryPoint<R>)
        ensures
            final(self).history@ == old(self).history@.push(point),
            final(self).info == old(self).info,
            final(self).shards@ == old(self).shards@,
            final(self).sweep@ == old(self).sweep@,
    {
        self.history.push(point);
    }

    /// Where the newest [`HISTORY_WINDOW`] chart samples begin: at the start
    /// while there are no more than that.
    pub fn history_start(&self) -> (start: usize)
        ensures
            start == window_start(self.history@.len()),
    {
        self.history.len().saturating_sub(HISTORY_WINDOW)
    }
}

/// The sum of a list of counts.
pub open spec fn sum(counts: Seq<u64>) -> nat
    decreases counts.len(),
{
    if counts.len() == 0 {
        0
    } else {
        sum(counts.drop_last()) + counts.last() as nat
    }
}

/// A prefix sums to no more than the whole.
pub proof fn sum_grows(counts: Seq<u64>, upto: int)
    requires
        0 <= upto <= counts.len(),
    ensures
        sum(counts.take(upto)) <= sum(counts),
    decreases counts.len(),
{
    if upto == counts.len() {
        assert(counts.take(upto) =~= counts);
    } else {
        sum_grows(counts.drop_last(), upto);
        assert(counts.drop_last().take(upto) =~= counts.take(upto));
    }
}

/// Adds a list of counts up.
pub fn total(counts: &Vec<u64>) -> (total: u64)
    requires
        sum(counts@) <= u64::MAX,
    ensures
        total == sum(counts@),
{
    let mut total: u64 = 0;
    let mut i: usize = 0;
    while i < counts.len()
        invariant
            i <= counts@.len(),
            sum(counts@) <= u64::MAX,
            total == sum(counts@.take(i as int)),
        decreases counts@.len() - i,
    {
        proof {
            sum_grows(counts@, i + 1);
            assert(counts@.take(i + 1).drop_last() =~= counts@.take(i as int));
        }
        total = total + counts[i];
        i = i + 1;
    }
    assert(counts@.take(i as int) =~= counts@);
    total
}

/// What each shard has accepted.
pub open spec fn accepted_counts<R>(shards: Seq<ShardStats<R>>) -> Seq<u64> {
    shards.map_values(|stats: ShardStats<R>| stats.accepted)
}

/// What has been submitted to each shard.
pub open spec fn submitted_counts<R>(shards: Seq<ShardStats<R>>) -> Seq<u64> {
    shards.map_values(|stats: ShardStats<R>| stats.submitted)
}

impl<R> AppState<R> {
    /// What each shard has accepted so far.
    pub fn accepted_per_shard(&self) -> (counts: Vec<u64>)
        ensures
            counts@ == accepted_counts(self.shards@),
    {
        let mut counts: Vec<u64> = Vec::with_capacity(self.shards.len());
        while counts.len() < self.shards.len()
            invariant
                counts@.len() <= self.shards@.len(),
                counts@ == accepted_counts(self.shards@).take(counts@.len() as int),
            decreases self.shards@.len() - counts@.len(),
        {
            let i: usize = counts.len();
            counts.push(self.shards[i].accepted());
            assert(counts@ =~= accepted_counts(self.shards@).take(counts@.len() as int));
        }
        assert(counts@ =~= accepted_counts(self.shards@));
        counts
    }

    /// What has been submitted to each shard so far.
    pub fn submitted_per_shard(&self) -> (counts: Vec<u64>)
        ensures
            counts@ == submitted_counts(self.shards@),
    {
        let mut counts: Vec<u64> = Vec::with_capacity(self.shards.len());
        while counts.len() < self.shards.len()
            invariant
                counts@.len() <= self.shards@.len(),
                counts@ == submitted_counts(self.shards@).take(counts@.len() as int),
            decreases self.shards@.len() - counts@.len(),
        {
            let i: usize = counts.len();
            counts.push(self.shards[i].submitted());
            assert(counts@ =~= submitted_counts(self.shards@).take(counts@.len() as int));
        }
        assert(counts@ =~= submitted_counts(self.shards@));
        counts
    }
}

/// What each counter gained since it read `last`.
pub open spec fn gained_since(last: Seq<u64>, counts: Seq<u64>) -> Seq<u64> {
    Seq::new(counts.len(), |i: int| (counts[i] - last[i]) as u64)
}

/// Turns running counts into what was added since the last reading.
pub struct Sampler {
    pub last: Vec<u64>,
}

impl Sampler {
    /// A sampler for `n` counters that start at zero.
    pub fn new(n: usize) -> (sampler: Self)
        ensures
            sampler.last@ == Seq::new(n as nat, |i: int| 0u64),
    {
        let mut last: Vec<u64> = Vec::with_capacity(n);
        while last.len() < n
            invariant
                last@.len() <= n,
                forall|i: int| 0 <= i < last@.len() ==> last@[i] == 0,
            decreases n - last@.len(),
        {
            last.push(0);
        }
        assert(last@ =~= Seq::new(n as nat, |i: int| 0u64));
        Sampler { last }
    }

    /// What each counter gained since the last reading.
    pub fn sample(&mut self, counts: &Vec<u64>) -> (gained: Vec<u64>)
        requires
            counts@.len() == old(self).last@.len(),
            forall|i: int|
                0 <= i < counts@.len() ==> old(self).last@[i] <= #[trigger] counts@[i],
        ensures
            final(self).last@ == counts@,
            gained@ == gained_since(old(self).last@, counts@),
    {
        let mut gained: Vec<u64> = Vec::with_capacity(counts.len());
        let mut i: usize = 0;
        while i < counts.len()
            invariant
                i <= counts@.len(),
                gained@.len() == i,
                self.last@.len() == counts@.len(),
                old(self).last@.len() == counts@.len(),
                forall|k: int|
                    0 <= k < counts@.len() ==> old(self).last@[k] <= #[trigger] counts@[k],
                forall|k: int| 0 <= k < i ==> self.last@[k] == counts@[k],
                forall|k: int| i <= k < counts@.len() ==> self.last@[k] == old(self).last@[k],
                forall|k: int|
                    0 <= k < i ==> #[trigger] gained@[k] == counts@[k] - old(self).last@[k],
            decreases counts@.len() - i,
        {
            gained.push(counts[i] - self.last[i]);
            self.last.set(i, counts[i]);
            i = i + 1;
        }
        assert(self.last@ =~= counts@);
        assert(gained@ =~= gained_since(old(self).last@, counts@));
        gained
    }
}

/// Over any run of readings that starts at zero and never falls, the gains of
/// a counter add up to its last reading.
pub proof fn gains_add_up(readings: Seq<u64>, gains: Seq<u64>)
    requires
        readings.len() == gains.len() + 1,
        readings[0] == 0,
        forall|k: int|
            0 <= k < gains.len() ==> #[trigger] gains[k] == readings[k + 1] - readings[k],
    ensures
        sum(gains) == readings.last(),
    decreases gains.len(),
{
    if gains.len() > 0 {
        let (shorter, fewer) = (readings.drop_last(), gains.drop_last());
        assert forall|k: int| 0 <= k < fewer.len() implies #[trigger] fewer[k] == shorter[k + 1]
            - shorter[k] by {
            assert(fewer[k] == gains[k]);
        }
        gains_add_up(shorter, fewer);
    }
}

/// Counting a batch as submitted adds its size to the one counter, in 64 bits,
/// and changes no other.
pub proof fn submitting_counts_the_batch<R>(
    before: ShardStats<R>,
    transactions: u64,
    after: ShardStats<R>,
)
    requires
        before.submits(transactions, after),
    ensures
        after.submitted == (before.submitted + transactions) % 0x1_0000_0000_0000_0000,
        after.accepted == before.accepted,
        after.errors == before.errors,
        after.executed == before.executed,
        after.latency_ms@ == before.latency_ms@,
{
}

/// Counting an outcome adds what was accepted to what was accepted before, and
/// the errors to the errors, in 64 bits, and changes no other counter.
pub proof fn settling_counts_both_kinds<R>(
    before: ShardStats<R>,
    outcome: BatchOutcome,
    after: ShardStats<R>,
)
    requires
        before.settles(outcome, after),
    ensures
        after.accepted == (before.accepted + outcome.accepted) % 0x1_0000_0000_0000_0000,
        after.errors == (before.errors + outcome.errors) % 0x1_0000_0000_0000_0000,
        after.submitted == before.submitted,
        after.executed == before.executed,
        after.latency_ms@ == before.latency_ms@,
{
}

/// The sum of no counts is zero, that of one is the count, and that of a list
/// is the sum of its parts.
pub proof fn sums_add_up(a: Seq<u64>, b: Seq<u64>, count: u64)
    ensures
        sum(Seq::<u64>::empty()) == 0,
        sum(seq![count]) == count,
        sum(a + b) == sum(a) + sum(b),
    decreases b.len(),
{
    assert(seq![count].drop_last() =~= Seq::<u64>::empty());
    if b.len() == 0 {
        assert(a + b =~= a);
    } else {
        sums_add_up(a, b.drop_last(), count);
        assert((a + b).drop_last() =~= a + b.drop_last());
    }
}

/// The counts of the shards stand in the order of the shards.
pub proof fn counts_stand_at_their_shards<R>(shards: Seq<ShardStats<R>>, i: int)
    requires
        0 <= i < shards.len(),
    ensures
        accepted_counts(shards).len() == shards.len(),
        accepted_counts(shards)[i] == shards[i].accepted,
        submitted_counts(shards).len() == shards.len(),
        submitted_counts(shards)[i] == shards[i].submitted,
{
}

/// The chart shows its newest 600 samples, or all while there are fewer.
pub proof fn the_chart_shows_the_newest(len: nat)
    ensures
        window_start(len) <= len,
        len <= 600 ==> window_start(len) == 0,
        len >= 600 ==> len - window_start(len) == 600,
{
}

/// What a counter gained and what it read before are what it reads now.
pub proof fn gains_lead_to_the_new_reading(last: Seq<u64>, counts: Seq<u64>, i: int)
    requires
        0 <= i < counts.len(),
        last.len() == counts.len(),
        last[i] <= counts[i],
    ensures
        gained_since(last, counts).len() == counts.len(),
        last[i] + gained_since(last, counts)[i] == counts[i],
{
}

} // verus!
