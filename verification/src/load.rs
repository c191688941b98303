//! Sending load, counting replies and checking balances.
use crate::chunks::{chunk_end, chunk_start};
use crate::formats::{has_member, json_array_members, member_names, parse_json_array};
use crate::programs::{is_token_account, token_amount, unpack_token_amount};
use crate::stats::BatchOutcome;
use crate::text::{decimal, decimal_string};
use crate::transfers::{texts_view, Shard, Transfer};
use vstd::prelude::*;

verus! {

/// How a just-in-time load run is driven.
#[derive(Clone, Copy, Debug)]
pub struct LoadConfig {
    pub duration_secs: u64,
    pub connections: usize,
    pub batch_size: usize,
    pub signer_threads: usize,
}

/// How many signed transactions may wait where `connections` senders take
/// batches of `batch_size`.
pub open spec fn waiting_room(batch_size: nat, connections: nat) -> nat {
    batch_size * connections * 4
}

/// Each connection makes room for four more batches.
pub proof fn connections_add_four_batches(batch_size: nat, connections: nat)
    ensures
        waiting_room(batch_size, 0) == 0,
        waiting_room(batch_size, connections + 1) == waiting_room(batch_size, connections)
            + batch_size + batch_size + batch_size + batch_size,
{
    assert(batch_size * 0 * 4 == 0) by (nonlinear_arith);
    assert(batch_size * (connections + 1) * 4 == batch_size * connections * 4 + 4 * batch_size)
        by (nonlinear_arith);
}

/// How many idle connections are kept where `connections` senders run.
pub open spec fn idle_room(connections: nat) -> nat {
    connections * 2
}

/// Each connection keeps two idle ones open.
pub proof fn connections_add_two_idle_ones(connections: nat)
    ensures
        idle_room(0) == 0,
        idle_room(connections + 1) == idle_room(connections) + 2,
{
}

impl LoadConfig {
    /// How many signed transactions may wait between signers and senders.
    pub fn channel_capacity(&self) -> (capacity: usize)
        requires
            self.batch_size * self.connections * 4 <= usize::MAX,
        ensures
            capacity == self.batch_size * self.connections * 4,
            capacity == waiting_room(self.batch_size as nat, self.connections as nat),
    {
        self.batch_size * self.connections * 4
    }

    /// How many idle connections the client keeps open.
    pub fn idle_connections(&self) -> (count: usize)
        requires
            self.connections * 2 <= usize::MAX,
        ensures
            count == self.connections * 2,
            count == idle_room(self.connections as nat),
    {
        self.connections * 2
    }
}

/// One request of a batch: send transaction `b64` under the number `id`.
pub open spec fn request_text(id: nat, b64: Seq<char>) -> Seq<char> {
    "{\"jsonrpc\":\"2.0\",\"id\":"@ + decimal(id)
        + ",\"method\":\"sendTransaction\",\"params\":[\""@ + b64
        + "\",{\"encoding\":\"base64\",\"skipPreflight\":true}]}"@
}

/// The requests for the first `count` transactions, separated by commas.
pub open spec fn requests_text(txs: Seq<Seq<char>>, count: nat) -> Seq<char>
    decreases count,
{
    if count == 0 {
        Seq::<char>::empty()
    } else {
        let last = request_text((count - 1) as nat, txs[count - 1]);
        if count == 1 {
            last
        } else {
            requests_text(txs, (count - 1) as nat) + ","@ + last
        }
    }
}

/// A JSON-RPC batch that sends each transaction, numbered from zero.
pub open spec fn batch_text(txs: Seq<Seq<char>>) -> Seq<char> {
    "["@ + requests_text(txs, txs.len()) + "]"@
}

/// The body of a JSON-RPC batch that sends the transactions from `start` up
/// to `end`.
pub fn batch_body(txs: &Vec<String>, start: usize, end: usize) -> (body: String)
    requires
        start <= end <= txs@.len(),
    ensures
        body@ == batch_text(texts_view(txs@).subrange(start as int, end as int)),
{
    let ghost part = texts_view(txs@).subrange(start as int, end as int);
    let mut body = String::from_str("[");
    let mut i: usize = 0;
    assert(body@ =~= "["@ + requests_text(part, 0));
    while i < end - start
        invariant
            start <= end <= txs@.len(),
            i <= end - start,
            part == texts_view(txs@).subrange(start as int, end as int),
            body@ == "["@ + requests_text(part, i as nat),
        decreases end - start - i,
    {
        let ghost before = requests_text(part, i as nat);
        let b64 = &txs[start + i];
        assert(part[i as int] == b64@);
        if i > 0 {
            body.append(",");
        }
        body.append("{\"jsonrpc\":\"2.0\",\"id\":");
        let id = decimal_string(i as u64);
        body.append(id.as_str());
        body.append(",\"method\":\"sendTransaction\",\"params\":[\"");
        body.append(b64.as_str());
        body.append("\",{\"encoding\":\"base64\",\"skipPreflight\":true}]}");
        i = i + 1;
        assert(body@ =~= "["@ + requests_text(part, i as nat));
    }
    body.append("]");
    body
}

/// The part of a list of `len` transactions that a claim at `start` takes: up
/// to `batch_size` of them, or none once all are claimed.
pub open spec fn claimed(start: nat, batch_size: nat, len: nat) -> Option<(nat, nat)> {
    if start >= len {
        None
    } else if start + batch_size < len {
        Some((start, start + batch_size))
    } else {
        Some((start, len))
    }
}

/// The batch that a sender claims when the shared cursor reads `start`: up to
/// `batch_size` transactions, or none once all `len` are claimed.
pub fn claim_batch(start: usize, batch_size: usize, len: usize) -> (batch: Option<(usize, usize)>)
    requires
        start + batch_size <= usize::MAX,
    ensures
        match claimed(start as nat, batch_size as nat, len as nat) {
            Some((from, upto)) => batch == Some((from as usize, upto as usize)),
            None => batch is None,
        },
{
    if start >= len {
        return None;
    }
    let end: usize = start + batch_size;
    if end < len {
        Some((start, end))
    } else {
        Some((start, len))
    }
}

/// Senders whose cursor moves on by one batch at each claim send every
/// transaction once: claim number `k` is chunk `k` of the list.
pub proof fn claims_are_chunks(k: nat, batch_size: nat, len: nat)
    requires
        batch_size > 0,
    ensures
        claimed(k * batch_size, batch_size, len) == if chunk_start(k, batch_size) < len {
            Some((chunk_start(k, batch_size), chunk_end(k, batch_size, len)))
        } else {
            None
        },
{
    assert((k + 1) * batch_size == k * batch_size + batch_size) by (nonlinear_arith);
}

/// Whether a sender goes on: it has received something, and the run has not
/// been stopped.
pub fn sender_goes_on(received: usize, stopped: bool) -> (goes_on: bool)
    ensures
        goes_on == (received > 0 && !stopped),
{
    received != 0 && !stopped
}

/// How many flags are set.
pub open spec fn count_set(flags: Seq<bool>) -> nat
    decreases flags.len(),
{
    if flags.len() == 0 {
        0
    } else {
        count_set(flags.drop_last()) + if flags.last() {
            1nat
        } else {
            0nat
        }
    }
}

/// Counts the replies of a batch: one flag per reply, set where it has a
/// result.
pub fn tally_replies(results: &Vec<bool>) -> (outcome: BatchOutcome)
    ensures
        outcome.accepted == count_set(results@),
        outcome.errors == results@.len() - count_set(results@),
{
    let mut accepted: u64 = 0;
    let mut i: usize = 0;
    while i < results.len()
        invariant
            i <= results@.len(),
            accepted == count_set(results@.take(i as int)),
            accepted <= i,
        decreases results@.len() - i,
    {
        assert(results@.take(i + 1).drop_last() =~= results@.take(i as int));
        if results[i] {
            accepted = accepted + 1;
        }
        i = i + 1;
    }
    assert(results@.take(i as int) =~= results@);
    BatchOutcome { accepted, errors: results.len() as u64 - accepted }
}

/// The outcome of a batch that got no usable reply: every transaction failed.
pub fn failed_batch(transactions: usize) -> (outcome: BatchOutcome)
    ensures
        outcome.accepted == 0,
        outcome.errors == transactions,
{
    BatchOutcome { accepted: 0, errors: transactions as u64 }
}

/// For each reply of a batch, whether it has a result.
pub open spec fn result_flags(members: Seq<Set<Seq<char>>>) -> Seq<bool> {
    members.map_values(|names: Set<Seq<char>>| names.contains("result"@))
}

/// For each entry of a JSON array, whether it has a member `result`; nothing
/// for a body that is no JSON array.
pub fn reply_results(body: &[u8]) -> (results: Option<Vec<bool>>)
    ensures
        match json_array_members(body@) {
            Some(members) => results is Some && results->Some_0@ == result_flags(members)
                && forall|k: int|
                0 <= k < members.len() ==> (#[trigger] results->Some_0@[k] <==> members[k].contains(
                    "result"@,
                )),
            None => results is None,
        },
{
    let entries = match parse_json_array(body) {
        Some(entries) => entries,
        None => return None,
    };
    let ghost members = entries@.map_values(|value: serde_json::Value| member_names(value));
    let mut results: Vec<bool> = Vec::with_capacity(entries.len());
    while results.len() < entries.len()
        invariant
            members == entries@.map_values(|value: serde_json::Value| member_names(value)),
            results@.len() <= entries@.len(),
            results@ == result_flags(members).take(results@.len() as int),
        decreases entries@.len() - results@.len(),
    {
        let i: usize = results.len();
        let found = has_member(&entries[i], "result");
        assert(found == result_flags(members)[i as int]);
        results.push(found);
        assert(results@ =~= result_flags(members).take(results@.len() as int));
    }
    assert(results@ =~= result_flags(members));
    Some(results)
}

/// Whether `outcome` is what a reply says of a batch of `transactions`, given
/// the members of its entries if it is an array: an array is counted entry by
/// entry, anything else means that the whole batch failed.
pub open spec fn is_outcome(
    members: Option<Seq<Set<Seq<char>>>>,
    transactions: nat,
    outcome: BatchOutcome,
) -> bool {
    match members {
        Some(entries) => outcome.accepted == count_set(result_flags(entries)) && outcome.errors
            == entries.len() - count_set(result_flags(entries)),
        None => outcome.accepted == 0 && outcome.errors == transactions,
    }
}

/// What the body of a reply says of a batch of `transactions`: an array is
/// counted entry by entry, anything else means that the batch failed.
pub fn reply_outcome(body: &[u8], transactions: usize) -> (outcome: BatchOutcome)
    ensures
        is_outcome(json_array_members(body@), transactions as nat, outcome),
{
    match reply_results(body) {
        Some(results) => tally_replies(&results),
        None => failed_batch(transactions),
    }
}

/// A reply that is no array, or an array with one entry per transaction,
/// covers the whole batch.
pub proof fn replies_cover_the_batch(
    members: Option<Seq<Set<Seq<char>>>>,
    transactions: nat,
    outcome: BatchOutcome,
)
    requires
        is_outcome(members, transactions, outcome),
        members matches Some(entries) ==> entries.len() == transactions,
    ensures
        outcome.accepted + outcome.errors == transactions,
{
}

/// What to do with a poll that must succeed before a deadline.
#[derive(Clone, Copy, Debug, PartialEq, Eq, Structural)]
pub enum PollStep {
    /// It has succeeded.
    Ready,
    /// Try again after a pause.
    Retry,
    /// The deadline has passed.
    GiveUp,
}

/// Judges one poll.
pub fn poll_step(succeeded: bool, before_deadline: bool) -> (step: PollStep)
    ensures
        step == if succeeded {
            PollStep::Ready
        } else if before_deadline {
            PollStep::Retry
        } else {
            PollStep::GiveUp
        },
{
    if succeeded {
        PollStep::Ready
    } else if before_deadline {
        PollStep::Retry
    } else {
        PollStep::GiveUp
    }
}

/// Milliseconds the latency probe rests after a transfer it tried to send.
pub const PROBE_PAUSE_MS: u64 = 200;

/// Milliseconds the latency probe rests when it could not get a blockhash.
pub const PROBE_BACKOFF_MS: u64 = 500;

/// How one round of the latency probe went.
#[derive(Clone, Copy, Debug, PartialEq, Eq, Structural)]
pub enum ProbeEvent {
    /// No blockhash could be had.
    NoBlockhash,
    /// The transfer could not be signed.
    NotSigned,
    /// The transfer was sent and refused.
    Refused,
    /// The transfer was executed.
    Executed,
}

/// What the latency probe does after a round.
#[derive(Clone, Copy, Debug, PartialEq, Eq, Structural)]
pub struct ProbeAction {
    pub record_latency: bool,
    pub pause_ms: u64,
}

/// The latency probe: it sends one transfer after the other on its own pair.
pub struct Probe {
    pub pair: usize,
    pub rounds: u64,
}

impl Probe {
    /// A probe on the pair that a shard reserves for it; none where the shard
    /// reserves no pair.
    pub fn new(shard: &Shard) -> (probe: Option<Probe>)
        ensures
            match probe {
                Some(p) => shard.reserved_pair() == Some(p.pair as nat) && p.rounds == 0 && 2
                    * p.pair + 1 <= usize::MAX,
                None => shard.reserved_pair() is None,
            },
    {
        match shard.probe_pair() {
            Some(pair) => Some(Probe { pair, rounds: 0 }),
            None => None,
        }
    }

    /// Begins a round and gives its transfer.
    pub fn next_transfer(&mut self) -> (transfer: Transfer)
        requires
            2 * old(self).pair + 1 <= usize::MAX,
            old(self).rounds < u64::MAX,
        ensures
            final(self).pair == old(self).pair,
            final(self).rounds == old(self).rounds + 1,
            transfer.is_just_in_time(old(self).pair as int, old(self).rounds + 1),
    {
        self.rounds = self.rounds + 1;
        Transfer::just_in_time(self.pair, self.rounds)
    }

    /// What follows a round: only an executed transfer yields a latency
    /// sample, and a transfer that could not be signed is skipped at once.
    pub fn after(event: ProbeEvent) -> (action: ProbeAction)
        ensures
            action.record_latency == (event == ProbeEvent::Executed),
            action.pause_ms == match event {
                ProbeEvent::NoBlockhash => PROBE_BACKOFF_MS,
                ProbeEvent::NotSigned => 0,
                ProbeEvent::Refused => PROBE_PAUSE_MS,
                ProbeEvent::Executed => PROBE_PAUSE_MS,
            },
    {
        match event {
            ProbeEvent::NoBlockhash => ProbeAction {
                record_latency: false,
                pause_ms: PROBE_BACKOFF_MS,
            },
            ProbeEvent::NotSigned => ProbeAction { record_latency: false, pause_ms: 0 },
            ProbeEvent::Refused => ProbeAction { record_latency: false, pause_ms: PROBE_PAUSE_MS },
            ProbeEvent::Executed => ProbeAction { record_latency: true, pause_ms: PROBE_PAUSE_MS },
        }
    }
}

/// How many accounts are read in one request.
pub const BALANCE_CHUNK: usize = 100;

/// Why balances could not be read.
#[derive(Clone, Copy, Debug, PartialEq, Eq, Structural)]
pub enum BalanceError {
    /// There is no account at this position.
    Missing(usize),
    /// The account at this position is no token account.
    Malformed(usize),
}

/// Whether an account was found and is a token account.
pub open spec fn has_balance(account: Option<Vec<u8>>) -> bool {
    account matches Some(data) && is_token_account(data@)
}

/// Whether `result` is what reading the given accounts comes to.
pub open spec fn is_reading(
    accounts: Seq<Option<Vec<u8>>>,
    result: Result<Vec<u64>, BalanceError>,
) -> bool {
    match result {
        Ok(balances) => {
            &&& balances@.len() == accounts.len()
            &&& forall|i: int|
                0 <= i < accounts.len() ==> has_balance(#[trigger] accounts[i]) && balances@[i]
                    == token_amount(accounts[i]->Some_0@)
        },
        Err(BalanceError::Missing(at)) => {
            &&& at < accounts.len()
            &&& accounts[at as int] is None
            &&& forall|i: int| 0 <= i < at ==> has_balance(#[trigger] accounts[i])
        },
        Err(BalanceError::Malformed(at)) => {
            &&& at < accounts.len()
            &&& accounts[at as int] is Some
            &&& !has_balance(accounts[at as int])
            &&& forall|i: int| 0 <= i < at ==> has_balance(#[trigger] accounts[i])
        },
    }
}

/// The amounts that the given accounts hold, or the first that holds none.
pub fn read_balances(accounts: &Vec<Option<Vec<u8>>>) -> (result: Result<Vec<u64>, BalanceError>)
    ensures
        is_reading(accounts@, result),
{
    let mut balances: Vec<u64> = Vec::with_capacity(accounts.len());
    while balances.len() < accounts.len()
        invariant
            balances@.len() <= accounts@.len(),
            forall|i: int|
                0 <= i < balances@.len() ==> has_balance(#[trigger] accounts@[i]) && balances@[i]
                    == token_amount(accounts@[i]->Some_0@),
        decreases accounts@.len() - balances@.len(),
    {
        let at: usize = balances.len();
        let data = match &accounts[at] {
            Some(data) => data,
            None => return Err(BalanceError::Missing(at)),
        };
        match unpack_token_amount(data.as_slice()) {
            Ok(amount) => balances.push(amount),
            Err(_) => return Err(BalanceError::Malformed(at)),
        }
    }
    Ok(balances)
}

/// What the two accounts of a pair hold together.
pub open spec fn pair_sum(balances: Seq<u64>, pair: int) -> int {
    balances[2 * pair] + balances[2 * pair + 1]
}

/// For each pair, whether its sum is the same in both readings.
pub open spec fn conserved(baseline: Seq<u64>, after: Seq<u64>, pairs: nat) -> Seq<bool> {
    Seq::new(pairs, |p: int| pair_sum(baseline, p) == pair_sum(after, p))
}

/// For each pair, whether its first account's balance has changed.
pub open spec fn moved(baseline: Seq<u64>, after: Seq<u64>, pairs: nat) -> Seq<bool> {
    Seq::new(pairs, |p: int| after[2 * p] != baseline[2 * p])
}

/// A pair whose sum has changed.
#[derive(Clone, Copy, Debug, PartialEq, Eq, Structural)]
pub struct BrokenPair {
    pub pair: usize,
    pub before: u128,
    pub now: u128,
}

/// What a comparison of balances found.
pub struct Verification {
    /// Pairs whose sum is unchanged.
    pub ok: usize,
    /// Pairs whose sum has changed.
    pub failed: usize,
    /// Pairs whose split has moved.
    pub changed: usize,
    /// The first few pairs whose sum has changed.
    pub broken: Vec<BrokenPair>,
}

/// The readings cover different numbers of accounts.
#[derive(Clone, Copy, Debug, PartialEq, Eq, Structural)]
pub struct CountMismatch {
    pub baseline: usize,
    pub after: usize,
}

/// How many broken pairs a [`Verification`] lists.
pub const BROKEN_PAIRS_LISTED: usize = 5;

/// The pairs among the first `pairs` whose sum has changed, in order.
pub open spec fn broken_pairs(baseline: Seq<u64>, after: Seq<u64>, pairs: nat) -> Seq<BrokenPair>
    decreases pairs,
{
    if pairs == 0 {
        Seq::<BrokenPair>::empty()
    } else {
        let rest = broken_pairs(baseline, after, (pairs - 1) as nat);
        let p = pairs - 1;
        if pair_sum(baseline, p) == pair_sum(after, p) {
            rest
        } else {
            rest.push(
                BrokenPair {
                    pair: p as usize,
                    before: pair_sum(baseline, p) as u128,
                    now: pair_sum(after, p) as u128,
                },
            )
        }
    }
}

/// Whether `found` is what comparing the balances of `pairs` pairs comes to.
pub open spec fn is_verification(
    baseline: Seq<u64>,
    after: Seq<u64>,
    pairs: nat,
    found: Verification,
) -> bool {
    &&& found.ok == count_set(conserved(baseline, after, pairs))
    &&& found.failed == pairs - count_set(conserved(baseline, after, pairs))
    &&& found.changed == count_set(moved(baseline, after, pairs))
    &&& found.broken@ == broken_pairs(baseline, after, pairs).take(
        if found.failed < BROKEN_PAIRS_LISTED {
            found.failed as int
        } else {
            BROKEN_PAIRS_LISTED as int
        },
    )
}

/// Verifies conservation: for every pair, the sum of the two balances must
/// equal the baseline sum. `changed` counts pairs whose split moved, proving
/// that transfers executed.
pub fn verify(shard: &Shard, baseline: &Vec<u64>, after: &Vec<u64>) -> (result: Result<
    Verification,
    CountMismatch,
>)
    requires
        baseline@.len() == after@.len() ==> 2 * shard.pair_count() <= after@.len(),
    ensures
        match result {
            Ok(found) => {
                &&& baseline@.len() == after@.len()
                &&& is_verification(baseline@, after@, shard.pair_count(), found)
                &&& found.failed == 0 <==> forall|p: int|
                    #![trigger baseline@[2 * p]]
                    0 <= p < shard.pair_count() ==> baseline@[2 * p] + baseline@[2 * p + 1]
                        == after@[2 * p] + after@[2 * p + 1]
            },
            Err(mismatch) => {
                &&& baseline@.len() != after@.len()
                &&& mismatch.baseline == baseline@.len()
                &&& mismatch.after == after@.len()
            },
        },
{
    if after.len() != baseline.len() {
        return Err(CountMismatch { baseline: baseline.len(), after: after.len() });
    }
    let pairs: usize = shard.pairs();
    let mut ok: usize = 0;
    let mut failed: usize = 0;
    let mut changed: usize = 0;
    let mut broken: Vec<BrokenPair> = Vec::new();
    let ghost same = conserved(baseline@, after@, pairs as nat);
    let ghost split = moved(baseline@, after@, pairs as nat);
    let mut p: usize = 0;
    while p < pairs
        invariant
            p <= pairs,
            2 * pairs <= baseline@.len(),
            2 * pairs <= usize::MAX,
            baseline@.len() == after@.len(),
            same == conserved(baseline@, after@, pairs as nat),
            split == moved(baseline@, after@, pairs as nat),
            ok == count_set(same.take(p as int)),
            ok + failed == p,
            changed == count_set(split.take(p as int)),
            changed <= p,
            broken_pairs(baseline@, after@, p as nat).len() == failed,
            broken@ == broken_pairs(baseline@, after@, p as nat).take(
                if failed < BROKEN_PAIRS_LISTED {
                    failed as int
                } else {
                    BROKEN_PAIRS_LISTED as int
                },
            ),
        decreases pairs - p,
    {
        let before: u128 = baseline[2 * p] as u128 + baseline[2 * p + 1] as u128;
        let now: u128 = after[2 * p] as u128 + after[2 * p + 1] as u128;
        proof {
            assert(same.take(p + 1).drop_last() =~= same.take(p as int));
            assert(split.take(p + 1).drop_last() =~= split.take(p as int));
            assert(same[p as int] == (before == now));
        }
        let ghost listed = broken_pairs(baseline@, after@, p as nat);
        if after[2 * p] != baseline[2 * p] {
            changed = changed + 1;
        }
        if before == now {
            ok = ok + 1;
        } else {
            failed = failed + 1;
            if failed <= BROKEN_PAIRS_LISTED {
                broken.push(BrokenPair { pair: p, before, now });
            }
        }
        p = p + 1;
        proof {
            assert(broken@ =~= broken_pairs(baseline@, after@, p as nat).take(
                if failed < BROKEN_PAIRS_LISTED {
                    failed as int
                } else {
                    BROKEN_PAIRS_LISTED as int
                },
            ));
        }
    }
    proof {
        assert(same.take(p as int) =~= same);
        assert(split.take(p as int) =~= split);
    }
    let found = Verification { ok, failed, changed, broken };
    proof {
        verifications_count_every_difference(baseline@, after@, pairs as nat, found);
        let differing = Set::new(
            |p: int|
                0 <= p < pairs && baseline@[2 * p] + baseline@[2 * p + 1] != after@[2 * p]
                    + after@[2 * p + 1],
        );
        if forall|p: int|
            #![trigger baseline@[2 * p]]
            0 <= p < pairs ==> baseline@[2 * p] + baseline@[2 * p + 1] == after@[2 * p]
                + after@[2 * p + 1] {
            assert forall|p: int| !differing.contains(p) by {
                if 0 <= p < pairs {
                    assert(baseline@[2 * p] + baseline@[2 * p + 1] == after@[2 * p] + after@[2 * p
                        + 1]);
                }
            }
            assert(differing =~= Set::<int>::empty());
        }
    }
    Ok(found)
}

/// Balances after one transfer that its sender can afford and its receiver
/// can hold; any other leaves them as they were.
pub open spec fn transferred(balances: Seq<u64>, transfer: Transfer) -> Seq<u64> {
    let (from, to) = (transfer.from as int, transfer.to as int);
    if balances[from] >= transfer.amount && balances[to] + transfer.amount <= u64::MAX {
        balances.update(from, (balances[from] - transfer.amount) as u64).update(
            to,
            (balances[to] + transfer.amount) as u64,
        )
    } else {
        balances
    }
}

/// Balances after a run of transfers.
pub open spec fn all_transferred(balances: Seq<u64>, transfers: Seq<Transfer>) -> Seq<u64>
    decreases transfers.len(),
{
    if transfers.len() == 0 {
        balances
    } else {
        transferred(all_transferred(balances, transfers.drop_last()), transfers.last())
    }
}

/// Whether a transfer stays within one of the first `pairs` pairs.
pub open spec fn stays_in_pair(transfer: Transfer, pairs: nat) -> bool {
    exists|pair: int, forward: bool| #[trigger]
        transfer.moves(pair, forward, transfer.amount as int) && 0 <= pair < pairs
}

/// Every transfer that the benchmark makes stays within a pair of its shard:
/// those of a pre-signed run, those signed just in time or by the probe on a
/// pair of the shard, and those that warm a pair up.
pub proof fn transfers_stay_in_pairs(
    shard: Shard,
    transfer: Transfer,
    index: int,
    pair: int,
    counter: int,
)
    requires
        shard.pair_count() >= 1,
        ({
            ||| 0 <= index && transfer.is_presigned(index, shard.load_pair_count() as int)
            ||| 0 <= pair < shard.pair_count() && transfer.is_just_in_time(pair, counter)
            ||| 0 <= pair < shard.pair_count() && transfer.moves(pair, true, 1)
        }),
    ensures
        stays_in_pair(transfer, shard.pair_count()),
{
    let pairs = shard.load_pair_count() as int;
    let amount = transfer.amount as int;
    if 0 <= index && transfer.is_presigned(index, pairs) {
        assert(0 <= index % pairs < pairs);
        assert(transfer.moves(index % pairs, (index / pairs) % 2 == 0, amount));
    } else if transfer.is_just_in_time(pair, counter) {
        assert(transfer.moves(pair, counter % 2 == 0, amount));
    } else {
        assert(transfer.moves(pair, true, amount));
    }
}

/// Transfers within pairs conserve every pair's sum, whichever of them
/// execute: a verification afterwards finds no failed pair.
pub proof fn transfers_conserve_pairs(baseline: Seq<u64>, transfers: Seq<Transfer>, pairs: nat)
    requires
        2 * pairs <= baseline.len(),
        forall|i: int|
            0 <= i < transfers.len() ==> stays_in_pair(#[trigger] transfers[i], pairs),
    ensures
        all_transferred(baseline, transfers).len() == baseline.len(),
        forall|p: int|
            0 <= p < pairs ==> #[trigger] pair_sum(all_transferred(baseline, transfers), p)
                == pair_sum(baseline, p),
        count_set(conserved(baseline, all_transferred(baseline, transfers), pairs)) == pairs,
    decreases transfers.len(),
{
    let after = all_transferred(baseline, transfers);
    if transfers.len() > 0 {
        let fewer = transfers.drop_last();
        assert forall|i: int| 0 <= i < fewer.len() implies stays_in_pair(
            #[trigger] fewer[i],
            pairs,
        ) by {
            assert(fewer[i] == transfers[i]);
        }
        transfers_conserve_pairs(baseline, fewer, pairs);
        let mid = all_transferred(baseline, fewer);
        let last = transfers.last();
        assert(stays_in_pair(transfers[transfers.len() - 1], pairs));
        let (pair, forward) = choose|pair: int, forward: bool| #[trigger]
            last.moves(pair, forward, last.amount as int) && 0 <= pair < pairs;
        assert forall|p: int| 0 <= p < pairs implies #[trigger] pair_sum(after, p) == pair_sum(
            baseline,
            p,
        ) by {
            assert(pair_sum(mid, p) == pair_sum(baseline, p));
        }
    }
    let flags = conserved(baseline, after, pairs);
    assert forall|p: int| 0 <= p < flags.len() implies flags[p] by {
        assert(pair_sum(after, p) == pair_sum(baseline, p));
    }
    all_set_counts_all(flags);
}

/// Where every flag is set, all of them count.
proof fn all_set_counts_all(flags: Seq<bool>)
    requires
        forall|i: int| 0 <= i < flags.len() ==> flags[i],
    ensures
        count_set(flags) == flags.len(),
    decreases flags.len(),
{
    if flags.len() > 0 {
        all_set_counts_all(flags.drop_last());
    }
}

/// As many flags count as there are places whose flag is set.
proof fn set_flags_are_counted(flags: Seq<bool>, set: Set<int>)
    requires
        forall|k: int| #[trigger] set.contains(k) <==> 0 <= k < flags.len() && flags[k],
    ensures
        set.finite(),
        set.len() == count_set(flags),
    decreases flags.len(),
{
    if flags.len() == 0 {
        assert(set =~= Set::<int>::empty());
    } else {
        let n = flags.len() - 1;
        let fewer = set.remove(n);
        assert forall|k: int| #[trigger] fewer.contains(k) <==> 0 <= k < flags.drop_last().len()
            && flags.drop_last()[k] by {
            assert(set.contains(k) <==> 0 <= k < flags.len() && flags[k]);
        }
        set_flags_are_counted(flags.drop_last(), fewer);
        assert(set.contains(n) <==> flags[n]);
        if flags[n] {
            assert(set =~= fewer.insert(n));
        } else {
            assert(set =~= fewer);
        }
    }
}

/// As many flags do not count as there are places whose flag is not set.
proof fn unset_flags_are_counted(flags: Seq<bool>, set: Set<int>)
    requires
        forall|k: int| #[trigger] set.contains(k) <==> 0 <= k < flags.len() && !flags[k],
    ensures
        set.finite(),
        set.len() == flags.len() - count_set(flags),
    decreases flags.len(),
{
    if flags.len() == 0 {
        assert(set =~= Set::<int>::empty());
    } else {
        let n = flags.len() - 1;
        let fewer = set.remove(n);
        assert forall|k: int| #[trigger] fewer.contains(k) <==> 0 <= k < flags.drop_last().len()
            && !flags.drop_last()[k] by {
            assert(set.contains(k) <==> 0 <= k < flags.len() && !flags[k]);
        }
        unset_flags_are_counted(flags.drop_last(), fewer);
        assert(set.contains(n) <==> !flags[n]);
        if !flags[n] {
            assert(set =~= fewer.insert(n));
        } else {
            assert(set =~= fewer);
        }
    }
}

/// A tally accepts as many replies as have their flag set, and counts every
/// other as an error.
pub proof fn tallies_count_the_set_flags(flags: Seq<bool>)
    ensures
        count_set(flags) == Set::new(|k: int| 0 <= k < flags.len() && flags[k]).len(),
        flags.len() - count_set(flags) == Set::new(
            |k: int| 0 <= k < flags.len() && !flags[k],
        ).len(),
{
    set_flags_are_counted(flags, Set::new(|k: int| 0 <= k < flags.len() && flags[k]));
    unset_flags_are_counted(flags, Set::new(|k: int| 0 <= k < flags.len() && !flags[k]));
}

/// An entry of a reply is accepted exactly if it has a member `result`,
/// whatever other members it has.
pub proof fn only_results_are_accepted(entries: Seq<Set<Seq<char>>>, k: int)
    requires
        0 <= k < entries.len(),
    ensures
        result_flags(entries).len() == entries.len(),
        result_flags(entries)[k] <==> entries[k].contains("result"@),
{
}

/// Of a reply that is an array, as many transactions are accepted as it has
/// entries with a member `result`, and as many failed as it has entries
/// without one; of any other reply, all of the batch failed.
pub proof fn outcomes_count_entries_with_a_result(
    members: Option<Seq<Set<Seq<char>>>>,
    transactions: nat,
    outcome: BatchOutcome,
)
    requires
        is_outcome(members, transactions, outcome),
    ensures
        match members {
            Some(entries) => {
                &&& outcome.accepted == Set::new(
                    |k: int| 0 <= k < entries.len() && entries[k].contains("result"@),
                ).len()
                &&& outcome.errors == Set::new(
                    |k: int| 0 <= k < entries.len() && !entries[k].contains("result"@),
                ).len()
                &&& outcome.accepted + outcome.errors == entries.len()
            },
            None => outcome.accepted == 0 && outcome.errors == transactions,
        },
{
    if let Some(entries) = members {
        let flags = result_flags(entries);
        let with = Set::new(|k: int| 0 <= k < entries.len() && entries[k].contains("result"@));
        let without = Set::new(|k: int| 0 <= k < entries.len() && !entries[k].contains("result"@));
        assert forall|k: int| #[trigger] with.contains(k) <==> 0 <= k < flags.len() && flags[k] by {
            if 0 <= k < entries.len() {
                only_results_are_accepted(entries, k);
            }
        }
        assert forall|k: int| #[trigger] without.contains(k) <==> 0 <= k < flags.len()
            && !flags[k] by {
            if 0 <= k < entries.len() {
                only_results_are_accepted(entries, k);
            }
        }
        set_flags_are_counted(flags, with);
        unset_flags_are_counted(flags, without);
    }
}

/// A batch begins with a bracket and ends with one. One more transaction adds
/// one request behind the others and a comma between: its number is how many
/// came before it.
pub proof fn batches_grow_by_one_request(txs: Seq<Seq<char>>, tx: Seq<char>)
    ensures
        batch_text(Seq::<Seq<char>>::empty()) == "["@ + "]"@,
        batch_text(txs.push(tx)) == batch_text(txs).drop_last() + (if txs.len() == 0 {
            Seq::<char>::empty()
        } else {
            ","@
        }) + "{\"jsonrpc\":\"2.0\",\"id\":"@ + decimal(txs.len())
            + ",\"method\":\"sendTransaction\",\"params\":[\""@ + tx
            + "\",{\"encoding\":\"base64\",\"skipPreflight\":true}]}"@ + "]"@,
{
    reveal_strlit("]");
    let more = txs.push(tx);
    same_requests(txs, more, txs.len());
    assert(batch_text(txs).drop_last() =~= "["@ + requests_text(txs, txs.len()));
    assert(batch_text(Seq::<Seq<char>>::empty()) =~= "["@ + "]"@);
    assert(more[more.len() - 1] == tx);
    assert(batch_text(more) =~= batch_text(txs).drop_last() + (if txs.len() == 0 {
        Seq::<char>::empty()
    } else {
        ","@
    }) + "{\"jsonrpc\":\"2.0\",\"id\":"@ + decimal(txs.len())
        + ",\"method\":\"sendTransaction\",\"params\":[\""@ + tx
        + "\",{\"encoding\":\"base64\",\"skipPreflight\":true}]}"@ + "]"@);
}

/// Requests depend on their own transactions alone.
proof fn same_requests(a: Seq<Seq<char>>, b: Seq<Seq<char>>, count: nat)
    requires
        count <= a.len() <= b.len(),
        forall|k: int| 0 <= k < count ==> a[k] == b[k],
    ensures
        requests_text(a, count) == requests_text(b, count),
    decreases count,
{
    if count > 0 {
        same_requests(a, b, (count - 1) as nat);
    }
}

/// A claim takes what lies at the cursor: as much as a batch holds or, at the
/// end, what is left, and never anything outside the list. The next claim goes
/// on where it ends, so nothing is left out or taken twice.
pub proof fn claims_follow_one_another(start: nat, batch_size: nat, len: nat)
    ensures
        start >= len ==> claimed(start, batch_size, len) is None,
        start < len ==> (claimed(start, batch_size, len) matches Some((from, upto)) && from == start
            && upto <= len && upto <= start + batch_size && (upto == len || upto == start
            + batch_size)),
{
}

/// A reading gives, place by place, the amount in bytes 64 to 71 of the
/// account at that place, all of which are there and are token accounts.
/// Otherwise it names the first account that is missing or is none.
pub proof fn readings_go_place_by_place(
    accounts: Seq<Option<Vec<u8>>>,
    result: Result<Vec<u64>, BalanceError>,
    i: int,
)
    requires
        is_reading(accounts, result),
        0 <= i < accounts.len(),
    ensures
        result matches Ok(balances) ==> balances@.len() == accounts.len() && accounts[i] is Some
            && is_token_account(accounts[i]->Some_0@) && balances@[i] == crate::bytes::le_value(
            accounts[i]->Some_0@.subrange(64, 72),
        ),
        result matches Err(BalanceError::Missing(at)) ==> accounts[at as int] is None && (i < at
            ==> accounts[i] is Some && is_token_account(accounts[i]->Some_0@)),
        result matches Err(BalanceError::Malformed(at)) ==> accounts[at as int] is Some
            && !is_token_account(accounts[at as int]->Some_0@) && (i < at ==> accounts[i] is Some
            && is_token_account(accounts[i]->Some_0@)),
{
}

/// Pair `p` has lost or gained: its two balances add up to another sum than
/// before.
pub open spec fn sum_differs(baseline: Seq<u64>, after: Seq<u64>, p: int) -> bool {
    baseline[2 * p] + baseline[2 * p + 1] != after[2 * p] + after[2 * p + 1]
}

/// The list of broken pairs is in order, and holds a pair exactly if its sum
/// differs, with both sums.
proof fn broken_pairs_are_listed(baseline: Seq<u64>, after: Seq<u64>, pairs: nat)
    requires
        pairs <= usize::MAX,
    ensures
        broken_pairs(baseline, after, pairs).len() == pairs - count_set(
            conserved(baseline, after, pairs),
        ),
        forall|k: int|
            0 <= k < broken_pairs(baseline, after, pairs).len() ==> {
                let b = #[trigger] broken_pairs(baseline, after, pairs)[k];
                &&& b.pair < pairs
                &&& sum_differs(baseline, after, b.pair as int)
                &&& b.before == baseline[2 * b.pair] + baseline[2 * b.pair + 1]
                &&& b.now == after[2 * b.pair] + after[2 * b.pair + 1]
            },
        forall|j: int, k: int|
            0 <= j < k < broken_pairs(baseline, after, pairs).len() ==> (#[trigger] broken_pairs(
                baseline,
                after,
                pairs,
            )[j]).pair < (#[trigger] broken_pairs(baseline, after, pairs)[k]).pair,
        forall|p: int|
            0 <= p < pairs && #[trigger] sum_differs(baseline, after, p) ==> exists|k: int|
                0 <= k < broken_pairs(baseline, after, pairs).len() && (#[trigger] broken_pairs(
                    baseline,
                    after,
                    pairs,
                )[k]).pair == p,
    decreases pairs,
{
    let list = broken_pairs(baseline, after, pairs);
    let flags = conserved(baseline, after, pairs);
    if pairs > 0 {
        let last = pairs - 1;
        let rest = broken_pairs(baseline, after, last as nat);
        broken_pairs_are_listed(baseline, after, last as nat);
        assert(flags.drop_last() =~= conserved(baseline, after, last as nat));
        if sum_differs(baseline, after, last) {
            assert(list.len() == rest.len() + 1);
            assert(list[list.len() - 1].pair == last);
        }
        assert forall|p: int| 0 <= p < pairs && #[trigger] sum_differs(
            baseline,
            after,
            p,
        ) implies exists|k: int| 0 <= k < list.len() && (#[trigger] list[k]).pair == p by {
            if p < last {
                let k = choose|k: int| 0 <= k < rest.len() && (#[trigger] rest[k]).pair == p;
                assert(list[k] == rest[k]);
            } else {
                assert(list[list.len() - 1].pair == p);
            }
        }
        assert forall|k: int| 0 <= k < list.len() implies {
            let b = #[trigger] list[k];
            &&& b.pair < pairs
            &&& sum_differs(baseline, after, b.pair as int)
            &&& b.before == baseline[2 * b.pair] + baseline[2 * b.pair + 1]
            &&& b.now == after[2 * b.pair] + after[2 * b.pair + 1]
        } by {
            if k < rest.len() {
                assert(list[k] == rest[k]);
            }
        }
        assert forall|j: int, k: int| 0 <= j < k < list.len() implies (#[trigger] list[j]).pair < (
        #[trigger] list[k]).pair by {
            assert(list[j] == rest[j]);
            if k < rest.len() {
                assert(list[k] == rest[k]);
            }
        }
    }
}

/// A verification counts as failed exactly the pairs whose sum differs, up or
/// down, and as changed those whose first balance differs; all other pairs are
/// ok. Where nothing failed, every pair holds what it held.
pub proof fn verifications_count_every_difference(
    baseline: Seq<u64>,
    after: Seq<u64>,
    pairs: nat,
    found: Verification,
)
    requires
        is_verification(baseline, after, pairs, found),
    ensures
        found.failed == Set::new(
            |p: int|
                0 <= p < pairs && baseline[2 * p] + baseline[2 * p + 1] != after[2 * p] + after[2
                    * p + 1],
        ).len(),
        found.ok + found.failed == pairs,
        found.changed == Set::new(|p: int| 0 <= p < pairs && after[2 * p] != baseline[2 * p]).len(),
        found.failed == 0 ==> forall|p: int|
            #![trigger baseline[2 * p]]
            0 <= p < pairs ==> baseline[2 * p] + baseline[2 * p + 1] == after[2 * p] + after[2 * p
                + 1],
{
    let same = conserved(baseline, after, pairs);
    let split = moved(baseline, after, pairs);
    let differing = Set::new(
        |p: int|
            0 <= p < pairs && baseline[2 * p] + baseline[2 * p + 1] != after[2 * p] + after[2 * p
                + 1],
    );
    let changed = Set::new(|p: int| 0 <= p < pairs && after[2 * p] != baseline[2 * p]);
    unset_flags_are_counted(same, differing);
    set_flags_are_counted(split, changed);
    if found.failed == 0 {
        assert forall|p: int| #![trigger baseline[2 * p]] 0 <= p < pairs implies baseline[2 * p]
            + baseline[2 * p + 1] == after[2 * p] + after[2 * p + 1] by {
            if differing.contains(p) {
                vstd::set_lib::lemma_len_subset(set![p], differing);
                assert(set![p].len() == 1);
            }
        }
    }
}

/// A verification lists the first five pairs whose sum differs, in order and
/// with both sums: what it lists differs, and what differs is listed unless
/// five pairs before it are.
pub proof fn verifications_list_the_first_differences(
    baseline: Seq<u64>,
    after: Seq<u64>,
    pairs: nat,
    found: Verification,
)
    requires
        is_verification(baseline, after, pairs, found),
        pairs <= usize::MAX,
    ensures
        found.broken@.len() <= 5,
        found.broken@.len() == 5 || found.broken@.len() == found.failed,
        forall|k: int|
            0 <= k < found.broken@.len() ==> {
                let b = #[trigger] found.broken@[k];
                &&& b.pair < pairs
                &&& b.before == baseline[2 * b.pair] + baseline[2 * b.pair + 1]
                &&& b.now == after[2 * b.pair] + after[2 * b.pair + 1]
                &&& b.before != b.now
            },
        forall|j: int, k: int|
            0 <= j < k < found.broken@.len() ==> (#[trigger] found.broken@[j]).pair < (
            #[trigger] found.broken@[k]).pair,
        forall|p: int|
            #![trigger baseline[2 * p]]
            0 <= p < pairs && baseline[2 * p] + baseline[2 * p + 1] != after[2 * p] + after[2 * p
                + 1] ==> (exists|k: int|
                0 <= k < found.broken@.len() && (#[trigger] found.broken@[k]).pair == p) || (
            found.broken@.len() == 5 && forall|k: int|
                0 <= k < 5 ==> (#[trigger] found.broken@[k]).pair < p),
{
    let list = broken_pairs(baseline, after, pairs);
    broken_pairs_are_listed(baseline, after, pairs);
    let shown = found.broken@;
    assert forall|k: int| 0 <= k < shown.len() implies #[trigger] shown[k] == list[k] by {
    }
    assert forall|p: int|
        #![trigger baseline[2 * p]]
        0 <= p < pairs && baseline[2 * p] + baseline[2 * p + 1] != after[2 * p] + after[2 * p
            + 1] implies (exists|k: int| 0 <= k < shown.len() && (#[trigger] shown[k]).pair == p)
        || (shown.len() == 5 && forall|k: int| 0 <= k < 5 ==> (#[trigger] shown[k]).pair < p) by {
        assert(sum_differs(baseline, after, p));
        let k = choose|k: int| 0 <= k < list.len() && (#[trigger] list[k]).pair == p;
        if k < shown.len() {
            assert(shown[k].pair == p);
        } else {
            assert forall|m: int| 0 <= m < 5 implies (#[trigger] shown[m]).pair < p by {
                assert(list[m].pair < list[k].pair);
            }
        }
    }
}

} // verus!
