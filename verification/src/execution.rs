//! Carrying a plan out: rounds of sending, waiting for confirmations, and
//! funding the account that pays.
use crate::plan::PlannedTx;
use crate::setup::{ESCROW_LAMPORTS, LAMPORTS_PER_SOL};
use crate::text::{decimal, decimal_string};
use vstd::prelude::*;

verus! {

/// How many rounds a plan is given to be confirmed in.
pub const MAX_ROUNDS: u32 = 4;

/// Whether the transaction at `place` of a round was confirmed: it was sent,
/// and the first time it was, its confirmation came.
pub open spec fn is_confirmed(sent: Seq<usize>, confirmed: Seq<bool>, place: usize) -> bool {
    match sent.index_of_first(place) {
        Some(at) => confirmed[at],
        None => false,
    }
}

/// Which of the transactions `pending` in a round remain after it: those
/// among the first `upto` that were not confirmed.
pub open spec fn remaining(
    pending: Seq<usize>,
    sent: Seq<usize>,
    confirmed: Seq<bool>,
    upto: nat,
) -> Seq<usize>
    decreases upto,
{
    if upto == 0 {
        Seq::<usize>::empty()
    } else {
        let rest = remaining(pending, sent, confirmed, (upto - 1) as nat);
        if is_confirmed(sent, confirmed, (upto - 1) as usize) {
            rest
        } else {
            rest.push(pending[upto - 1])
        }
    }
}

/// What to do next with a plan.
#[derive(Clone, Copy, Debug, PartialEq, Eq, Structural)]
pub enum PlanStep {
    /// Sign and send everything pending, then report what was confirmed.
    Send,
    /// Everything is confirmed.
    Done,
    /// Some transactions are still unconfirmed after the last round.
    GiveUp,
}

/// A plan being carried out.
pub struct PlanRun {
    pub plan: Vec<PlannedTx>,
    /// The places in the plan of the transactions not confirmed yet.
    pub pending: Vec<usize>,
    /// How many rounds have been sent.
    pub rounds: u32,
}

/// The places of a list in order.
pub open spec fn places(len: nat) -> Seq<usize> {
    Seq::new(len, |i: int| i as usize)
}

impl PlanRun {
    /// What is pending are places of the plan, in order.
    pub open spec fn wf(self) -> bool {
        &&& self.rounds <= MAX_ROUNDS
        &&& forall|k: int|
            0 <= k < self.pending@.len() ==> (#[trigger] self.pending@[k]) < self.plan@.len()
        &&& forall|j: int, k: int|
            0 <= j < k < self.pending@.len() ==> (#[trigger] self.pending@[j]) < (
            #[trigger] self.pending@[k])
    }

    /// A plan of which nothing has been sent.
    pub fn new(plan: Vec<PlannedTx>) -> (run: Self)
        ensures
            run.wf(),
            run.plan@ == plan@,
            run.pending@ == places(plan@.len()),
            run.rounds == 0,
    {
        let mut pending: Vec<usize> = Vec::with_capacity(plan.len());
        while pending.len() < plan.len()
            invariant
                pending@.len() <= plan@.len(),
                forall|i: int| 0 <= i < pending@.len() ==> #[trigger] pending@[i] == i,
            decreases plan@.len() - pending@.len(),
        {
            pending.push(pending.len());
        }
        assert(pending@ =~= places(plan@.len()));
        PlanRun { plan, pending, rounds: 0 }
    }

    /// What is to be done next.
    pub open spec fn step(self) -> PlanStep {
        if self.pending@.len() == 0 {
            PlanStep::Done
        } else if self.rounds < MAX_ROUNDS {
            PlanStep::Send
        } else {
            PlanStep::GiveUp
        }
    }

    /// What is to be done next: send again while something is pending and
    /// rounds are left.
    pub fn next_step(&self) -> (step: PlanStep)
        ensures
            step == self.step(),
    {
        if self.pending.len() == 0 {
            PlanStep::Done
        } else if self.rounds < MAX_ROUNDS {
            PlanStep::Send
        } else {
            PlanStep::GiveUp
        }
    }

    /// Takes in the outcome of a round: `sent` holds the places among the
    /// pending transactions that could be sent, and `confirmed` tells for each
    /// whether it was confirmed. What was not confirmed stays pending.
    pub fn settle(&mut self, sent: &Vec<usize>, confirmed: &Vec<bool>)
        requires
            old(self).wf(),
            old(self).step() == PlanStep::Send,
            sent@.len() == confirmed@.len(),
        ensures
            final(self).wf(),
            final(self).plan@ == old(self).plan@,
            final(self).rounds == old(self).rounds + 1,
            final(self).pending@ == remaining(
                old(self).pending@,
                sent@,
                confirmed@,
                old(self).pending@.len(),
            ),
            forall|k: int|
                0 <= k < sent@.len() && #[trigger] sent@[k] < old(self).pending@.len() && (forall|
                    j: int,
                |
                    0 <= j < k ==> sent@[j] != sent@[k]) ==> (final(self).pending@.contains(
                    old(self).pending@[sent@[k] as int],
                ) <==> !confirmed@[k]),
    {
        let mut kept: Vec<usize> = Vec::new();
        let mut place: usize = 0;
        let ghost pending = self.pending@;
        while place < self.pending.len()
            invariant
                place <= self.pending@.len(),
                pending == self.pending@,
                self.wf(),
                sent@.len() == confirmed@.len(),
                kept@ == remaining(pending, sent@, confirmed@, place as nat),
                forall|k: int|
                    0 <= k < kept@.len() ==> (#[trigger] kept@[k]) < self.plan@.len(),
                place < pending.len() ==> forall|k: int|
                    0 <= k < kept@.len() ==> (#[trigger] kept@[k]) < pending[place as int],
                forall|j: int, k: int|
                    0 <= j < k < kept@.len() ==> (#[trigger] kept@[j]) < (#[trigger] kept@[k]),
            decreases self.pending@.len() - place,
        {
            let done = was_confirmed(sent, confirmed, place);
            if !done {
                kept.push(self.pending[place]);
            }
            proof {
                if place + 1 < pending.len() {
                    assert(pending[place as int] < pending[place + 1]);
                }
            }
            place = place + 1;
        }
        proof {
            rounds_keep_exactly_what_was_not_confirmed(pending, sent@, confirmed@);
        }
        self.pending = kept;
        self.rounds = self.rounds + 1;
    }

    /// The line that reports a round after which transactions are left.
    pub fn retry_line(&self, label: &str) -> (line: String)
        ensures
            line@ == "[setup:"@ + label@ + "] attempt "@ + decimal(self.rounds as nat) + ": "@
                + decimal(self.pending@.len()) + "/"@ + decimal(self.plan@.len())
                + " txs unconfirmed, retrying"@,
    {
        let mut line = String::from_str("[setup:");
        line.append(label);
        line.append("] attempt ");
        line.append(decimal_string(self.rounds as u64).as_str());
        line.append(": ");
        line.append(decimal_string(self.pending.len() as u64).as_str());
        line.append("/");
        line.append(decimal_string(self.plan.len() as u64).as_str());
        line.append(" txs unconfirmed, retrying");
        line
    }

    /// The line that reports how the plan ended: an error where transactions
    /// are left.
    pub fn outcome(&self, label: &str) -> (result: Result<String, String>)
        ensures
            match result {
                Ok(line) => self.pending@.len() == 0 && line@ == "[setup:"@ + label@ + "] "@
                    + decimal(self.plan@.len()) + " txs confirmed"@,
                Err(line) => self.pending@.len() > 0 && line@ == "[setup:"@ + label@ + "] "@
                    + decimal(self.pending@.len()) + " of "@ + decimal(self.plan@.len())
                    + " txs failed after retries"@,
            },
    {
        let mut line = String::from_str("[setup:");
        line.append(label);
        line.append("] ");
        if self.pending.len() > 0 {
            line.append(decimal_string(self.pending.len() as u64).as_str());
            line.append(" of ");
            line.append(decimal_string(self.plan.len() as u64).as_str());
            line.append(" txs failed after retries");
            Err(line)
        } else {
            line.append(decimal_string(self.plan.len() as u64).as_str());
            line.append(" txs confirmed");
            Ok(line)
        }
    }
}

/// Whether the transaction at `place` of a round was confirmed.
fn was_confirmed(sent: &Vec<usize>, confirmed: &Vec<bool>, place: usize) -> (done: bool)
    requires
        sent@.len() == confirmed@.len(),
    ensures
        done == is_confirmed(sent@, confirmed@, place),
{
    let mut at: usize = 0;
    while at < sent.len()
        invariant
            at <= sent@.len(),
            sent@.len() == confirmed@.len(),
            forall|k: int| 0 <= k < at ==> sent@[k] != place,
        decreases sent@.len() - at,
    {
        if sent[at] == place {
            proof {
                sent@.index_of_first_ensures(place);
            }
            return confirmed[at];
        }
        at = at + 1;
    }
    proof {
        sent@.index_of_first_ensures(place);
    }
    false
}

/// What one round reported: the places that were sent, and whether each was
/// confirmed.
pub struct Round {
    pub sent: Seq<usize>,
    pub confirmed: Seq<bool>,
}

/// What is pending in a plan of `len` transactions after some rounds.
pub open spec fn pending_after(len: nat, rounds: Seq<Round>) -> Seq<usize>
    decreases rounds.len(),
{
    if rounds.len() == 0 {
        places(len)
    } else {
        let pending = pending_after(len, rounds.drop_last());
        remaining(pending, rounds.last().sent, rounds.last().confirmed, pending.len())
    }
}

/// Whether transaction `tx` was pending in round `r` and confirmed in it.
pub open spec fn confirmed_in(len: nat, rounds: Seq<Round>, r: int, tx: usize) -> bool {
    let pending = pending_after(len, rounds.take(r));
    exists|k: int|
        0 <= k < pending.len() && #[trigger] pending[k] == tx && is_confirmed(
            rounds[r].sent,
            rounds[r].confirmed,
            k as usize,
        )
}

/// What remains of the first `upto` pending transactions are the ones among
/// them that were not confirmed.
proof fn remaining_holds(
    pending: Seq<usize>,
    sent: Seq<usize>,
    confirmed: Seq<bool>,
    upto: nat,
    tx: usize,
)
    requires
        upto <= pending.len(),
    ensures
        remaining(pending, sent, confirmed, upto).contains(tx) <==> exists|k: int|
            0 <= k < upto && #[trigger] pending[k] == tx && !is_confirmed(
                sent,
                confirmed,
                k as usize,
            ),
    decreases upto,
{
    if upto > 0 {
        let rest = remaining(pending, sent, confirmed, (upto - 1) as nat);
        let all = remaining(pending, sent, confirmed, upto);
        remaining_holds(pending, sent, confirmed, (upto - 1) as nat, tx);
        if !is_confirmed(sent, confirmed, (upto - 1) as usize) {
            assert(all == rest.push(pending[upto - 1]));
            if rest.contains(tx) {
                let k = choose|k: int| 0 <= k < rest.len() && rest[k] == tx;
                assert(all[k] == tx);
            }
            if pending[upto - 1] == tx {
                assert(all[all.len() - 1] == tx);
            }
            if all.contains(tx) {
                let k = choose|k: int| 0 <= k < all.len() && all[k] == tx;
                if k < rest.len() {
                    assert(rest[k] == tx);
                } else {
                    assert(pending[upto - 1] == tx);
                }
            }
        }
    }
}

/// Nothing is pending twice.
proof fn remaining_is_ordered(
    pending: Seq<usize>,
    sent: Seq<usize>,
    confirmed: Seq<bool>,
    upto: nat,
)
    requires
        upto <= pending.len(),
        forall|j: int, k: int|
            0 <= j < k < pending.len() ==> (#[trigger] pending[j]) < (#[trigger] pending[k]),
    ensures
        forall|j: int, k: int|
            0 <= j < k < remaining(pending, sent, confirmed, upto).len() ==> (
            #[trigger] remaining(pending, sent, confirmed, upto)[j]) < (#[trigger] remaining(
                pending,
                sent,
                confirmed,
                upto,
            )[k]),
        forall|j: int|
            0 <= j < remaining(pending, sent, confirmed, upto).len() ==> upto > 0 && (
            #[trigger] remaining(pending, sent, confirmed, upto)[j]) <= pending[upto - 1],
    decreases upto,
{
    if upto > 0 {
        remaining_is_ordered(pending, sent, confirmed, (upto - 1) as nat);
        let rest = remaining(pending, sent, confirmed, (upto - 1) as nat);
        let all = remaining(pending, sent, confirmed, upto);
        assert forall|j: int| 0 <= j < rest.len() implies (#[trigger] rest[j]) < pending[upto
            - 1] by {
            assert(pending[upto - 2] < pending[upto - 1]);
        }
        if !is_confirmed(sent, confirmed, (upto - 1) as usize) {
            assert(all == rest.push(pending[upto - 1]));
        } else {
            assert(all == rest);
        }
    }
}

/// What is pending is in order, so nothing is pending twice.
proof fn pending_is_ordered(len: nat, rounds: Seq<Round>)
    requires
        len <= usize::MAX,
    ensures
        forall|j: int, k: int|
            0 <= j < k < pending_after(len, rounds).len() ==> (#[trigger] pending_after(
                len,
                rounds,
            )[j]) < (#[trigger] pending_after(len, rounds)[k]),
    decreases rounds.len(),
{
    if rounds.len() > 0 {
        pending_is_ordered(len, rounds.drop_last());
        let pending = pending_after(len, rounds.drop_last());
        remaining_is_ordered(
            pending,
            rounds.last().sent,
            rounds.last().confirmed,
            pending.len(),
        );
    }
}

/// A transaction is pending exactly until it is confirmed: whatever was
/// confirmed is not sent again, and nothing else is dropped. So a plan with
/// nothing pending has had every transaction confirmed.
pub proof fn transactions_are_pending_until_confirmed(len: nat, rounds: Seq<Round>, tx: usize)
    requires
        len <= usize::MAX,
    ensures
        pending_after(len, rounds).contains(tx) <==> tx < len && forall|r: int|
            0 <= r < rounds.len() ==> !#[trigger] confirmed_in(len, rounds, r, tx),
    decreases rounds.len(),
{
    if rounds.len() == 0 {
        if tx < len {
            assert(places(len)[tx as int] == tx);
        }
    } else {
        let fewer = rounds.drop_last();
        let last = rounds.last();
        let n = rounds.len() - 1;
        transactions_are_pending_until_confirmed(len, fewer, tx);
        pending_is_ordered(len, fewer);
        let pending = pending_after(len, fewer);
        remaining_holds(pending, last.sent, last.confirmed, pending.len(), tx);
        assert(rounds.take(n) =~= fewer);
        assert forall|r: int| 0 <= r < n implies #[trigger] confirmed_in(len, rounds, r, tx)
            == confirmed_in(len, fewer, r, tx) by {
            assert(rounds.take(r) =~= fewer.take(r));
        }
        if pending.contains(tx) {
            let k = choose|k: int| 0 <= k < pending.len() && pending[k] == tx;
            if confirmed_in(len, rounds, n, tx) {
                let m = choose|m: int|
                    0 <= m < pending.len() && #[trigger] pending[m] == tx && is_confirmed(
                        last.sent,
                        last.confirmed,
                        m as usize,
                    );
                assert(forall|j: int| 0 <= j < pending.len() && pending[j] == tx ==> j == m);
            } else {
                assert(pending[k] == tx && !is_confirmed(last.sent, last.confirmed, k as usize));
            }
        }
        assert forall|r: int|
            0 <= r < rounds.len() && pending_after(len, rounds).contains(
                tx,
            ) implies !#[trigger] confirmed_in(len, rounds, r, tx) by {
            let k = choose|k: int|
                0 <= k < pending.len() && #[trigger] pending[k] == tx && !is_confirmed(
                    last.sent,
                    last.confirmed,
                    k as usize,
                );
            assert(pending[k] == tx);
            assert(pending.contains(tx));
            if r < n {
                assert(!confirmed_in(len, fewer, r, tx));
            }
        }
        if tx < len && forall|r: int|
            0 <= r < rounds.len() ==> !#[trigger] confirmed_in(len, rounds, r, tx) {
            assert forall|r: int| 0 <= r < fewer.len() implies !#[trigger] confirmed_in(
                len,
                fewer,
                r,
                tx,
            ) by {
                assert(!confirmed_in(len, rounds, r, tx));
            }
            assert(!confirmed_in(len, rounds, n, tx));
        }
    }
}

/// A plan begins with every transaction pending, in order.
pub proof fn plans_begin_with_everything_pending(len: nat, k: int)
    requires
        len <= usize::MAX,
        0 <= k < len,
    ensures
        pending_after(len, Seq::<Round>::empty()).len() == len,
        pending_after(len, Seq::<Round>::empty())[k] == k,
{
}

/// After a round, a transaction that was sent is pending exactly if the
/// confirmation at its own position in the list of sent transactions did not
/// come; its first position counts. One that was not sent is still pending.
/// Nothing new becomes pending, and the order stays.
pub proof fn rounds_keep_exactly_what_was_not_confirmed(
    pending: Seq<usize>,
    sent: Seq<usize>,
    confirmed: Seq<bool>,
)
    requires
        pending.len() <= usize::MAX,
        forall|j: int, k: int|
            0 <= j < k < pending.len() ==> (#[trigger] pending[j]) < (#[trigger] pending[k]),
        sent.len() == confirmed.len(),
    ensures
        forall|k: int|
            0 <= k < sent.len() && #[trigger] sent[k] < pending.len() && (forall|j: int|
                0 <= j < k ==> sent[j] != sent[k]) ==> (remaining(
                pending,
                sent,
                confirmed,
                pending.len(),
            ).contains(pending[sent[k] as int]) <==> !confirmed[k]),
        forall|place: int|
            0 <= place < pending.len() && (forall|k: int|
                0 <= k < sent.len() ==> sent[k] != place) ==> remaining(
                pending,
                sent,
                confirmed,
                pending.len(),
            ).contains(#[trigger] pending[place]),
        forall|tx: usize| #[trigger]
            remaining(pending, sent, confirmed, pending.len()).contains(tx) ==> pending.contains(
                tx,
            ),
        forall|j: int, k: int|
            0 <= j < k < remaining(pending, sent, confirmed, pending.len()).len() ==> (
            #[trigger] remaining(pending, sent, confirmed, pending.len())[j]) < (
            #[trigger] remaining(pending, sent, confirmed, pending.len())[k]),
{
    let kept = remaining(pending, sent, confirmed, pending.len());
    remaining_is_ordered(pending, sent, confirmed, pending.len());
    assert forall|place: int| 0 <= place < pending.len() implies (kept.contains(
        #[trigger] pending[place],
    ) <==> !is_confirmed(sent, confirmed, place as usize)) by {
        remaining_holds(pending, sent, confirmed, pending.len(), pending[place]);
        assert(forall|m: int| 0 <= m < pending.len() && pending[m] == pending[place] ==> m == place);
    }
    assert forall|k: int|
        0 <= k < sent.len() && #[trigger] sent[k] < pending.len() && (forall|j: int|
            0 <= j < k ==> sent[j] != sent[k]) implies (kept.contains(pending[sent[k] as int])
        <==> !confirmed[k]) by {
        sent.index_of_first_ensures(sent[k]);
        assert(sent.contains(sent[k]));
        let at = sent.index_of_first(sent[k])->0;
        assert(sent[at] == sent[k]);
        assert(at == k);
    }
    assert forall|place: int|
        0 <= place < pending.len() && (forall|k: int|
            0 <= k < sent.len() ==> sent[k] != place) implies kept.contains(
        #[trigger] pending[place],
    ) by {
        sent.index_of_first_ensures(place as usize);
    }
    assert forall|tx: usize| #[trigger] kept.contains(tx) implies pending.contains(tx) by {
        remaining_holds(pending, sent, confirmed, pending.len(), tx);
    }
}

/// A plan is done exactly if nothing is pending. Otherwise it is sent again,
/// four times in all, and then given up.
pub proof fn plans_are_sent_four_times(run: PlanRun)
    ensures
        run.step() == PlanStep::Done <==> run.pending@.len() == 0,
        run.step() == PlanStep::Send <==> run.pending@.len() > 0 && run.rounds < 4,
        run.step() == PlanStep::GiveUp <==> run.pending@.len() > 0 && run.rounds >= 4,
{
}

/// A plan is sent at most [`MAX_ROUNDS`] times.
pub proof fn plans_end(run: PlanRun)
    requires
        run.wf(),
        run.rounds >= MAX_ROUNDS,
    ensures
        run.step() != PlanStep::Send,
{
}

/// How many signatures are asked about in one request.
pub const STATUS_CHUNK: usize = 200;

/// What is known of a sent transaction.
#[derive(Clone, Copy, Debug, PartialEq, Eq, Structural)]
pub enum SignatureStatus {
    Unknown,
    Succeeded,
    Failed,
}

/// What was replied to one request: the statuses of the transactions from
/// `start` on.
pub struct StatusReply {
    pub start: int,
    pub statuses: Seq<SignatureStatus>,
}

impl StatusReply {
    /// Whether it speaks of transaction `i`.
    pub open spec fn covers(self, i: int) -> bool {
        self.start <= i < self.start + self.statuses.len()
    }

    /// Whether it reports that transaction `i` succeeded.
    pub open spec fn confirms(self, i: int) -> bool {
        self.covers(i) && self.statuses[i - self.start] == SignatureStatus::Succeeded
    }

    /// Whether it reports that transaction `i` failed.
    pub open spec fn refuses(self, i: int) -> bool {
        self.covers(i) && self.statuses[i - self.start] == SignatureStatus::Failed
    }

    /// The reply up to transaction `end`.
    pub open spec fn upto(self, end: int) -> StatusReply {
        StatusReply { start: self.start, statuses: self.statuses.take(end - self.start) }
    }
}

/// What has come of polling for confirmations.
#[verifier::ext_equal]
pub struct ConfirmationsView {
    /// For each transaction, whether it has been confirmed.
    pub confirmed: Seq<bool>,
    /// Whether all that the last poll has spoken of is confirmed.
    pub settled: bool,
}

impl ConfirmationsView {
    /// What it is once a new poll begins.
    pub open spec fn polling(self) -> ConfirmationsView {
        ConfirmationsView { confirmed: self.confirmed, settled: true }
    }

    /// Whether the reply reports the failure of a transaction that was not
    /// confirmed before.
    pub open spec fn is_failed_by(self, reply: StatusReply, i: int) -> bool {
        reply.refuses(i) && !self.confirmed[i]
    }

    /// What it is once a reply is taken in: what the reply confirms is
    /// confirmed, and what has been confirmed stays so.
    pub open spec fn with(self, reply: StatusReply) -> ConfirmationsView {
        let confirmed = Seq::new(
            self.confirmed.len(),
            |i: int| self.confirmed[i] || reply.confirms(i),
        );
        ConfirmationsView {
            confirmed,
            settled: self.settled && forall|i: int| #[trigger] reply.covers(i) ==> confirmed[i],
        }
    }

    /// What it is once several replies are taken in.
    pub open spec fn with_all(self, replies: Seq<StatusReply>) -> ConfirmationsView
        decreases replies.len(),
    {
        if replies.len() == 0 {
            self
        } else {
            self.with_all(replies.drop_last()).with(replies.last())
        }
    }

    /// What it is once several polls, each of several replies, are taken in.
    pub open spec fn with_polls(self, polls: Seq<Seq<StatusReply>>) -> ConfirmationsView
        decreases polls.len(),
    {
        if polls.len() == 0 {
            self
        } else {
            self.with_polls(polls.drop_last()).polling().with_all(polls.last())
        }
    }
}

/// Nothing of `count` transactions is confirmed.
pub open spec fn unconfirmed(count: nat) -> ConfirmationsView {
    ConfirmationsView { confirmed: Seq::new(count, |i: int| false), settled: false }
}

/// Which transactions have been confirmed so far.
pub struct Confirmations {
    pub confirmed: Vec<bool>,
    /// Whether all that the last poll has spoken of is confirmed.
    pub settled: bool,
}

impl View for Confirmations {
    type V = ConfirmationsView;

    open spec fn view(&self) -> ConfirmationsView {
        ConfirmationsView { confirmed: self.confirmed@, settled: self.settled }
    }
}

impl Confirmations {
    /// Nothing of `count` transactions is confirmed.
    pub fn new(count: usize) -> (confirmations: Self)
        ensures
            confirmations@ == unconfirmed(count as nat),
    {
        let mut confirmed: Vec<bool> = Vec::with_capacity(count);
        while confirmed.len() < count
            invariant
                confirmed@.len() <= count,
                forall|i: int| 0 <= i < confirmed@.len() ==> !confirmed@[i],
            decreases count - confirmed@.len(),
        {
            confirmed.push(false);
        }
        assert(confirmed@ =~= unconfirmed(count as nat).confirmed);
        Confirmations { confirmed, settled: false }
    }

    /// Whether to poll: until a poll has found everything confirmed, or the
    /// deadline has passed.
    pub fn goes_on(&self, before_deadline: bool) -> (goes_on: bool)
        ensures
            goes_on == (before_deadline && !self.settled),
    {
        before_deadline && !self.settled
    }

    /// Begins a poll.
    pub fn begin_poll(&mut self)
        ensures
            final(self)@ == old(self)@.polling(),
    {
        self.settled = true;
    }

    /// Takes in the statuses of the transactions from `start` on. The error is
    /// the first transaction that has failed without having been confirmed
    /// before; nothing from there on is taken in.
    pub fn apply(&mut self, start: usize, statuses: &Vec<SignatureStatus>) -> (result: Result<
        (),
        usize,
    >)
        requires
            start + statuses@.len() <= old(self).confirmed@.len(),
        ensures
            ({
                let reply = StatusReply { start: start as int, statuses: statuses@ };
                match result {
                    Ok(_) => {
                        &&& final(self)@ == old(self)@.with(reply)
                        &&& forall|i: int| !#[trigger] old(self)@.is_failed_by(reply, i)
                    },
                    Err(at) => {
                        &&& final(self)@ == old(self)@.with(reply.upto(at as int))
                        &&& old(self)@.is_failed_by(reply, at as int)
                        &&& forall|i: int|
                            i < at ==> !#[trigger] old(self)@.is_failed_by(reply, i)
                    },
                }
            }),
    {
        let ghost before = self@;
        let ghost reply = StatusReply { start: start as int, statuses: statuses@ };
        let total: usize = self.confirmed.len();
        let mut j: usize = 0;
        assert(before.with(reply.upto(start as int)) =~= before);
        while j < statuses.len()
            invariant
                j <= statuses@.len(),
                before == old(self)@,
                reply == (StatusReply { start: start as int, statuses: statuses@ }),
                start + statuses@.len() <= total,
                total == before.confirmed.len(),
                self@ == before.with(reply.upto(start + j)),
                forall|i: int| i < start + j ==> !#[trigger] before.is_failed_by(reply, i),
            decreases statuses@.len() - j,
        {
            let at: usize = start + j;
            let ghost seen = reply.upto(at as int);
            let ghost more = reply.upto(at + 1);
            assert(self.confirmed@[at as int] == before.confirmed[at as int]);
            assert(more.statuses =~= seen.statuses.push(statuses@[j as int]));
            if !self.confirmed[at] {
                match statuses[j] {
                    SignatureStatus::Failed => {
                        assert(before.is_failed_by(reply, at as int));
                        return Err(at);
                    },
                    SignatureStatus::Succeeded => {
                        self.confirmed.set(at, true);
                    },
                    SignatureStatus::Unknown => {
                        self.settled = false;
                    },
                }
            }
            proof {
                let after = before.with(more);
                assert forall|i: int| 0 <= i < total implies self.confirmed@[i]
                    == after.confirmed[i] by {
                    assert(before.with(seen).confirmed[i] == (before.confirmed[i]
                        || seen.confirms(i)));
                    if i != at {
                        assert(more.confirms(i) == seen.confirms(i));
                    }
                }
                assert(self.confirmed@ =~= after.confirmed);
                assert(more.covers(at as int));
                assert forall|i: int| #[trigger] more.covers(i) == (seen.covers(i) || i == at) by {
                }
                if after.settled {
                    assert forall|i: int| #[trigger] seen.covers(i) implies before.with(
                        seen,
                    ).confirmed[i] by {
                        assert(more.covers(i));
                        assert(after.confirmed[i]);
                        assert(more.confirms(i) == seen.confirms(i));
                    }
                    assert(after.confirmed[at as int]);
                }
                if self.settled {
                    assert forall|i: int| #[trigger] more.covers(i) implies after.confirmed[i] by {
                        if i != at {
                            assert(seen.covers(i));
                            assert(before.with(seen).confirmed[i]);
                        }
                    }
                }
                assert(self@ =~= after);
            }
            j = j + 1;
        }
        assert(reply.upto(start + j) == reply) by {
            assert(statuses@.take(j as int) =~= statuses@);
        }
        Ok(())
    }

    /// Whether every transaction is confirmed.
    pub fn all_confirmed(&self) -> (all: bool)
        ensures
            all == forall|i: int| 0 <= i < self.confirmed@.len() ==> #[trigger] self.confirmed@[i],
    {
        let mut i: usize = 0;
        while i < self.confirmed.len()
            invariant
                i <= self.confirmed@.len(),
                forall|k: int| 0 <= k < i ==> #[trigger] self.confirmed@[k],
            decreases self.confirmed@.len() - i,
        {
            if !self.confirmed[i] {
                assert(!self.confirmed@[i as int]);
                return false;
            }
            i = i + 1;
        }
        true
    }
}

/// What has been confirmed stays confirmed.
pub proof fn confirmations_last(before: ConfirmationsView, reply: StatusReply, i: int)
    requires
        0 <= i < before.confirmed.len(),
        before.confirmed[i],
    ensures
        before.with(reply).confirmed[i],
        before.polling().confirmed[i],
{
}

/// Whether one of several replies reports that transaction `i` succeeded.
pub open spec fn is_confirmed_by(replies: Seq<StatusReply>, i: int) -> bool {
    exists|r: int| 0 <= r < replies.len() && (#[trigger] replies[r]).confirms(i)
}

/// Replies confirm what one of them confirms.
proof fn replies_confirm(before: ConfirmationsView, replies: Seq<StatusReply>, i: int)
    requires
        0 <= i < before.confirmed.len(),
    ensures
        before.with_all(replies).confirmed.len() == before.confirmed.len(),
        before.with_all(replies).confirmed[i] <==> before.confirmed[i] || is_confirmed_by(
            replies,
            i,
        ),
    decreases replies.len(),
{
    if replies.len() > 0 {
        let fewer = replies.drop_last();
        replies_confirm(before, fewer, i);
        if is_confirmed_by(fewer, i) {
            let r = choose|r: int| 0 <= r < fewer.len() && (#[trigger] fewer[r]).confirms(i);
            assert(replies[r].confirms(i));
        }
        if replies.last().confirms(i) {
            assert(replies[replies.len() - 1].confirms(i));
        }
        if is_confirmed_by(replies, i) {
            let r = choose|r: int| 0 <= r < replies.len() && (#[trigger] replies[r]).confirms(i);
            if r < fewer.len() {
                assert(fewer[r].confirms(i));
            }
        }
    }
}

/// Over any number of polls, a transaction is confirmed exactly if a reply of
/// one of them reported that it succeeded.
pub proof fn polls_confirm_what_succeeded(count: nat, polls: Seq<Seq<StatusReply>>, i: int)
    requires
        0 <= i < count,
    ensures
        unconfirmed(count).with_polls(polls).confirmed.len() == count,
        unconfirmed(count).with_polls(polls).confirmed[i] <==> exists|p: int|
            0 <= p < polls.len() && is_confirmed_by(#[trigger] polls[p], i),
    decreases polls.len(),
{
    if polls.len() > 0 {
        let fewer = polls.drop_last();
        polls_confirm_what_succeeded(count, fewer, i);
        replies_confirm(unconfirmed(count).with_polls(fewer).polling(), polls.last(), i);
        if exists|p: int| 0 <= p < fewer.len() && is_confirmed_by(#[trigger] fewer[p], i) {
            let p = choose|p: int| 0 <= p < fewer.len() && is_confirmed_by(#[trigger] fewer[p], i);
            assert(is_confirmed_by(polls[p], i));
        }
        if is_confirmed_by(polls.last(), i) {
            assert(is_confirmed_by(polls[polls.len() - 1], i));
        }
        if exists|p: int| 0 <= p < polls.len() && is_confirmed_by(#[trigger] polls[p], i) {
            let p = choose|p: int| 0 <= p < polls.len() && is_confirmed_by(#[trigger] polls[p], i);
            if p < fewer.len() {
                assert(is_confirmed_by(fewer[p], i));
            }
        }
    }
}

/// A poll that settles has found all confirmed that its replies speak of. If
/// no two of them speak of the same transaction, it settles exactly then.
pub proof fn settled_polls_confirm_all(before: ConfirmationsView, replies: Seq<StatusReply>)
    requires
        forall|r: int, i: int|
            0 <= r < replies.len() && #[trigger] replies[r].covers(i) ==> 0 <= i
                < before.confirmed.len(),
    ensures
        before.polling().with_all(replies).settled ==> forall|r: int, i: int|
            0 <= r < replies.len() && #[trigger] replies[r].covers(i) ==> before.polling().with_all(
                replies,
            ).confirmed[i],
        (forall|q: int, r: int, i: int|
            0 <= q < r < replies.len() && #[trigger] replies[q].covers(i)
                ==> !#[trigger] replies[r].covers(i)) && (forall|r: int, i: int|
            0 <= r < replies.len() && #[trigger] replies[r].covers(i) ==> before.polling().with_all(
                replies,
            ).confirmed[i]) ==> before.polling().with_all(replies).settled,
    decreases replies.len(),
{
    let after = before.polling().with_all(replies);
    if replies.len() > 0 {
        let fewer = replies.drop_last();
        let last = replies.last();
        let n = replies.len() - 1;
        let mid = before.polling().with_all(fewer);
        assert forall|r: int, i: int|
            0 <= r < fewer.len() && #[trigger] fewer[r].covers(i) implies 0 <= i
            < before.confirmed.len() by {
            assert(replies[r].covers(i));
        }
        settled_polls_confirm_all(before, fewer);
        if after.settled {
            assert forall|r: int, i: int| 0 <= r < replies.len() && #[trigger] replies[r].covers(
                i,
            ) implies after.confirmed[i] by {
                replies_confirm(before.polling(), fewer, i);
                if r < fewer.len() {
                    assert(fewer[r].covers(i));
                    assert(mid.confirmed[i]);
                } else {
                    assert(last.covers(i));
                }
            }
        }
        if (forall|q: int, r: int, i: int|
            0 <= q < r < replies.len() && #[trigger] replies[q].covers(i)
                ==> !#[trigger] replies[r].covers(i)) && (forall|r: int, i: int|
            0 <= r < replies.len() && #[trigger] replies[r].covers(i) ==> after.confirmed[i]) {
            assert forall|q: int, r: int, i: int|
                0 <= q < r < fewer.len() && #[trigger] fewer[q].covers(
                    i,
                ) implies !#[trigger] fewer[r].covers(i) by {
                assert(replies[q].covers(i));
                if fewer[r].covers(i) {
                    assert(replies[r].covers(i));
                }
            }
            assert forall|r: int, i: int| 0 <= r < fewer.len() && #[trigger] fewer[r].covers(
                i,
            ) implies mid.confirmed[i] by {
                replies_confirm(before.polling(), fewer, i);
                assert(replies[r].covers(i));
                assert(after.confirmed[i]);
                assert(!replies[n].covers(i));
            }
            assert(mid.settled);
            assert forall|i: int| #[trigger] last.covers(i) implies mid.with(
                last,
            ).confirmed[i] by {
                assert(replies[n].covers(i));
            }
        }
    }
}

/// A reply confirms exactly the transactions for which it says so, each by its
/// own place, and leaves the others as they were. It fails one exactly if it
/// reports the failure of one that was not confirmed.
pub proof fn replies_speak_of_their_own_places(
    before: ConfirmationsView,
    reply: StatusReply,
    i: int,
)
    requires
        0 <= i < before.confirmed.len(),
    ensures
        before.with(reply).confirmed.len() == before.confirmed.len(),
        before.with(reply).confirmed[i] <==> before.confirmed[i] || (reply.start <= i < reply.start
            + reply.statuses.len() && reply.statuses[i - reply.start]
            == SignatureStatus::Succeeded),
        before.is_failed_by(reply, i) <==> !before.confirmed[i] && reply.start <= i < reply.start
            + reply.statuses.len() && reply.statuses[i - reply.start] == SignatureStatus::Failed,
        before.polling().confirmed == before.confirmed,
        before.polling().settled,
{
}

/// A reply leaves a poll settled exactly if it was settled before and the
/// reply speaks of nothing that is still unconfirmed.
pub proof fn replies_settle_what_they_confirm(before: ConfirmationsView, reply: StatusReply)
    requires
        0 <= reply.start,
        reply.start + reply.statuses.len() <= before.confirmed.len(),
    ensures
        before.with(reply).settled <==> before.settled && forall|j: int|
            0 <= j < reply.statuses.len() ==> before.confirmed[reply.start + j]
                || #[trigger] reply.statuses[j] == SignatureStatus::Succeeded,
{
    let after = before.with(reply);
    if after.settled {
        assert forall|j: int| 0 <= j < reply.statuses.len() implies before.confirmed[reply.start
            + j] || #[trigger] reply.statuses[j] == SignatureStatus::Succeeded by {
            assert(reply.covers(reply.start + j));
            assert(after.confirmed[reply.start + j]);
        }
    }
    if before.settled && forall|j: int|
        0 <= j < reply.statuses.len() ==> before.confirmed[reply.start + j]
            || #[trigger] reply.statuses[j] == SignatureStatus::Succeeded {
        assert forall|i: int| #[trigger] reply.covers(i) implies after.confirmed[i] by {
            let j = i - reply.start;
            assert(before.confirmed[reply.start + j] || reply.statuses[j]
                == SignatureStatus::Succeeded);
        }
    }
}

/// Over any number of polls, a transaction is confirmed exactly if some reply
/// held the status of success at that transaction's place.
pub proof fn confirmations_come_from_statuses(count: nat, polls: Seq<Seq<StatusReply>>, i: int)
    requires
        0 <= i < count,
    ensures
        unconfirmed(count).with_polls(polls).confirmed[i] <==> exists|p: int, r: int|
            0 <= p < polls.len() && 0 <= r < polls[p].len() && (#[trigger] polls[p][r]).start <= i
                < polls[p][r].start + polls[p][r].statuses.len() && polls[p][r].statuses[i
                - polls[p][r].start] == SignatureStatus::Succeeded,
{
    polls_confirm_what_succeeded(count, polls, i);
    if exists|p: int| 0 <= p < polls.len() && is_confirmed_by(#[trigger] polls[p], i) {
        let p = choose|p: int| 0 <= p < polls.len() && is_confirmed_by(#[trigger] polls[p], i);
        let r = choose|r: int| 0 <= r < polls[p].len() && (#[trigger] polls[p][r]).confirms(i);
        assert(polls[p][r].start <= i);
    }
    if exists|p: int, r: int|
        0 <= p < polls.len() && 0 <= r < polls[p].len() && (#[trigger] polls[p][r]).start <= i
            < polls[p][r].start + polls[p][r].statuses.len() && polls[p][r].statuses[i
            - polls[p][r].start] == SignatureStatus::Succeeded {
        let (p, r) = choose|p: int, r: int|
            0 <= p < polls.len() && 0 <= r < polls[p].len() && (#[trigger] polls[p][r]).start <= i
                < polls[p][r].start + polls[p][r].statuses.len() && polls[p][r].statuses[i
                - polls[p][r].start] == SignatureStatus::Succeeded;
        assert(polls[p][r].confirms(i));
        assert(is_confirmed_by(polls[p], i));
    }
}

/// The most lamports asked for in one airdrop.
pub const AIRDROP_LIMIT: u64 = 500_000_000_000;

/// Lamports that setting up and running `users` users takes: rent and escrow
/// for each, and ten SOL besides.
pub open spec fn lamports_needed(users: nat) -> nat {
    (ESCROW_LAMPORTS + LAMPORTS_PER_SOL / 50) as nat * users + 10 * LAMPORTS_PER_SOL as nat
}

/// The account that pays, being funded.
#[derive(Clone, Copy, Debug)]
pub struct Funding {
    pub needed: u64,
    pub funded: u64,
}

impl Funding {
    /// No more has been asked for than is needed.
    pub open spec fn wf(self) -> bool {
        self.funded <= self.needed
    }

    /// The airdrop to ask for next: what is missing, but no more than the
    /// limit, and none once the account is funded.
    pub open spec fn due(self) -> Option<u64> {
        if self.funded >= self.needed {
            None
        } else if self.needed - self.funded < AIRDROP_LIMIT {
            Some((self.needed - self.funded) as u64)
        } else {
            Some(AIRDROP_LIMIT)
        }
    }

    /// The funding of an account that pays for `users` users.
    pub fn new(users: usize) -> (funding: Self)
        requires
            lamports_needed(users as nat) <= u64::MAX,
        ensures
            funding.wf(),
            funding.needed == lamports_needed(users as nat),
            funding.funded == 0,
    {
        let per_user: u64 = ESCROW_LAMPORTS + LAMPORTS_PER_SOL / 50;
        let needed: u64 = per_user * (users as u64) + 10 * LAMPORTS_PER_SOL;
        Funding { needed, funded: 0 }
    }

    /// The next airdrop to ask for; none once the account is funded.
    pub fn next_airdrop(&self) -> (airdrop: Option<u64>)
        requires
            self.wf(),
        ensures
            airdrop == self.due(),
            airdrop matches Some(lamports) ==> 0 < lamports <= AIRDROP_LIMIT && self.funded
                + lamports <= self.needed,
    {
        if self.funded >= self.needed {
            return None;
        }
        let missing: u64 = self.needed - self.funded;
        if missing < AIRDROP_LIMIT {
            Some(missing)
        } else {
            Some(AIRDROP_LIMIT)
        }
    }

    /// Counts an airdrop that has been confirmed.
    pub fn record(&mut self, lamports: u64)
        requires
            old(self).funded + lamports <= old(self).needed,
        ensures
            final(self).wf(),
            final(self).needed == old(self).needed,
            final(self).funded == old(self).funded + lamports,
    {
        self.funded = self.funded + lamports;
    }
}

/// What has been asked for after `count` airdrops.
pub open spec fn funded_after(needed: nat, count: nat) -> nat {
    if count * AIRDROP_LIMIT as nat >= needed {
        needed
    } else {
        count * AIRDROP_LIMIT as nat
    }
}

/// Airdrops end with exactly what is needed: after `count` of them, `count`
/// times the limit has been asked for, but never more than is needed.
pub proof fn airdrops_add_up(before: Funding, after: Funding, airdrop: u64, count: nat)
    requires
        before.wf(),
        before.funded == funded_after(before.needed as nat, count),
        before.due() == Some(airdrop),
        after.needed == before.needed,
        after.funded == before.funded + airdrop,
    ensures
        after.funded == funded_after(after.needed as nat, count + 1),
        after.funded > before.funded,
        after.due() is None <==> after.funded == after.needed,
{
}

/// Ten SOL are needed without any user, and three hundredths of one more for
/// each user.
pub proof fn every_user_takes_the_same(users: nat)
    ensures
        lamports_needed(0) == 10_000_000_000,
        lamports_needed(users + 1) == lamports_needed(users) + 30_000_000,
{
    assert((ESCROW_LAMPORTS + LAMPORTS_PER_SOL / 50) as nat == 30_000_000);
}

/// An airdrop is due while something is missing. It asks for 500 SOL or, if
/// less is missing, for exactly that.
pub proof fn airdrops_ask_for_what_is_missing(funding: Funding)
    ensures
        funding.due() is None <==> funding.funded >= funding.needed,
        funding.due() matches Some(lamports) ==> 0 < lamports <= 500_000_000_000 && funding.funded
            + lamports <= funding.needed && (lamports == 500_000_000_000 || funding.funded
            + lamports == funding.needed),
{
}

/// The steps of the setup, in order.
#[derive(Clone, Copy, Debug, PartialEq, Eq, Structural)]
pub enum SetupStep {
    Fund,
    Mint,
    Accounts,
    Deposit,
    Delegate,
    Escrow,
}

impl SetupStep {
    /// The step that follows.
    pub open spec fn following(self) -> Option<SetupStep> {
        match self {
            SetupStep::Fund => Some(SetupStep::Mint),
            SetupStep::Mint => Some(SetupStep::Accounts),
            SetupStep::Accounts => Some(SetupStep::Deposit),
            SetupStep::Deposit => Some(SetupStep::Delegate),
            SetupStep::Delegate => Some(SetupStep::Escrow),
            SetupStep::Escrow => None,
        }
    }

    /// The step that follows, if any.
    pub fn next(self) -> (step: Option<SetupStep>)
        ensures
            step == self.following(),
    {
        match self {
            SetupStep::Fund => Some(SetupStep::Mint),
            SetupStep::Mint => Some(SetupStep::Accounts),
            SetupStep::Accounts => Some(SetupStep::Deposit),
            SetupStep::Deposit => Some(SetupStep::Delegate),
            SetupStep::Delegate => Some(SetupStep::Escrow),
            SetupStep::Escrow => None,
        }
    }

    /// What is shown while the step runs.
    pub fn progress(self) -> (text: &'static str)
        ensures
            text@ == match self {
                SetupStep::Fund => "funding master payer"@,
                SetupStep::Mint => "creating USDC mint + global vault"@,
                SetupStep::Accounts => "creating ATAs, minting USDC, initializing eATAs"@,
                SetupStep::Deposit => "depositing USDC into eATAs"@,
                SetupStep::Delegate => "delegating eATAs to the validator"@,
                SetupStep::Escrow => "funding + delegating fee escrows"@,
            },
    {
        match self {
            SetupStep::Fund => "funding master payer",
            SetupStep::Mint => "creating USDC mint + global vault",
            SetupStep::Accounts => "creating ATAs, minting USDC, initializing eATAs",
            SetupStep::Deposit => "depositing USDC into eATAs",
            SetupStep::Delegate => "delegating eATAs to the validator",
            SetupStep::Escrow => "funding + delegating fee escrows",
        }
    }

    /// The label under which the step's plan is reported; funding has none.
    pub fn label(self) -> (text: Option<&'static str>)
        ensures
            match text {
                Some(label) => self != SetupStep::Fund && label@ == match self {
                    SetupStep::Mint => "mint"@,
                    SetupStep::Accounts => "ata+mint+eata"@,
                    SetupStep::Deposit => "deposit"@,
                    SetupStep::Delegate => "delegate"@,
                    _ => "escrow"@,
                },
                None => self == SetupStep::Fund,
            },
    {
        match self {
            SetupStep::Fund => None,
            SetupStep::Mint => Some("mint"),
            SetupStep::Accounts => Some("ata+mint+eata"),
            SetupStep::Deposit => Some("deposit"),
            SetupStep::Delegate => Some("delegate"),
            SetupStep::Escrow => Some("escrow"),
        }
    }
}

} // verus!
