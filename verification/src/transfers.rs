//! Shards of paired users and the transfers made between them.
use crate::bytes::le_bytes;
use crate::formats::{base64_len, base64_text, encode_base64};
use crate::instruction::{ixs_view, AccountMetaView, Address, Instruction, InstructionView};
use crate::programs::{spl_transfer, transfer_ix, SPL_TOKEN_ID};
use crate::signing::{
    can_sign, few_mentions_fit, keys_view, mentioned, secrets_view, sign_tx, signed_wire,
    wire_limit, Signer,
};
use vstd::prelude::*;

verus! {

/// A shard of the world assigned to one ephemeral validator: the users in
/// pairs (0 and 1, 2 and 3, ...) and their token accounts, in the same order.
pub struct Shard {
    pub users: Vec<Signer>,
    pub atas: Vec<Address>,
}

impl Shard {
    /// Every user has a token account.
    pub open spec fn wf(self) -> bool {
        self.users@.len() == self.atas@.len()
    }

    /// How many complete pairs there are.
    pub open spec fn pair_count(self) -> nat {
        self.users@.len() / 2
    }

    /// How many pairs the bulk load runs on.
    pub open spec fn load_pair_count(self) -> nat {
        if self.pair_count() >= 2 {
            (self.pair_count() - 1) as nat
        } else {
            1
        }
    }

    /// How many complete pairs the shard has.
    pub fn pairs(&self) -> (pairs: usize)
        ensures
            pairs == self.pair_count(),
            2 * pairs <= usize::MAX,
    {
        self.users.len() / 2
    }

    /// The pair that is kept for the latency probe: the last of several. A
    /// single pair is all the load's, and leaves none for the probe.
    pub open spec fn reserved_pair(self) -> Option<nat> {
        if self.pair_count() >= 2 {
            Some((self.pair_count() - 1) as nat)
        } else {
            None
        }
    }

    /// Pairs used by the bulk load. Where there are several, the last one is
    /// reserved for the end-to-end latency probe so probe transactions never
    /// queue behind load transactions on the same accounts.
    pub fn load_pairs(&self) -> (pairs: usize)
        requires
            self.pair_count() >= 1,
        ensures
            pairs == self.load_pair_count(),
            1 <= pairs <= self.pair_count(),
            2 * pairs <= usize::MAX,
    {
        let without_last: usize = self.pairs() - 1;
        if without_last > 1 {
            without_last
        } else {
            1
        }
    }

    /// The pair reserved for the latency probe, which the load does not use;
    /// a shard with a single pair has none.
    pub fn probe_pair(&self) -> (pair: Option<usize>)
        ensures
            match pair {
                Some(p) => self.reserved_pair() == Some(p as nat) && p >= self.load_pair_count()
                    && 2 * p + 1 <= usize::MAX,
                None => self.reserved_pair() is None,
            },
    {
        let pairs: usize = self.pairs();
        if pairs >= 2 {
            Some(pairs - 1)
        } else {
            None
        }
    }
}

/// A transfer between the two users of a pair, by their positions in a shard.
#[derive(Clone, Copy, Debug, PartialEq, Eq, Structural)]
pub struct Transfer {
    pub from: usize,
    pub to: usize,
    pub amount: u64,
}

impl Transfer {
    /// Whether it moves `amount` within `pair`: from its first user to its
    /// second when `forward`, and back otherwise.
    pub open spec fn moves(self, pair: int, forward: bool, amount: int) -> bool {
        &&& self.from == 2 * pair + if forward {
            0int
        } else {
            1int
        }
        &&& self.to == 2 * pair + if forward {
            1int
        } else {
            0int
        }
        &&& self.amount == amount
    }

    /// The transfer of `amount` within `pair` in the given direction.
    pub fn within(pair: usize, forward: bool, amount: u64) -> (transfer: Self)
        requires
            2 * pair + 1 <= usize::MAX,
        ensures
            transfer.moves(pair as int, forward, amount as int),
    {
        if forward {
            Transfer { from: 2 * pair, to: 2 * pair + 1, amount }
        } else {
            Transfer { from: 2 * pair + 1, to: 2 * pair, amount }
        }
    }

    /// The transfer that warms a pair up: one unit, first user to second.
    pub fn warmup(pair: usize) -> (transfer: Self)
        requires
            2 * pair + 1 <= usize::MAX,
        ensures
            transfer.moves(pair as int, true, 1),
    {
        Transfer::within(pair, true, 1)
    }

    /// The transfer number `index` of a pre-signed run over `pairs` pairs:
    /// pairs take turns, every other round goes back, and the amount grows by
    /// one every second round.
    pub fn presigned(index: usize, pairs: usize) -> (transfer: Self)
        requires
            pairs > 0,
            2 * pairs <= usize::MAX,
        ensures
            transfer.is_presigned(index as int, pairs as int),
    {
        let pair: usize = index % pairs;
        let round: usize = index / pairs;
        let amount: u64 = 1 + (round / 2) as u64;
        assert(round <= index) by (nonlinear_arith)
            requires
                round == index / pairs,
                pairs > 0,
        ;
        Transfer::within(pair, round % 2 == 0, amount)
    }

    /// Whether this is the transfer number `index` of a pre-signed run.
    pub open spec fn is_presigned(self, index: int, pairs: int) -> bool {
        self.moves(index % pairs, (index / pairs) % 2 == 0, 1 + index / pairs / 2)
    }

    /// The transfer a just-in-time signer makes on `pair` when its counter
    /// reads `counter`: directions alternate and amounts run through 1 to 995.
    pub fn just_in_time(pair: usize, counter: u64) -> (transfer: Self)
        requires
            2 * pair + 1 <= usize::MAX,
        ensures
            transfer.is_just_in_time(pair as int, counter as int),
    {
        Transfer::within(pair, counter % 2 == 0, 1 + counter % 995)
    }

    /// Whether this is the transfer made on `pair` at `counter`.
    pub open spec fn is_just_in_time(self, pair: int, counter: int) -> bool {
        self.moves(pair, counter % 2 == 0, 1 + counter % 995)
    }
}

/// No two transfers of a pre-signed run agree in pair, direction and amount.
pub proof fn presigned_transfers_differ(i: int, j: int, pairs: int, a: Transfer, b: Transfer)
    requires
        pairs > 0,
        0 <= i,
        0 <= j,
        i != j,
        a.is_presigned(i, pairs),
        b.is_presigned(j, pairs),
    ensures
        a.from != b.from || a.amount != b.amount,
{
    if a.from == b.from && a.amount == b.amount {
        let (ri, rj) = (i / pairs, j / pairs);
        assert(i % pairs == j % pairs);
        assert(ri % 2 == rj % 2);
        assert(ri / 2 == rj / 2);
        assert(ri == rj);
        vstd::arithmetic::div_mod::lemma_fundamental_div_mod(i, pairs);
        vstd::arithmetic::div_mod::lemma_fundamental_div_mod(j, pairs);
    }
}

/// Two just-in-time transfers of one pair that agree in direction and amount
/// are a multiple of 1990 counts apart.
pub proof fn just_in_time_repeats_are_far_apart(
    pair: int,
    earlier: int,
    later: int,
    a: Transfer,
    b: Transfer,
)
    requires
        0 <= earlier <= later,
        a.is_just_in_time(pair, earlier),
        b.is_just_in_time(pair, later),
        a == b,
    ensures
        (later - earlier) % 1990 == 0,
{
    assert(earlier % 2 == later % 2);
    assert(earlier % 995 == later % 995);
}

/// Consecutive counts go in opposite directions.
pub proof fn just_in_time_alternates(
    first: int,
    second: int,
    counter: int,
    a: Transfer,
    b: Transfer,
)
    requires
        0 <= counter,
        a.is_just_in_time(first, counter),
        b.is_just_in_time(second, counter + 1),
    ensures
        a.from < a.to <==> b.from > b.to,
{
}

/// No load transfer touches the accounts of the pair that is reserved for the
/// probe.
pub proof fn probe_pair_is_reserved(
    shard: Shard,
    load_pair: int,
    forward: bool,
    amount: int,
    load: Transfer,
    probe_pair: nat,
    probe_forward: bool,
    probe_amount: int,
    probe: Transfer,
)
    requires
        0 <= load_pair < shard.load_pair_count(),
        load.moves(load_pair, forward, amount),
        shard.reserved_pair() == Some(probe_pair),
        probe.moves(probe_pair as int, probe_forward, probe_amount),
    ensures
        probe_pair >= shard.load_pair_count(),
        load.from != probe.from,
        load.from != probe.to,
        load.to != probe.from,
        load.to != probe.to,
{
}

/// The pairs of signer thread `thread` out of `threads`: every `threads`-th,
/// from `thread` on.
pub open spec fn is_signer_slice(slice: Seq<usize>, pairs: int, threads: int, thread: int) -> bool {
    &&& forall|k: int|
        0 <= k < slice.len() ==> #[trigger] slice[k] == thread + k * threads && slice[k] < pairs
    &&& thread + slice.len() * threads >= pairs
}

/// How many signer threads run where `requested` are asked for.
pub open spec fn thread_count(requested: nat, pairs: nat) -> nat {
    if requested <= 1 {
        if pairs < 1 {
            pairs
        } else {
            1
        }
    } else if requested < pairs {
        requested
    } else {
        pairs
    }
}

/// As many signer threads run as are asked for, but at least one, and never
/// more than there are pairs.
pub proof fn threads_are_those_asked_for_within_limits(requested: nat, pairs: nat)
    ensures
        thread_count(requested, pairs) <= pairs,
        pairs > 0 ==> thread_count(requested, pairs) >= 1,
        1 <= requested <= pairs ==> thread_count(requested, pairs) == requested,
        requested > pairs ==> thread_count(requested, pairs) == pairs,
        requested == 0 ==> thread_count(requested, pairs) == thread_count(1, pairs),
{
}

/// How many signer threads to run: at least one, and no more than there are
/// pairs for.
pub fn signer_thread_count(requested: usize, pairs: usize) -> (threads: usize)
    ensures
        threads == thread_count(requested as nat, pairs as nat),
        pairs >= 1 ==> 1 <= threads <= pairs,
{
    let at_least_one: usize = if requested > 1 {
        requested
    } else {
        1
    };
    if at_least_one < pairs {
        at_least_one
    } else {
        pairs
    }
}

/// The pairs that signer thread `thread` of `threads` works on.
pub fn signer_slice(pairs: usize, threads: usize, thread: usize) -> (slice: Vec<usize>)
    requires
        thread < threads,
    ensures
        is_signer_slice(slice@, pairs as int, threads as int, thread as int),
{
    let mut slice: Vec<usize> = Vec::new();
    if thread >= pairs {
        return slice;
    }
    let mut pair: usize = thread;
    assert(thread + 0 * threads == thread) by (nonlinear_arith);
    loop
        invariant_except_break
            pair == thread + slice@.len() * threads,
        invariant
            thread < threads,
            pair < pairs,
            forall|k: int|
                0 <= k < slice@.len() ==> #[trigger] slice@[k] == thread + k * threads && slice@[k]
                    < pairs,
        ensures
            is_signer_slice(slice@, pairs as int, threads as int, thread as int),
        decreases pairs - pair,
    {
        proof {
            let n = slice@.len() as int;
            assert((n + 1) * threads == n * threads + threads) by (nonlinear_arith);
        }
        slice.push(pair);
        if pairs - pair <= threads {
            break;
        }
        pair = pair + threads;
    }
    slice
}

/// Signer threads share the pairs out: each pair is in exactly one slice, and
/// with no more threads than pairs every slice holds one.
pub proof fn signer_slices_partition_pairs(slices: Seq<Seq<usize>>, pairs: int)
    requires
        slices.len() > 0,
        forall|t: int|
            0 <= t < slices.len() ==> is_signer_slice(
                #[trigger] slices[t],
                pairs,
                slices.len() as int,
                t,
            ),
    ensures
        forall|t: int, p: usize|
            #![trigger slices[t].contains(p)]
            0 <= t < slices.len() ==> (slices[t].contains(p) <==> p < pairs && p as nat
                % slices.len()
                == t),
        slices.len() <= pairs ==> forall|t: int|
            0 <= t < slices.len() ==> (#[trigger] slices[t]).len() > 0,
{
    let n = slices.len() as int;
    assert forall|t: int, p: usize|
        #![trigger slices[t].contains(p)]
        0 <= t < slices.len() implies (slices[t].contains(p) <==> p < pairs && p as nat
                % slices.len()
        == t) by {
        let s = slices[t];
        if s.contains(p) {
            let k = choose|k: int| 0 <= k < s.len() && s[k] == p;
            assert(s[k] == t + k * n);
            vstd::arithmetic::div_mod::lemma_fundamental_div_mod_converse(p as int, n, k, t);
        }
        if p < pairs && p as int % n == t {
            let k = p as int / n;
            vstd::arithmetic::div_mod::lemma_fundamental_div_mod(p as int, n);
            assert(p == t + k * n) by (nonlinear_arith)
                requires
                    p == n * k + t,
            ;
            assert(k < s.len()) by (nonlinear_arith)
                requires
                    p == t + k * n,
                    p < pairs,
                    t + s.len() * n >= pairs,
                    n > 0,
            ;
            assert(k >= 0) by (nonlinear_arith)
                requires
                    k == p as int / n,
                    n > 0,
            ;
            assert(s[k] == p);
        }
    }
    if n <= pairs {
        assert forall|t: int| 0 <= t < slices.len() implies (#[trigger] slices[t]).len() > 0 by {
            if slices[t].len() == 0 {
                assert(0 * n == 0);
            }
        }
    }
}

/// The pair that a walk over `pairs` comes to after `count` others.
pub open spec fn walked_pair(pairs: Seq<usize>, count: nat) -> usize {
    pairs[count as int % pairs.len() as int]
}

/// A walk takes the pairs in order, and then begins again: within each lap
/// every pair comes once.
pub proof fn walks_take_the_pairs_in_turn(pairs: Seq<usize>, lap: nat, place: nat)
    requires
        place < pairs.len(),
    ensures
        walked_pair(pairs, lap * pairs.len() + place) == pairs[place as int],
{
    vstd::arithmetic::div_mod::lemma_fundamental_div_mod_converse(
        (lap * pairs.len() + place) as int,
        pairs.len() as int,
        lap as int,
        place as int,
    );
}

/// A just-in-time signer: it walks its slice of pairs over and over and
/// counts the transfers it has begun.
pub struct JitSigner {
    pub pairs: Vec<usize>,
    pub next: usize,
    pub counter: u64,
}

impl JitSigner {
    /// It has pairs to walk, and stands where its counter says.
    pub open spec fn wf(self) -> bool {
        &&& self.pairs@.len() > 0
        &&& self.next == self.counter as int % self.pairs@.len() as int
        &&& forall|k: int|
            0 <= k < self.pairs@.len() ==> 2 * (#[trigger] self.pairs@[k]) + 1 <= usize::MAX
    }

    /// A signer that has made no transfer yet.
    pub fn new(pairs: Vec<usize>) -> (signer: Self)
        requires
            pairs@.len() > 0,
            forall|k: int| 0 <= k < pairs@.len() ==> 2 * (#[trigger] pairs@[k]) + 1 <= usize::MAX,
        ensures
            signer.wf(),
            signer.pairs@ == pairs@,
            signer.counter == 0,
    {
        proof {
            vstd::arithmetic::div_mod::lemma_small_mod(0, pairs@.len());
        }
        JitSigner { pairs, next: 0, counter: 0 }
    }

    /// The next transfer of the walk.
    pub fn next_transfer(&mut self) -> (transfer: Transfer)
        requires
            old(self).wf(),
            old(self).counter < u64::MAX,
        ensures
            final(self).wf(),
            final(self).pairs@ == old(self).pairs@,
            final(self).counter == old(self).counter + 1,
            transfer.is_just_in_time(
                walked_pair(old(self).pairs@, old(self).counter as nat) as int,
                old(self).counter + 1,
            ),
    {
        let pair: usize = self.pairs[self.next];
        self.counter = self.counter + 1;
        let len: usize = self.pairs.len();
        proof {
            next_position(old(self).counter as int, len as int);
        }
        if self.next + 1 == len {
            self.next = 0;
        } else {
            self.next = self.next + 1;
        }
        Transfer::just_in_time(pair, self.counter)
    }
}

/// Counting on by one moves one place further in a cycle of `len`.
proof fn next_position(count: int, len: int)
    requires
        0 <= count,
        len > 0,
    ensures
        0 <= count % len < len,
        (count + 1) % len == if count % len + 1 == len {
            0
        } else {
            count % len + 1
        },
{
    let (q, r) = (count / len, count % len);
    vstd::arithmetic::div_mod::lemma_fundamental_div_mod(count, len);
    if r + 1 == len {
        assert(count + 1 == (q + 1) * len + 0) by (nonlinear_arith)
            requires
                count == len * q + r,
                r + 1 == len,
        ;
        vstd::arithmetic::div_mod::lemma_fundamental_div_mod_converse(count + 1, len, q + 1, 0);
    } else {
        assert(count + 1 == q * len + (r + 1)) by (nonlinear_arith)
            requires
                count == len * q + r,
        ;
        vstd::arithmetic::div_mod::lemma_fundamental_div_mod_converse(count + 1, len, q, r + 1);
    }
}

/// Why a transfer could not be turned into a transaction.
#[derive(Clone, Copy, Debug, PartialEq, Eq, Structural)]
pub enum TransferError {
    /// The token program's client code refused it.
    Instruction,
}

/// The wire bytes of a transfer signed by its sender, who also pays.
pub open spec fn transfer_wire(
    from: Signer,
    src: Seq<u8>,
    dst: Seq<u8>,
    amount: u64,
    blockhash: Seq<u8>,
) -> Seq<u8> {
    signed_wire(
        seq![transfer_ix(src, dst, from.key(), amount)],
        from.key(),
        seq![from.secret_key()],
        blockhash,
    )
}

/// How long a signed transfer is at most.
pub const TRANSFER_LIMIT: usize = 24575;

/// A token transfer of one sender, signed and ready to send.
pub fn transfer_tx(
    from: &Signer,
    src: &Address,
    dst: &Address,
    amount: u64,
    blockhash: &[u8; 32],
) -> (result: Result<Vec<u8>, TransferError>)
    ensures
        result is Ok,
        result->Ok_0@ == transfer_wire(*from, src@, dst@, amount, blockhash@),
        result->Ok_0@.len() <= TRANSFER_LIMIT,
{
    let authority = from.address();
    let ix = match spl_transfer(src, dst, &authority, amount) {
        Ok(ix) => ix,
        Err(_) => return Err(TransferError::Instruction),
    };
    let ghost view = ix@;
    let ixs: Vec<Instruction> = vec![ix];
    let signers: Vec<Signer> = vec![*from];
    proof {
        transfer_can_be_signed(src@, dst@, from.key(), amount);
        assert(ixs_view(ixs@) =~= seq![view]);
        assert(keys_view(signers@) =~= seq![from.key()]);
        assert(secrets_view(signers@) =~= seq![from.secret_key()]);
    }
    Ok(sign_tx(&ixs, &signers, blockhash))
}

/// A transfer needs the signature of its sender and no other.
proof fn transfer_can_be_signed(src: Seq<u8>, dst: Seq<u8>, key: Seq<u8>, amount: u64)
    ensures
        can_sign(seq![transfer_ix(src, dst, key, amount)], seq![key]),
        wire_limit(seq![transfer_ix(src, dst, key, amount)]) == TRANSFER_LIMIT,
{
    let ixs = seq![transfer_ix(src, dst, key, amount)];
    crate::bytes::le_bytes_has_width(amount as nat, 8);
    assert(ixs.drop_last() =~= Seq::<InstructionView>::empty());
    assert(mentioned(ixs.drop_last()).len() == 0);
    assert(mentioned(ixs).len() == 4);
    assert(wire_limit(ixs.drop_last()) == 24556);
    assert(seq![key].contains(key)) by {
        assert(seq![key][0] == key);
    }
    few_mentions_fit(ixs, seq![key]);
}

/// Wire bytes as base64 text.
pub fn wire_text(wire: &Vec<u8>) -> (text: String)
    requires
        base64_len(wire@.len()) <= isize::MAX,
    ensures
        text@ == base64_text(wire@),
{
    encode_base64(wire.as_slice())
}

impl Shard {
    /// The wire bytes of one of the shard's transfers.
    pub open spec fn wire_of(self, transfer: Transfer, blockhash: Seq<u8>) -> Seq<u8> {
        transfer_wire(
            self.users@[transfer.from as int],
            self.atas@[transfer.from as int]@,
            self.atas@[transfer.to as int]@,
            transfer.amount,
            blockhash,
        )
    }

    /// The base64 text of one of the shard's transfers.
    pub open spec fn text_of(self, transfer: Transfer, blockhash: Seq<u8>) -> Seq<char> {
        base64_text(self.wire_of(transfer, blockhash))
    }

    /// Signs one of the shard's transfers.
    pub fn sign_transfer(&self, transfer: &Transfer, blockhash: &[u8; 32]) -> (result: Result<
        Vec<u8>,
        TransferError,
    >)
        requires
            self.wf(),
            transfer.from < self.users@.len(),
            transfer.to < self.users@.len(),
        ensures
            result is Ok,
            result->Ok_0@ == self.wire_of(*transfer, blockhash@),
            result->Ok_0@ == signed_wire(
                seq![
                    token_transfer(
                        self.atas@[transfer.from as int]@,
                        self.atas@[transfer.to as int]@,
                        self.users@[transfer.from as int].key(),
                        transfer.amount,
                    ),
                ],
                self.users@[transfer.from as int].key(),
                seq![self.users@[transfer.from as int].secret_key()],
                blockhash@,
            ),
            result->Ok_0@.len() <= TRANSFER_LIMIT,
    {
        proof {
            transfers_move_from_sender_to_receiver(*self, *transfer, blockhash@);
        }
        transfer_tx(
            &self.users[transfer.from],
            &self.atas[transfer.from],
            &self.atas[transfer.to],
            transfer.amount,
            blockhash,
        )
    }

    /// Signs one of the shard's transfers and writes it as base64.
    pub fn encode_transfer(&self, transfer: &Transfer, blockhash: &[u8; 32]) -> (result: Result<
        String,
        TransferError,
    >)
        requires
            self.wf(),
            transfer.from < self.users@.len(),
            transfer.to < self.users@.len(),
        ensures
            result is Ok,
            result->Ok_0@ == self.text_of(*transfer, blockhash@),
    {
        match self.sign_transfer(transfer, blockhash) {
            Ok(wire) => Ok(wire_text(&wire)),
            Err(error) => Err(error),
        }
    }
}

/// How many stripes a run is pre-signed in: at least one.
pub fn stripe_count(threads: usize) -> (stripes: usize)
    ensures
        stripes == if threads == 0 {
            1
        } else {
            threads
        },
{
    if threads == 0 {
        1
    } else {
        threads
    }
}

/// The transfers that one of `threads` pre-signing threads signs: `index` and
/// every `threads`-th after it, below `count`.
pub open spec fn stripe(index: nat, threads: nat, count: nat) -> Seq<nat>
    decreases
            if index < count {
                count - index
            } else {
                0
            },
{
    if index < count && threads > 0 {
        seq![index] + stripe(index + threads, threads, count)
    } else {
        Seq::<nat>::empty()
    }
}

/// Transfer number `index` of a pre-signed run over `pairs` pairs.
pub open spec fn presigned(index: nat, pairs: nat) -> Transfer {
    let pair = index % pairs;
    let forward = (index / pairs) % 2 == 0;
    Transfer {
        from: (if forward {
            2 * pair
        } else {
            2 * pair + 1
        }) as usize,
        to: (if forward {
            2 * pair + 1
        } else {
            2 * pair
        }) as usize,
        amount: (1 + index / pairs / 2) as u64,
    }
}

/// What [`presigned`] gives is the transfer of that number.
pub proof fn presigned_has_its_number(index: nat, pairs: nat)
    requires
        pairs > 0,
        2 * pairs <= usize::MAX,
        index <= usize::MAX,
    ensures
        presigned(index, pairs).is_presigned(index as int, pairs as int),
{
    assert(index / pairs <= index) by (nonlinear_arith)
        requires
            pairs > 0,
    ;
    assert(0 <= index % pairs <= pairs - 1);
}

/// The texts of the given transfers of a pre-signed run.
pub open spec fn presigned_texts(
    shard: Shard,
    indexes: Seq<nat>,
    pairs: nat,
    blockhash: Seq<u8>,
) -> Seq<Seq<char>> {
    indexes.map_values(|index: nat| shard.text_of(presigned(index, pairs), blockhash))
}

/// The texts that thread `thread` out of `threads` signs of a run of `count`.
pub open spec fn stripe_texts(
    shard: Shard,
    count: nat,
    threads: nat,
    thread: nat,
    blockhash: Seq<u8>,
) -> Seq<Seq<char>> {
    presigned_texts(shard, stripe(thread, threads, count), shard.load_pair_count(), blockhash)
}

/// What each of several strings says.
pub open spec fn texts_view(texts: Seq<String>) -> Seq<Seq<char>> {
    texts.map_values(|text: String| text@)
}

/// Pre-signs the transfers of thread `thread` out of `threads`, against one
/// blockhash.
pub fn presign_stripe(
    shard: &Shard,
    count: usize,
    threads: usize,
    thread: usize,
    blockhash: &[u8; 32],
) -> (texts: Vec<String>)
    requires
        shard.wf(),
        shard.pair_count() >= 1,
        thread < threads,
        count + threads <= usize::MAX,
    ensures
        texts_view(texts@) == stripe_texts(
            *shard,
            count as nat,
            threads as nat,
            thread as nat,
            blockhash@,
        ),
{
    let pairs: usize = shard.load_pairs();
    let mut texts: Vec<String> = Vec::with_capacity(count / threads + 1);
    let mut index: usize = thread;
    let ghost all = presigned_texts(
        *shard,
        stripe(thread as nat, threads as nat, count as nat),
        pairs as nat,
        blockhash@,
    );
    assert(texts_view(texts@) + all =~= all);
    while index < count
        invariant
            shard.wf(),
            1 <= pairs <= shard.pair_count(),
            2 * pairs <= usize::MAX,
            threads > 0,
            count + threads <= usize::MAX,
            texts_view(texts@) + presigned_texts(
                *shard,
                stripe(index as nat, threads as nat, count as nat),
                pairs as nat,
                blockhash@,
            ) == all,
        decreases
                if index < count {
                    count - index
                } else {
                    0
                },
    {
        let transfer = Transfer::presigned(index, pairs);
        let ghost before = texts_view(texts@);
        let ghost left = stripe(index as nat, threads as nat, count as nat);
        let ghost later = stripe((index + threads) as nat, threads as nat, count as nat);
        let ghost rest = presigned_texts(*shard, later, pairs as nat, blockhash@);
        proof {
            presigned_has_its_number(index as nat, pairs as nat);
            assert(0 <= index as int % pairs as int <= pairs - 1);
            assert(presigned(index as nat, pairs as nat) == transfer);
            assert(presigned_texts(*shard, left, pairs as nat, blockhash@) =~= seq![
                shard.text_of(transfer, blockhash@),
            ] + rest);
        }
        if let Ok(text) = shard.encode_transfer(&transfer, blockhash) {
            let ghost added = text@;
            texts.push(text);
            proof {
                assert(texts_view(texts@) =~= before.push(added));
                assert(before.push(added) + rest =~= before + (seq![added] + rest));
            }
        }
        index = index + threads;
    }
    proof {
        assert(presigned_texts(
            *shard,
            stripe(index as nat, threads as nat, count as nat),
            pairs as nat,
            blockhash@,
        ) == Seq::<Seq<char>>::empty());
        assert(texts_view(texts@) =~= all);
    }
    texts
}

/// The stripes of several threads one after the other.
pub fn merge_stripes(stripes: Vec<Vec<String>>) -> (texts: Vec<String>)
    ensures
        texts@ == stripes@.map_values(|stripe: Vec<String>| stripe@).flatten(),
        texts_view(texts@) == stripes@.map_values(
            |stripe: Vec<String>| texts_view(stripe@),
        ).flatten(),
{
    let ghost views = stripes@.map_values(|stripe: Vec<String>| stripe@);
    let mut texts: Vec<String> = Vec::new();
    for stripe in it: stripes
        invariant
            it.seq() == stripes@,
            views == stripes@.map_values(|stripe: Vec<String>| stripe@),
            texts@ == views.take(it.index() as int).flatten(),
    {
        let ghost i = it.index() as int;
        let ghost before = texts@;
        let ghost added = stripe@;
        let mut stripe = stripe;
        texts.append(&mut stripe);
        proof {
            assert(views.take(i + 1) =~= views.take(i).push(added));
            views.take(i).lemma_flatten_push(added);
        }
    }
    proof {
        let f = |text: String| text@;
        assert(views.take(views.len() as int) =~= views);
        mapped_when_joined(views, f);
        assert(views.map_values(|list: Seq<String>| list.map_values(f)) =~= stripes@.map_values(
            |stripe: Vec<String>| texts_view(stripe@),
        ));
        assert(texts_view(texts@) =~= views.flatten().map_values(f));
    }
    texts
}

/// Place `k` of a stripe is `k` steps of `threads` after its start.
proof fn stripe_places(index: nat, threads: nat, count: nat, k: int)
    requires
        threads > 0,
        0 <= k < stripe(index, threads, count).len(),
    ensures
        stripe(index, threads, count)[k] == index + k * threads,
        index + k * threads < count,
    decreases k,
{
    if k > 0 {
        stripe_places(index + threads, threads, count, k - 1);
        assert(threads + (k - 1) * threads == k * threads) by (nonlinear_arith);
    } else {
        assert(0 * threads == 0);
    }
}

/// A stripe holds every `threads`-th number below `count` from its start on.
proof fn stripe_holds(index: nat, threads: nat, count: nat, k: int)
    requires
        threads > 0,
        0 <= k,
        index + k * threads < count,
    ensures
        k < stripe(index, threads, count).len(),
    decreases k,
{
    if k > 0 {
        assert(threads + (k - 1) * threads == k * threads) by (nonlinear_arith);
        assert((k - 1) * threads >= 0) by (nonlinear_arith)
            requires
                k > 0,
        ;
        stripe_holds(index + threads, threads, count, k - 1);
    } else {
        assert(0 * threads == 0);
    }
}

/// Pre-signing threads share the run out: transfer `index` is in the stripe of
/// thread `index % threads`, once, and in no other.
pub proof fn stripes_partition_the_run(threads: nat, count: nat, thread: nat)
    requires
        thread < threads,
    ensures
        stripe(thread, threads, count).no_duplicates(),
        forall|index: nat| #[trigger]
            stripe(thread, threads, count).contains(index) <==> index < count && index % threads
                == thread,
{
    let s = stripe(thread, threads, count);
    assert forall|a: int, b: int| 0 <= a < s.len() && 0 <= b < s.len() && a != b implies s[a]
        != s[b] by {
        stripe_places(thread, threads, count, a);
        stripe_places(thread, threads, count, b);
        assert(a * threads != b * threads) by (nonlinear_arith)
            requires
                a != b,
                threads > 0,
        ;
    }
    assert forall|index: nat| #[trigger] s.contains(index) <==> index < count && index % threads
        == thread by {
        if s.contains(index) {
            let k = choose|k: int| 0 <= k < s.len() && s[k] == index;
            stripe_places(thread, threads, count, k);
            vstd::arithmetic::div_mod::lemma_fundamental_div_mod_converse(
                index as int,
                threads as int,
                k,
                thread as int,
            );
        }
        if index < count && index % threads == thread {
            let k = (index / threads) as int;
            vstd::arithmetic::div_mod::lemma_fundamental_div_mod(index as int, threads as int);
            assert(thread + k * threads == index) by (nonlinear_arith)
                requires
                    index == threads * k + thread,
            ;
            stripe_holds(thread, threads, count, k);
            stripe_places(thread, threads, count, k);
        }
    }
}

/// The stripes of several threads, one after the other.
pub open spec fn merged_stripes(threads: nat, count: nat) -> Seq<nat> {
    Seq::new(threads, |t: int| stripe(t as nat, threads, count)).flatten()
}

/// The texts of the stripes of several threads, one after the other.
pub open spec fn merged_texts(
    shard: Shard,
    threads: nat,
    count: nat,
    blockhash: Seq<u8>,
) -> Seq<Seq<char>> {
    Seq::new(
        threads,
        |t: int| stripe_texts(shard, count, threads, t as nat, blockhash),
    ).flatten()
}

/// The first `upto` stripes hold, each once, the transfers whose number leaves
/// a remainder below `upto`.
proof fn some_stripes_hold(threads: nat, count: nat, upto: nat)
    requires
        upto <= threads,
    ensures
        ({
            let merged = Seq::new(upto, |t: int| stripe(t as nat, threads, count)).flatten();
            &&& merged.no_duplicates()
            &&& forall|index: nat| #[trigger]
                merged.contains(index) <==> index < count && threads > 0 && index % threads < upto
        }),
    decreases upto,
{
    let stripes = Seq::new(upto, |t: int| stripe(t as nat, threads, count));
    let merged = stripes.flatten();
    if upto == 0 {
        assert(stripes =~= Seq::<Seq<nat>>::empty());
        assert(merged =~= Seq::<nat>::empty());
    } else {
        let last = (upto - 1) as nat;
        let fewer = Seq::new(last, |t: int| stripe(t as nat, threads, count));
        let added = stripe(last, threads, count);
        some_stripes_hold(threads, count, last);
        stripes_partition_the_run(threads, count, last);
        assert(stripes =~= fewer.push(added));
        fewer.lemma_flatten_push(added);
        let before = fewer.flatten();
        assert(merged == before + added);
        assert forall|index: nat| #[trigger]
            merged.contains(index) <==> before.contains(index) || added.contains(index) by {
            if before.contains(index) {
                let k = choose|k: int| 0 <= k < before.len() && before[k] == index;
                assert(merged[k] == index);
            }
            if added.contains(index) {
                let k = choose|k: int| 0 <= k < added.len() && added[k] == index;
                assert(merged[before.len() + k] == index);
            }
        }
        assert forall|a: int, b: int| 0 <= a < b < merged.len() implies merged[a] != merged[b] by {
            if b < before.len() {
                assert(before[a] != before[b]);
            } else if a >= before.len() {
                assert(added[a - before.len()] != added[b - before.len()]);
            } else {
                assert(before.contains(merged[a]));
                assert(added.contains(merged[b]));
            }
        }
        assert(merged.no_duplicates());
    }
}

/// Whatever the number of threads, the merged stripes are the run of a single
/// thread in another order, and that is every transfer once, by number.
pub proof fn merged_stripes_are_the_run(threads: nat, count: nat)
    requires
        threads > 0,
    ensures
        stripe(0, 1, count) == Seq::new(count, |i: int| i as nat),
        merged_stripes(threads, count).to_multiset() == stripe(0, 1, count).to_multiset(),
        merged_stripes(threads, count).len() == count,
{
    let (merged, alone) = (merged_stripes(threads, count), stripe(0, 1, count));
    some_stripes_hold(threads, count, threads);
    stripes_partition_the_run(1, count, 0);
    single_stripe_counts(0, count);
    assert(alone =~= Seq::new(count, |i: int| i as nat));
    assert forall|index: nat| merged.to_multiset().count(index) == alone.to_multiset().count(
        index,
    ) by {
        merged.lemma_multiset_has_no_duplicates();
        alone.lemma_multiset_has_no_duplicates();
        vstd::seq_lib::to_multiset_contains(merged, index);
        vstd::seq_lib::to_multiset_contains(alone, index);
        assert(merged.contains(index) <==> index < count && index % threads < threads);
        assert(alone.contains(index) <==> index < count && index % 1 == 0);
    }
    assert(merged.to_multiset() =~= alone.to_multiset());
    vstd::seq_lib::to_multiset_len(merged);
    vstd::seq_lib::to_multiset_len(alone);
}

/// The stripe of a single thread counts up to the end.
proof fn single_stripe_counts(index: nat, count: nat)
    requires
        index <= count,
    ensures
        stripe(index, 1, count) == Seq::new((count - index) as nat, |i: int| (index + i) as nat),
    decreases count - index,
{
    if index < count {
        single_stripe_counts(index + 1, count);
        assert(stripe(index, 1, count) =~= Seq::new(
            (count - index) as nat,
            |i: int| (index + i) as nat,
        ));
    }
}

/// Lists with the same items, each as often, map to such lists.
proof fn mapped_in_another_order<A, B>(a: Seq<A>, b: Seq<A>, f: spec_fn(A) -> B)
    requires
        a.to_multiset() == b.to_multiset(),
    ensures
        a.map_values(f).to_multiset() == b.map_values(f).to_multiset(),
    decreases a.len(),
{
    vstd::seq_lib::to_multiset_len(a);
    vstd::seq_lib::to_multiset_len(b);
    if a.len() == 0 {
        assert(a.map_values(f) =~= b.map_values(f));
    } else {
        let n = a.len() - 1;
        let item = a[n];
        assert(a.contains(item));
        vstd::seq_lib::to_multiset_contains(a, item);
        vstd::seq_lib::to_multiset_contains(b, item);
        let k = choose|k: int| 0 <= k < b.len() && b[k] == item;
        vstd::seq_lib::to_multiset_remove(a, n);
        vstd::seq_lib::to_multiset_remove(b, k);
        mapped_in_another_order(a.remove(n), b.remove(k), f);
        let (fa, fb) = (a.map_values(f), b.map_values(f));
        assert(fa.remove(n) =~= a.remove(n).map_values(f));
        assert(fb.remove(k) =~= b.remove(k).map_values(f));
        assert(fa.remove(n).insert(n, f(item)) =~= fa);
        assert(fb.remove(k).insert(k, f(item)) =~= fb);
        vstd::seq_lib::to_multiset_insert(fa.remove(n), n, f(item));
        vstd::seq_lib::to_multiset_insert(fb.remove(k), k, f(item));
    }
}

/// Mapping the items of several lists and joining the lists is the same in
/// either order.
proof fn mapped_when_joined<A, B>(lists: Seq<Seq<A>>, f: spec_fn(A) -> B)
    ensures
        lists.map_values(|list: Seq<A>| list.map_values(f)).flatten() == lists.flatten().map_values(
            f,
        ),
    decreases lists.len(),
{
    let mapped = lists.map_values(|list: Seq<A>| list.map_values(f));
    if lists.len() == 0 {
        assert(mapped.flatten() =~= lists.flatten().map_values(f));
    } else {
        let (fewer, last) = (lists.drop_last(), lists.last());
        mapped_when_joined(fewer, f);
        let fewer_mapped = fewer.map_values(|list: Seq<A>| list.map_values(f));
        assert(lists =~= fewer.push(last));
        assert(mapped =~= fewer_mapped.push(last.map_values(f)));
        fewer.lemma_flatten_push(last);
        fewer_mapped.lemma_flatten_push(last.map_values(f));
        assert(mapped.flatten() =~= lists.flatten().map_values(f));
    }
}

/// Whatever the number of threads, the texts of the merged stripes are those
/// that a single thread signs, in another order: one for each transfer.
pub proof fn merged_texts_are_the_run(
    shard: Shard,
    threads: nat,
    count: nat,
    blockhash: Seq<u8>,
)
    requires
        threads > 0,
    ensures
        merged_texts(shard, threads, count, blockhash) == presigned_texts(
            shard,
            merged_stripes(threads, count),
            shard.load_pair_count(),
            blockhash,
        ),
        merged_texts(shard, threads, count, blockhash).to_multiset() == merged_texts(
            shard,
            1,
            count,
            blockhash,
        ).to_multiset(),
        merged_texts(shard, threads, count, blockhash).len() == count,
{
    let f = |index: nat| shard.text_of(presigned(index, shard.load_pair_count()), blockhash);
    joined_texts_are_mapped(shard, threads, count, blockhash);
    joined_texts_are_mapped(shard, 1, count, blockhash);
    merged_stripes_are_the_run(threads, count);
    merged_stripes_are_the_run(1, count);
    mapped_in_another_order(merged_stripes(threads, count), merged_stripes(1, count), f);
}

/// The merged texts are the texts of the merged stripes.
proof fn joined_texts_are_mapped(shard: Shard, threads: nat, count: nat, blockhash: Seq<u8>)
    ensures
        merged_texts(shard, threads, count, blockhash) == merged_stripes(
            threads,
            count,
        ).map_values(
            |index: nat| shard.text_of(presigned(index, shard.load_pair_count()), blockhash),
        ),
{
    let f = |index: nat| shard.text_of(presigned(index, shard.load_pair_count()), blockhash);
    let stripes = Seq::new(threads, |t: int| stripe(t as nat, threads, count));
    mapped_when_joined(stripes, f);
    assert(stripes.map_values(|list: Seq<nat>| list.map_values(f)) =~= Seq::new(
        threads,
        |t: int| stripe_texts(shard, count, threads, t as nat, blockhash),
    ));
}

/// The instruction of a token transfer, by its parts: the source and the
/// destination are written to, and the authority signs.
pub open spec fn token_transfer(
    source: Seq<u8>,
    destination: Seq<u8>,
    authority: Seq<u8>,
    amount: u64,
) -> InstructionView {
    InstructionView {
        program_id: SPL_TOKEN_ID@,
        accounts: seq![
            AccountMetaView { address: source, is_signer: false, is_writable: true },
            AccountMetaView { address: destination, is_signer: false, is_writable: true },
            AccountMetaView { address: authority, is_signer: true, is_writable: false },
        ],
        data: seq![3u8] + le_bytes(amount as nat, 8),
    }
}

/// A signed transfer moves its amount from the sender's token account to the
/// receiver's, in either direction: the source stands at the sender's place,
/// the destination at the receiver's, and the sender alone pays and signs. Its
/// text is the base64 of those very bytes.
pub proof fn transfers_move_from_sender_to_receiver(
    shard: Shard,
    transfer: Transfer,
    blockhash: Seq<u8>,
)
    requires
        shard.wf(),
        transfer.from < shard.users@.len(),
        transfer.to < shard.users@.len(),
    ensures
        shard.wire_of(transfer, blockhash) == signed_wire(
            seq![
                token_transfer(
                    shard.atas@[transfer.from as int]@,
                    shard.atas@[transfer.to as int]@,
                    shard.users@[transfer.from as int].key(),
                    transfer.amount,
                ),
            ],
            shard.users@[transfer.from as int].key(),
            seq![shard.users@[transfer.from as int].secret_key()],
            blockhash,
        ),
        shard.text_of(transfer, blockhash) == base64_text(shard.wire_of(transfer, blockhash)),
{
    let from = shard.users@[transfer.from as int];
    let (src, dst) = (shard.atas@[transfer.from as int]@, shard.atas@[transfer.to as int]@);
    assert(transfer_ix(src, dst, from.key(), transfer.amount) =~= token_transfer(
        src,
        dst,
        from.key(),
        transfer.amount,
    ));
}

/// Sending the amount back names the same two accounts the other way round,
/// and is signed by the other user.
pub proof fn transfers_back_swap_the_accounts(
    shard: Shard,
    there: Transfer,
    back: Transfer,
    blockhash: Seq<u8>,
)
    requires
        shard.wf(),
        there.from < shard.users@.len(),
        there.to < shard.users@.len(),
        back.from == there.to,
        back.to == there.from,
    ensures
        shard.wire_of(back, blockhash) == signed_wire(
            seq![
                token_transfer(
                    shard.atas@[there.to as int]@,
                    shard.atas@[there.from as int]@,
                    shard.users@[there.to as int].key(),
                    back.amount,
                ),
            ],
            shard.users@[there.to as int].key(),
            seq![shard.users@[there.to as int].secret_key()],
            blockhash,
        ),
{
    transfers_move_from_sender_to_receiver(shard, back, blockhash);
}

/// A pair's first user stands at an even place and the second behind it: a
/// forward transfer goes from the first to the second, a backward one from the
/// second to the first, and nothing else is a transfer of the pair.
pub proof fn pairs_stand_next_to_each_other(
    transfer: Transfer,
    pair: int,
    forward: bool,
    amount: int,
)
    ensures
        transfer.moves(pair, true, amount) <==> transfer.from == 2 * pair && transfer.to == 2 * pair
            + 1 && transfer.amount == amount,
        transfer.moves(pair, false, amount) <==> transfer.to == 2 * pair && transfer.from == 2
            * pair + 1 && transfer.amount == amount,
{
}

/// A shard's users form pairs, with at most one left over. All pairs are the
/// load's, but for the one that is kept for the probe: the last, where there
/// are several.
pub proof fn every_pair_is_loaded_or_reserved(shard: Shard)
    ensures
        shard.users@.len() == 2 * shard.pair_count() || shard.users@.len() == 2
            * shard.pair_count() + 1,
        shard.pair_count() >= 2 ==> shard.load_pair_count() + 1 == shard.pair_count()
            && shard.reserved_pair() == Some(shard.load_pair_count()),
        shard.pair_count() == 1 ==> shard.load_pair_count() == 1 && shard.reserved_pair() is None,
{
}

/// A pre-signed run begins with one unit forward in every pair, in order.
/// Each later round goes over the pairs again in the opposite direction, with
/// one unit more whenever it goes forward.
pub proof fn presigned_runs_go_back_and_forth(
    index: int,
    pairs: int,
    now: Transfer,
    next: Transfer,
)
    requires
        pairs > 0,
        0 <= index,
        now.is_presigned(index, pairs),
        next.is_presigned(index + pairs, pairs),
    ensures
        index < pairs ==> now.from == 2 * index && now.to == 2 * index + 1 && now.amount == 1,
        next.from == now.to,
        next.to == now.from,
        now.from < now.to ==> next.amount == now.amount,
        now.from > now.to ==> next.amount == now.amount + 1,
{
    let (q, r) = (index / pairs, index % pairs);
    vstd::arithmetic::div_mod::lemma_fundamental_div_mod(index, pairs);
    assert(index + pairs == (q + 1) * pairs + r) by (nonlinear_arith)
        requires
            index == pairs * q + r,
    ;
    vstd::arithmetic::div_mod::lemma_fundamental_div_mod_converse(index + pairs, pairs, q + 1, r);
    if index < pairs {
        vstd::arithmetic::div_mod::lemma_fundamental_div_mod_converse(index, pairs, 0, index);
    }
}

/// A just-in-time transfer stays in the pair it is made on. Amounts begin at
/// one when the counter stands at zero, grow by one with each count, and begin
/// again after 995; even counts go forward.
pub proof fn just_in_time_amounts_go_round(pair: int, counter: int, now: Transfer, next: Transfer)
    requires
        0 <= counter,
        now.is_just_in_time(pair, counter),
        next.is_just_in_time(pair, counter + 1),
    ensures
        counter == 0 ==> now.amount == 1,
        1 <= now.amount <= 995,
        now.amount < 995 ==> next.amount == now.amount + 1,
        now.amount == 995 ==> next.amount == 1,
        counter % 2 == 0 ==> now.from == 2 * pair && now.to == 2 * pair + 1,
        counter % 2 == 1 ==> now.from == 2 * pair + 1 && now.to == 2 * pair,
{
}

/// What a signing thread makes of its part of a run: its text number `k` is
/// the base64 of the signed transfer number `thread + k * threads`, which moves
/// that transfer's amount from its sender's account to its receiver's.
pub proof fn threads_sign_every_so_many_transfers(
    shard: Shard,
    count: nat,
    threads: nat,
    thread: nat,
    blockhash: Seq<u8>,
    k: int,
    transfer: Transfer,
)
    requires
        shard.wf(),
        shard.pair_count() >= 1,
        shard.users@.len() <= usize::MAX,
        count <= usize::MAX,
        thread < threads,
        0 <= k < stripe_texts(shard, count, threads, thread, blockhash).len(),
        transfer.is_presigned(thread + k * threads, shard.load_pair_count() as int),
    ensures
        thread + k * threads < count,
        transfer.from < shard.users@.len(),
        transfer.to < shard.users@.len(),
        stripe_texts(shard, count, threads, thread, blockhash)[k] == base64_text(
            signed_wire(
                seq![
                    token_transfer(
                        shard.atas@[transfer.from as int]@,
                        shard.atas@[transfer.to as int]@,
                        shard.users@[transfer.from as int].key(),
                        transfer.amount,
                    ),
                ],
                shard.users@[transfer.from as int].key(),
                seq![shard.users@[transfer.from as int].secret_key()],
                blockhash,
            ),
        ),
{
    let index = thread + k * threads;
    let pairs = shard.load_pair_count();
    stripe_places(thread, threads, count, k);
    assert(0 <= k * threads) by (nonlinear_arith)
        requires
            0 <= k,
    ;
    presigned_has_its_number(index as nat, pairs);
    assert(0 <= index % pairs as int <= pairs - 1);
    assert(presigned(index as nat, pairs) == transfer);
    transfers_move_from_sender_to_receiver(shard, transfer, blockhash);
}

/// On a shard whose token accounts all differ, no two transfers of a
/// pre-signed run are sent as the same message: the bytes of each are those of
/// one token transfer between the accounts at its places, paid and signed by
/// its sender, and no two of these transfers are alike.
pub proof fn presigned_messages_differ(
    shard: Shard,
    i: int,
    j: int,
    a: Transfer,
    b: Transfer,
    blockhash: Seq<u8>,
)
    requires
        shard.wf(),
        shard.pair_count() >= 1,
        forall|m: int, n: int|
            0 <= m < n < shard.atas@.len() ==> (#[trigger] shard.atas@[m])@ != (
            #[trigger] shard.atas@[n])@,
        0 <= i,
        0 <= j,
        i != j,
        a.is_presigned(i, shard.load_pair_count() as int),
        b.is_presigned(j, shard.load_pair_count() as int),
    ensures
        ({
            let first = token_transfer(
                shard.atas@[a.from as int]@,
                shard.atas@[a.to as int]@,
                shard.users@[a.from as int].key(),
                a.amount,
            );
            let second = token_transfer(
                shard.atas@[b.from as int]@,
                shard.atas@[b.to as int]@,
                shard.users@[b.from as int].key(),
                b.amount,
            );
            &&& first != second
            &&& shard.wire_of(a, blockhash) == signed_wire(
                seq![first],
                shard.users@[a.from as int].key(),
                seq![shard.users@[a.from as int].secret_key()],
                blockhash,
            )
            &&& shard.wire_of(b, blockhash) == signed_wire(
                seq![second],
                shard.users@[b.from as int].key(),
                seq![shard.users@[b.from as int].secret_key()],
                blockhash,
            )
        }),
{
    let pairs = shard.load_pair_count() as int;
    assert(0 <= i % pairs < pairs && 0 <= j % pairs < pairs);
    assert(a.from < shard.atas@.len() && b.from < shard.atas@.len());
    assert(a.to < shard.atas@.len() && b.to < shard.atas@.len());
    presigned_transfers_differ(i, j, pairs, a, b);
    transfers_move_from_sender_to_receiver(shard, a, blockhash);
    transfers_move_from_sender_to_receiver(shard, b, blockhash);
    let x = token_transfer(
        shard.atas@[a.from as int]@,
        shard.atas@[a.to as int]@,
        shard.users@[a.from as int].key(),
        a.amount,
    );
    let y = token_transfer(
        shard.atas@[b.from as int]@,
        shard.atas@[b.to as int]@,
        shard.users@[b.from as int].key(),
        b.amount,
    );
    if a.from != b.from {
        assert(x.accounts[0].address != y.accounts[0].address);
    } else {
        crate::bytes::le_bytes_round_trip(a.amount);
        crate::bytes::le_bytes_round_trip(b.amount);
        assert(x.data.skip(1) =~= le_bytes(a.amount as nat, 8));
        assert(y.data.skip(1) =~= le_bytes(b.amount as nat, 8));
    }
}

} // verus!
