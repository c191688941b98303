//! Plans of setup transactions.
use crate::chunks::{chunk_count, chunk_end, chunk_start};
use crate::instruction::{ixs_view, AccountMetaView, Instruction, InstructionView};
use crate::signing::{asks_for, can_sign, few_mentions_fit, mentioned, must_sign};
use vstd::prelude::*;

verus! {

/// Who signs a planned transaction.
#[derive(Clone, Copy, Debug, PartialEq, Eq, Structural)]
pub enum SignerRef {
    Payer,
    Mint,
    User(usize),
}

/// One transaction of a setup plan: instructions plus the signers (payer first).
pub struct PlannedTx {
    pub ixs: Vec<Instruction>,
    pub signer_indexes: Vec<SignerRef>,
}

/// What a [`PlannedTx`] says.
#[verifier::ext_equal]
pub struct PlannedTxView {
    pub ixs: Seq<InstructionView>,
    pub signers: Seq<SignerRef>,
}

impl View for PlannedTx {
    type V = PlannedTxView;

    open spec fn view(&self) -> PlannedTxView {
        PlannedTxView { ixs: ixs_view(self.ixs@), signers: self.signer_indexes@ }
    }
}

/// What each transaction of a plan says.
pub open spec fn plan_view(plan: Seq<PlannedTx>) -> Seq<PlannedTxView> {
    plan.map_values(|planned: PlannedTx| planned@)
}

/// What each user's instructions say.
pub open spec fn per_user_view(per_user: Seq<Vec<Instruction>>) -> Seq<Seq<InstructionView>> {
    per_user.map_values(|ixs: Vec<Instruction>| ixs_view(ixs@))
}

/// The signers of a transaction for the users from `start` up to `end`: the
/// payer, and the users too if they must sign.
pub open spec fn chunk_signers(start: int, end: int, by_users: bool) -> Seq<SignerRef> {
    if by_users {
        seq![SignerRef::Payer] + Seq::new(
            (end - start) as nat,
            |j: int| SignerRef::User((start + j) as usize),
        )
    } else {
        seq![SignerRef::Payer]
    }
}

/// The transaction that carries the instructions of the users from `start` up
/// to `end`.
pub open spec fn planned_chunk(
    per_user: Seq<Seq<InstructionView>>,
    start: int,
    end: int,
    by_users: bool,
) -> PlannedTxView {
    PlannedTxView {
        ixs: per_user.subrange(start, end).flatten(),
        signers: chunk_signers(start, end, by_users),
    }
}

/// A plan that puts the instructions of `per_tx` users at a time into one
/// transaction.
pub open spec fn chunked(
    per_user: Seq<Seq<InstructionView>>,
    per_tx: nat,
    by_users: bool,
) -> Seq<PlannedTxView> {
    Seq::new(
        chunk_count(per_user.len(), per_tx),
        |c: int|
            planned_chunk(
                per_user,
                chunk_start(c as nat, per_tx) as int,
                chunk_end(c as nat, per_tx, per_user.len()) as int,
                by_users,
            ),
    )
}

/// Builds a plan grouping `per_tx` users into each transaction, signed by the
/// payer and, if `by_users`, by those users.
pub fn chunked_plan(per_tx: usize, per_user: Vec<Vec<Instruction>>, by_users: bool) -> (plan: Vec<
    PlannedTx,
>)
    requires
        per_tx > 0,
    ensures
        plan_view(plan@) == chunked(per_user_view(per_user@), per_tx as nat, by_users),
{
    let len: usize = per_user.len();
    let ghost views = per_user_view(per_user@);
    let mut plan: Vec<PlannedTx> = Vec::new();
    let mut ixs: Vec<Instruction> = Vec::new();
    let mut signers: Vec<SignerRef> = vec![SignerRef::Payer];
    let mut grouped: usize = 0;
    let mut i: usize = 0;
    proof {
        assert(0 * per_tx == 0);
        assert(views.subrange(0, 0) =~= Seq::<Seq<InstructionView>>::empty());
        assert(ixs_view(ixs@) =~= views.subrange(0, 0).flatten());
        assert(signers@ =~= chunk_signers(0, 0, by_users));
    }
    for user_ixs in it: per_user
        invariant
            it.seq() == per_user@,
            i == it.index(),
            len == per_user@.len(),
            views == per_user_view(per_user@),
            per_tx > 0,
            grouped < per_tx,
            plan@.len() * per_tx + grouped == i,
            forall|c: int|
                0 <= c < plan@.len() ==> (#[trigger] plan@[c])@ == planned_chunk(
                    views,
                    c * per_tx,
                    (c + 1) * per_tx,
                    by_users,
                ),
            ixs_view(ixs@) == views.subrange(plan@.len() * per_tx, i as int).flatten(),
            signers@ == chunk_signers(plan@.len() * per_tx, i as int, by_users),
    {
        let ghost start = plan@.len() * per_tx;
        let ghost before = ixs_view(ixs@);
        let ghost signed = signers@;
        let ghost added = ixs_view(user_ixs@);
        assert(added == views[i as int]);
        let mut user_ixs = user_ixs;
        ixs.append(&mut user_ixs);
        if by_users {
            signers.push(SignerRef::User(i));
        }
        proof {
            let group = views.subrange(start, i as int);
            assert(start <= i);
            assert(views.subrange(start, i + 1) =~= group.push(added));
            group.lemma_flatten_push(added);
            assert(ixs_view(ixs@) =~= before + added);
            assert(signers@ =~= chunk_signers(start, i + 1, by_users));
        }
        i = i + 1;
        grouped = grouped + 1;
        if grouped == per_tx {
            let ghost earlier = plan@;
            plan.push(PlannedTx { ixs, signer_indexes: signers });
            ixs = Vec::new();
            signers = vec![SignerRef::Payer];
            grouped = 0;
            proof {
                let n = earlier.len() as int;
                assert((n + 1) * per_tx == n * per_tx + per_tx) by (nonlinear_arith);
                assert(plan@[n]@ =~= planned_chunk(views, n * per_tx, (n + 1) * per_tx, by_users));
                assert(views.subrange(i as int, i as int) =~= Seq::<Seq<InstructionView>>::empty());
                assert(ixs_view(ixs@) =~= views.subrange(i as int, i as int).flatten());
                assert(signers@ =~= chunk_signers(i as int, i as int, by_users));
            }
        }
    }
    let ghost full = plan@.len();
    proof {
        assert(i == len);
        assert forall|c: int| 0 <= c < full implies (#[trigger] plan@[c])@ == planned_chunk(
            views,
            chunk_start(c as nat, per_tx as nat) as int,
            chunk_end(c as nat, per_tx as nat, len as nat) as int,
            by_users,
        ) by {
            assert((c + 1) * per_tx <= full * per_tx) by (nonlinear_arith)
                requires
                    c < full,
            ;
        }
        vstd::arithmetic::div_mod::lemma_fundamental_div_mod_converse(
            len as int,
            per_tx as int,
            full as int,
            grouped as int,
        );
    }
    if grouped > 0 {
        plan.push(PlannedTx { ixs, signer_indexes: signers });
        proof {
            assert((full + 1) * per_tx == full * per_tx + per_tx) by (nonlinear_arith);
            assert(chunk_end(full, per_tx as nat, len as nat) == len);
            assert(plan@[full as int]@ =~= planned_chunk(
                views,
                chunk_start(full, per_tx as nat) as int,
                len as int,
                by_users,
            ));
        }
    }
    proof {
        assert(plan_view(plan@) =~= chunked(views, per_tx as nat, by_users));
    }
    plan
}

/// What a plan's transactions carry, one after the other.
pub open spec fn carried(plan: Seq<PlannedTxView>) -> Seq<InstructionView> {
    plan.map_values(|planned: PlannedTxView| planned.ixs).flatten()
}

/// The first `c` chunks of a plan carry the instructions of the users they
/// reach.
proof fn chunks_carry(per_user: Seq<Seq<InstructionView>>, per_tx: nat, by_users: bool, c: nat)
    requires
        per_tx > 0,
        c <= chunk_count(per_user.len(), per_tx),
    ensures
        carried(chunked(per_user, per_tx, by_users).take(c as int)) == per_user.take(
            if c * per_tx <= per_user.len() {
                (c * per_tx) as int
            } else {
                per_user.len() as int
            },
        ).flatten(),
    decreases c,
{
    let plan = chunked(per_user, per_tx, by_users);
    if c == 0 {
        assert(0 * per_tx == 0);
        assert(plan.take(0).map_values(|planned: PlannedTxView| planned.ixs) =~= Seq::<
            Seq<InstructionView>,
        >::empty());
        assert(per_user.take(0) =~= Seq::<Seq<InstructionView>>::empty());
    } else {
        let before = (c - 1) as nat;
        chunks_carry(per_user, per_tx, by_users, before);
        chunk_lies_inside(per_user.len(), per_tx, before);
        let (start, end) = (
            chunk_start(before, per_tx) as int,
            chunk_end(before, per_tx, per_user.len()) as int,
        );
        let group = per_user.subrange(start, end);
        assert(plan.take(c as int).map_values(|planned: PlannedTxView| planned.ixs)
            =~= plan.take(before as int).map_values(|planned: PlannedTxView| planned.ixs).push(
            group.flatten(),
        ));
        plan.take(before as int).map_values(
            |planned: PlannedTxView| planned.ixs,
        ).lemma_flatten_push(group.flatten());
        assert(per_user.take(end) =~= per_user.take(start) + group);
        vstd::seq_lib::lemma_flatten_concat(per_user.take(start), group);
    }
}

/// A chunk of the plan starts inside the list.
pub proof fn chunk_lies_inside(len: nat, size: nat, k: nat)
    requires
        size > 0,
        k < chunk_count(len, size),
    ensures
        k * size < len,
        (k + 1) * size == k * size + size,
{
    vstd::arithmetic::div_mod::lemma_fundamental_div_mod(len as int, size as int);
    let (q, r) = (len / size, len % size);
    assert((k + 1) * size == k * size + size) by (nonlinear_arith);
    assert(k * size < len) by (nonlinear_arith)
        requires
            len == size * q + r,
            r == 0 ==> k < q,
            r > 0 ==> k <= q,
            size > 0,
            0 <= r,
    ;
}

/// A plan carries every user's instructions exactly once and in order.
pub proof fn plans_carry_every_instruction(
    per_user: Seq<Seq<InstructionView>>,
    per_tx: nat,
    by_users: bool,
)
    requires
        per_tx > 0,
    ensures
        carried(chunked(per_user, per_tx, by_users)) == per_user.flatten(),
{
    let count = chunk_count(per_user.len(), per_tx);
    chunks_carry(per_user, per_tx, by_users, count);
    let plan = chunked(per_user, per_tx, by_users);
    assert(plan.take(count as int) =~= plan);
    vstd::arithmetic::div_mod::lemma_fundamental_div_mod(per_user.len() as int, per_tx as int);
    let (q, r) = (per_user.len() / per_tx, per_user.len() % per_tx);
    assert(count * per_tx >= per_user.len()) by (nonlinear_arith)
        requires
            per_user.len() == per_tx * q + r,
            r < per_tx,
            r == 0 ==> count == q,
            r > 0 ==> count == q + 1,
    ;
    assert(per_user.take(per_user.len() as int) =~= per_user);
    if count * per_tx <= per_user.len() {
        assert(count * per_tx == per_user.len());
    }
}

/// A concatenation mentions what the one list mentions and then what the other
/// does.
proof fn mentions_add_up(a: Seq<InstructionView>, b: Seq<InstructionView>)
    ensures
        mentioned(a + b) == mentioned(a) + mentioned(b),
    decreases b.len(),
{
    if b.len() == 0 {
        assert(a + b =~= a);
        assert(mentioned(a) + mentioned(b) =~= mentioned(a));
    } else {
        mentions_add_up(a, b.drop_last());
        assert((a + b).drop_last() =~= a + b.drop_last());
        assert(mentioned(a + b) =~= mentioned(a) + mentioned(b));
    }
}

/// Whether one user's instructions ask for no signature but those of the payer
/// and, if the user must sign, of the user; whether they then do ask for the
/// user's; and whether they are small.
pub open spec fn is_user_part(
    ixs: Seq<InstructionView>,
    payer: Seq<u8>,
    user: Seq<u8>,
    by_user: bool,
    max_mentions: nat,
) -> bool {
    &&& mentioned(ixs).len() <= max_mentions
    &&& forall|i: int| 0 <= i < ixs.len() ==> (#[trigger] ixs[i]).data.len() <= 65535
    &&& forall|i: int, j: int|
        0 <= i < ixs.len() && 0 <= j < ixs[i].accounts.len() && (
        #[trigger] ixs[i].accounts[j]).is_signer ==> ixs[i].accounts[j].address == payer || (by_user
            && ixs[i].accounts[j].address == user)
    &&& by_user ==> asks_for(ixs, user)
}

/// The keys of a transaction's signers.
pub open spec fn chunk_keys(
    payer: Seq<u8>,
    users: Seq<Seq<u8>>,
    start: int,
    end: int,
    by_users: bool,
) -> Seq<Seq<u8>> {
    if by_users {
        seq![payer] + users.subrange(start, end)
    } else {
        seq![payer]
    }
}

/// A transaction for users whose parts are in order can be signed by the
/// signers the plan names for it.
pub proof fn chunks_can_be_signed(
    per_user: Seq<Seq<InstructionView>>,
    payer: Seq<u8>,
    users: Seq<Seq<u8>>,
    start: int,
    end: int,
    by_users: bool,
    max_mentions: nat,
)
    requires
        0 <= start <= end <= per_user.len(),
        users.len() == per_user.len(),
        (end - start) * max_mentions <= 254,
        forall|u: int|
            start <= u < end ==> is_user_part(
                #[trigger] per_user[u],
                payer,
                users[u],
                by_users,
                max_mentions,
            ),
    ensures
        can_sign(
            per_user.subrange(start, end).flatten(),
            chunk_keys(payer, users, start, end, by_users),
        ),
        mentioned(per_user.subrange(start, end).flatten()).len() <= (end - start) * max_mentions,
    decreases end - start,
{
    let ixs = per_user.subrange(start, end).flatten();
    let keys = chunk_keys(payer, users, start, end, by_users);
    assert(keys[0] == payer);
    if start == end {
        assert(per_user.subrange(start, end) =~= Seq::<Seq<InstructionView>>::empty());
        assert(ixs =~= Seq::<InstructionView>::empty());
        assert(0 * max_mentions == 0);
        assert(keys.len() == 1);
    } else {
        let last = end - 1;
        assert((end - start) * max_mentions == (last - start) * max_mentions + max_mentions)
            by (nonlinear_arith)
            requires
                last == end - 1,
        ;
        chunks_can_be_signed(per_user, payer, users, start, last, by_users, max_mentions);
        let before = per_user.subrange(start, last).flatten();
        let part = per_user[last];
        assert(per_user.subrange(start, end) =~= per_user.subrange(start, last).push(part));
        per_user.subrange(start, last).lemma_flatten_push(part);
        assert(ixs == before + part);
        mentions_add_up(before, part);
        let fewer = chunk_keys(payer, users, start, last, by_users);
        assert forall|i: int| 0 <= i < ixs.len() implies (#[trigger] ixs[i]).data.len()
            <= 65535 by {
            if i < before.len() {
                assert(ixs[i] == before[i]);
            } else {
                assert(ixs[i] == part[i - before.len()]);
            }
        }
        if by_users {
            assert(keys =~= fewer.push(users[last]));
        }
        assert forall|k: int| 0 <= k < keys.len() implies must_sign(
            ixs,
            keys[0],
            #[trigger] keys[k],
        ) by {
            if k > 0 && k < keys.len() - 1 {
                assert(fewer[k] == keys[k]);
                assert(must_sign(before, fewer[0], fewer[k]));
                if keys[k] != payer {
                    asking_survives(before, part, keys[k]);
                }
            } else if k > 0 {
                asking_survives(before, part, keys[k]);
            }
        }
        assert forall|i: int, j: int|
            0 <= i < ixs.len() && 0 <= j < ixs[i].accounts.len() && (
            #[trigger] ixs[i].accounts[j]).is_signer implies keys.contains(
            ixs[i].accounts[j].address,
        ) by {
            let address = ixs[i].accounts[j].address;
            if i < before.len() {
                assert(ixs[i] == before[i]);
                assert(before[i].accounts[j].is_signer);
                assert(fewer.contains(address));
                let k = choose|k: int| 0 <= k < fewer.len() && fewer[k] == address;
                assert(keys[k] == address);
            } else {
                let m = i - before.len();
                assert(ixs[i] == part[m]);
                assert(part[m].accounts[j].is_signer);
                if address == payer {
                    assert(keys[0] == address);
                } else {
                    assert(keys[keys.len() - 1] == address);
                }
            }
        }
    }
    few_mentions_fit(ixs, keys);
}

/// What either of two lists asks for, their concatenation asks for.
proof fn asking_survives(a: Seq<InstructionView>, b: Seq<InstructionView>, key: Seq<u8>)
    requires
        asks_for(a, key) || asks_for(b, key),
    ensures
        asks_for(a + b, key),
{
    let c = a + b;
    if asks_for(a, key) {
        let (i, j) = choose|i: int, j: int|
            0 <= i < a.len() && 0 <= j < a[i].accounts.len() && (
            #[trigger] a[i].accounts[j]).is_signer && a[i].accounts[j].address == key;
        assert(c[i] == a[i]);
        assert(c[i].accounts[j].is_signer);
    } else {
        let (i, j) = choose|i: int, j: int|
            0 <= i < b.len() && 0 <= j < b[i].accounts.len() && (
            #[trigger] b[i].accounts[j]).is_signer && b[i].accounts[j].address == key;
        assert(c[a.len() + i] == b[i]);
        assert(c[a.len() + i].accounts[j].is_signer);
    }
}

/// Lists of one length, joined: item `j` of list `i` stands where `i` whole
/// lists and `j` items come before it.
pub proof fn joined_lists_keep_their_places<A>(lists: Seq<Seq<A>>, size: nat, i: int, j: int)
    requires
        forall|k: int| 0 <= k < lists.len() ==> (#[trigger] lists[k]).len() == size,
        0 <= i < lists.len(),
        0 <= j < size,
    ensures
        lists.flatten().len() == lists.len() * size,
        0 <= i * size + j < lists.flatten().len(),
        lists.flatten()[i * size + j] == lists[i][j],
    decreases lists.len(),
{
    let (fewer, last) = (lists.drop_last(), lists.last());
    let n = fewer.len() as int;
    assert(lists =~= fewer.push(last));
    assert(lists[n].len() == size);
    fewer.lemma_flatten_push(last);
    assert forall|k: int| 0 <= k < fewer.len() implies (#[trigger] fewer[k]).len() == size by {
        assert(fewer[k] == lists[k]);
    }
    assert((n + 1) * size == n * size + size) by (nonlinear_arith);
    if n == 0 {
        assert(fewer =~= Seq::<Seq<A>>::empty());
        assert(0 * size == 0);
    } else {
        joined_lists_keep_their_places(fewer, size, if i < n {
            i
        } else {
            0
        }, if i < n {
            j
        } else {
            0
        });
    }
    assert(0 <= i * size + j < (n + 1) * size) by (nonlinear_arith)
        requires
            0 <= i <= n,
            0 <= j < size,
    ;
    if i < n {
        assert(i * size + j < n * size) by (nonlinear_arith)
            requires
                0 <= i < n,
                0 <= j < size,
        ;
        assert(fewer[i] == lists[i]);
    }
}

/// User `u` belongs to transaction `u / per_tx` of a plan. The payer signs it
/// first and, if users sign, each of its users in order; it carries the
/// instructions of its users and of no others. There are as many transactions
/// as it takes, the last of which may have fewer users.
pub proof fn transactions_belong_to_their_users(
    per_user: Seq<Seq<InstructionView>>,
    per_tx: nat,
    by_users: bool,
    u: nat,
)
    requires
        per_tx > 0,
        u < per_user.len(),
        per_user.len() <= usize::MAX,
    ensures
        ({
            let plan = chunked(per_user, per_tx, by_users);
            let c = (u / per_tx) as int;
            let first = c * per_tx;
            let end = if first + per_tx < per_user.len() {
                first + per_tx
            } else {
                per_user.len() as int
            };
            &&& (plan.len() - 1) * per_tx < per_user.len() <= plan.len() * per_tx
            &&& 0 <= c < plan.len()
            &&& first <= u < end
            &&& plan[c].ixs == per_user.subrange(first, end).flatten()
            &&& plan[c].signers[0] == SignerRef::Payer
            &&& by_users ==> plan[c].signers.len() == 1 + (end - first) && plan[c].signers[1 + (u
                - first)] == SignerRef::User(u as usize)
            &&& !by_users ==> plan[c].signers.len() == 1
        }),
{
    let len = per_user.len();
    let c = u / per_tx;
    vstd::arithmetic::div_mod::lemma_fundamental_div_mod(u as int, per_tx as int);
    vstd::arithmetic::div_mod::lemma_fundamental_div_mod(len as int, per_tx as int);
    let (q, r) = (len / per_tx, len % per_tx);
    let count = chunk_count(len, per_tx);
    assert(c * per_tx <= u < (c + 1) * per_tx && (c + 1) * per_tx == c * per_tx + per_tx)
        by (nonlinear_arith)
        requires
            u == per_tx * c + u % per_tx,
            0 <= u % per_tx < per_tx,
    ;
    assert((count - 1) * per_tx < len <= count * per_tx) by (nonlinear_arith)
        requires
            len == per_tx * q + r,
            0 <= r < per_tx,
            r == 0 ==> count == q,
            r > 0 ==> count == q + 1,
            len > 0,
    ;
    assert(c < count) by (nonlinear_arith)
        requires
            c * per_tx <= u,
            u < len,
            len <= count * per_tx,
            per_tx > 0,
    ;
}

} // verus!
