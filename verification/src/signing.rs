//! Key pairs and signed transactions.
use crate::instruction::{
    ixs_view, same_address, AccountMeta, AccountMetaView, Address, Instruction, InstructionView,
};
use solana_sdk::instruction as sdk;
use solana_sdk::signature::Keypair;
use solana_sdk::transaction::Transaction;
use vstd::prelude::*;

verus! {

/// The public key that `Keypair::new_from_array` pairs with a secret key.
pub uninterp spec fn public_key(secret: Seq<u8>) -> Seq<u8>;

/// Calls `solana_sdk::signature::Keypair::new_from_array` and takes the key
/// pair's address. Claims that the address depends on the secret alone.
#[verifier::external_body]
fn keypair_address(secret: &[u8; 32]) -> (address: Address)
    ensures
        address@ == public_key(secret@),
{
    let keypair = Keypair::new_from_array(*secret);
    solana_sdk::signer::Signer::pubkey(&keypair).to_bytes()
}

/// Calls `solana_sdk::signature::Keypair::new`, which draws a fresh secret.
/// Nothing is claimed of the secret.
#[verifier::external_body]
fn random_secret() -> (secret: [u8; 32]) {
    *Keypair::new().secret_bytes()
}

/// A key pair that signs for its address.
#[derive(Clone, Copy)]
pub struct Signer {
    secret: [u8; 32],
    address: Address,
}

impl Signer {
    /// The address is the one that belongs to the secret.
    #[verifier::type_invariant]
    spec fn is_pair(self) -> bool {
        self.address@ == public_key(self.secret@)
    }

    /// The secret key.
    pub closed spec fn secret_key(self) -> Seq<u8> {
        self.secret@
    }

    /// The address it signs for.
    pub closed spec fn key(self) -> Seq<u8> {
        self.address@
    }

    /// An address has 32 bytes.
    pub proof fn key_has_32_bytes(self)
        ensures
            self.key().len() == 32,
    {
    }

    /// The key pair of a secret.
    pub fn from_secret(secret: [u8; 32]) -> (signer: Self)
        ensures
            signer.secret_key() == secret@,
            signer.key() == public_key(secret@),
    {
        let address = keypair_address(&secret);
        Signer { secret, address }
    }

    /// A key pair with a freshly drawn secret.
    pub fn generate() -> (signer: Self)
        ensures
            signer.key() == public_key(signer.secret_key()),
    {
        Signer::from_secret(random_secret())
    }

    /// The address this key pair signs for.
    pub fn address(&self) -> (address: Address)
        ensures
            address@ == self.key(),
            address@ == public_key(self.secret_key()),
    {
        proof {
            use_type_invariant(self);
        }
        self.address
    }
}

/// What a list of key pairs signs for.
pub open spec fn keys_view(signers: Seq<Signer>) -> Seq<Seq<u8>> {
    signers.map_values(|signer: Signer| signer.key())
}

/// The secrets of a list of key pairs.
pub open spec fn secrets_view(signers: Seq<Signer>) -> Seq<Seq<u8>> {
    signers.map_values(|signer: Signer| signer.secret_key())
}

/// Whether some instruction needs the signature of `key`.
pub open spec fn asks_for(ixs: Seq<InstructionView>, key: Seq<u8>) -> bool {
    exists|i: int, j: int|
        0 <= i < ixs.len() && 0 <= j < ixs[i].accounts.len() && (
        #[trigger] ixs[i].accounts[j]).is_signer && ixs[i].accounts[j].address == key
}

/// Whether a transaction with these instructions, paid for by `payer`, must
/// carry the signature of `key`.
pub open spec fn must_sign(ixs: Seq<InstructionView>, payer: Seq<u8>, key: Seq<u8>) -> bool {
    key == payer || asks_for(ixs, key)
}

/// The addresses that the instructions mention, repeats included.
pub open spec fn mentioned(ixs: Seq<InstructionView>) -> Seq<Seq<u8>>
    decreases ixs.len(),
{
    if ixs.len() == 0 {
        Seq::<Seq<u8>>::empty()
    } else {
        (mentioned(ixs.drop_last()) + ixs.last().accounts.map_values(
            |meta: AccountMetaView| meta.address,
        )).push(ixs.last().program_id)
    }
}

/// How many different addresses a list holds.
pub open spec fn distinct(addresses: Seq<Seq<u8>>) -> nat {
    addresses.to_set().len()
}

/// Whether a transaction can carry these instructions and the signatures of
/// `keys`, the first of which pays: an index of one byte must reach every
/// address, signatures are counted in one byte, and every list has a length of
/// at most 16 bits.
pub open spec fn fits_transaction(ixs: Seq<InstructionView>, keys: Seq<Seq<u8>>) -> bool {
    &&& distinct(mentioned(ixs).push(keys[0])) <= 256
    &&& distinct(keys) <= 255
    &&& ixs.len() <= 65535
    &&& forall|i: int|
        0 <= i < ixs.len() ==> (#[trigger] ixs[i]).accounts.len() <= 65535 && ixs[i].data.len()
            <= 65535
}

/// Whether `keys`, the first of which pays, can sign the instructions: each
/// key must be asked for, and each signature asked for must be there.
pub open spec fn can_sign(ixs: Seq<InstructionView>, keys: Seq<Seq<u8>>) -> bool {
    &&& keys.len() > 0
    &&& fits_transaction(ixs, keys)
    &&& forall|k: int| 0 <= k < keys.len() ==> must_sign(ixs, keys[0], #[trigger] keys[k])
    &&& forall|i: int, j: int|
        0 <= i < ixs.len() && 0 <= j < ixs[i].accounts.len() && (
        #[trigger] ixs[i].accounts[j]).is_signer ==> keys.contains(ixs[i].accounts[j].address)
}

/// What an instruction names is mentioned.
proof fn accounts_are_mentioned(ixs: Seq<InstructionView>, i: int)
    requires
        0 <= i < ixs.len(),
    ensures
        ixs.len() <= mentioned(ixs).len(),
        ixs[i].accounts.len() < mentioned(ixs).len(),
        forall|j: int|
            0 <= j < ixs[i].accounts.len() ==> mentioned(ixs).contains(
                (#[trigger] ixs[i].accounts[j]).address,
            ),
    decreases ixs.len(),
{
    let all = mentioned(ixs);
    let before = mentioned(ixs.drop_last());
    if ixs.len() > 1 {
        accounts_are_mentioned(ixs.drop_last(), if i < ixs.len() - 1 {
            i
        } else {
            0
        });
    }
    assert forall|j: int| 0 <= j < ixs[i].accounts.len() implies all.contains(
        (#[trigger] ixs[i].accounts[j]).address,
    ) by {
        if i < ixs.len() - 1 {
            assert(ixs.drop_last()[i].accounts[j] == ixs[i].accounts[j]);
            let k = choose|k: int|
                0 <= k < before.len() && before[k] == ixs[i].accounts[j].address;
            assert(all[k] == before[k]);
        } else {
            assert(all[before.len() + j] == ixs[i].accounts[j].address);
        }
    }
}

/// Instructions that mention no more than 254 addresses fit a transaction
/// with any signers that they ask for.
pub proof fn few_mentions_fit(ixs: Seq<InstructionView>, keys: Seq<Seq<u8>>)
    requires
        keys.len() > 0,
        mentioned(ixs).len() <= 254,
        forall|i: int| 0 <= i < ixs.len() ==> (#[trigger] ixs[i]).data.len() <= 65535,
        forall|k: int| 0 <= k < keys.len() ==> must_sign(ixs, keys[0], #[trigger] keys[k]),
    ensures
        fits_transaction(ixs, keys),
{
    let all = mentioned(ixs).push(keys[0]);
    all.lemma_cardinality_of_set();
    assert(all[all.len() - 1] == keys[0]);
    assert forall|key: Seq<u8>| keys.to_set().contains(key) implies all.to_set().contains(
        key,
    ) by {
        let k = choose|k: int| 0 <= k < keys.len() && keys[k] == key;
        assert(must_sign(ixs, keys[0], keys[k]));
        if key != keys[0] {
            let (i, j) = choose|i: int, j: int|
                0 <= i < ixs.len() && 0 <= j < ixs[i].accounts.len() && (
                #[trigger] ixs[i].accounts[j]).is_signer && ixs[i].accounts[j].address == key;
            accounts_are_mentioned(ixs, i);
            let m = choose|m: int| 0 <= m < mentioned(ixs).len() && mentioned(ixs)[m] == key;
            assert(all[m] == key);
        }
    }
    vstd::seq_lib::seq_to_set_is_finite(all);
    vstd::set_lib::lemma_len_subset(keys.to_set(), all.to_set());
    assert forall|i: int| 0 <= i < ixs.len() implies (#[trigger] ixs[i]).accounts.len() <= 65535
        && ixs[i].data.len() <= 65535 by {
        accounts_are_mentioned(ixs, i);
    }
    if ixs.len() > 0 {
        accounts_are_mentioned(ixs, 0);
    }
}

/// The serialized transaction that `Transaction::new_with_payer`,
/// `Transaction::sign` and `bincode::serialize` make of the instructions.
pub uninterp spec fn signed_wire(
    ixs: Seq<InstructionView>,
    payer: Seq<u8>,
    secrets: Seq<Seq<u8>>,
    blockhash: Seq<u8>,
) -> Seq<u8>;

/// How long the transaction of some instructions can be at most. Up to 255
/// signatures of 64 bytes, up to 256 addresses, the blockhash and the header
/// stand beside the instructions; the length before each list takes up to
/// three bytes.
pub open spec fn wire_limit(ixs: Seq<InstructionView>) -> nat
    decreases ixs.len(),
{
    if ixs.len() == 0 {
        24556
    } else {
        wire_limit(ixs.drop_last()) + ixs.last().accounts.len() + ixs.last().data.len() + 7
    }
}

/// Calls `solana_sdk::transaction::Transaction::new_with_payer`, then
/// `Transaction::sign` with the key pairs of `signers`, then
/// `bincode::serialize`. Claims that none of them fails, that the bytes depend
/// on the instructions, the payer, the secrets and the blockhash alone, and
/// how many they are at most.
#[verifier::external_body]
fn sign_and_serialize(
    ixs: &Vec<Instruction>,
    payer: &Address,
    signers: &Vec<Signer>,
    blockhash: &[u8; 32],
) -> (wire: Vec<u8>)
    requires
        can_sign(ixs_view(ixs@), keys_view(signers@)),
        payer@ == keys_view(signers@)[0],
    ensures
        wire@ == signed_wire(ixs_view(ixs@), payer@, secrets_view(signers@), blockhash@),
        wire@.len() <= wire_limit(ixs_view(ixs@)),
{
    let keypairs: Vec<_> = signers.iter().map(|s| Keypair::new_from_array(s.secret)).collect();
    let sdk_meta = |m: &AccountMeta| sdk::AccountMeta {
        pubkey: m.address.into(),
        is_signer: m.is_signer,
        is_writable: m.is_writable,
    };
    let sdk_ix = |ix: &Instruction| sdk::Instruction {
        program_id: ix.program_id.into(),
        accounts: ix.accounts.iter().map(sdk_meta).collect(),
        data: ix.data.clone(),
    };
    let ixs: Vec<_> = ixs.iter().map(sdk_ix).collect();
    let mut tx = Transaction::new_with_payer(&ixs, Some(&(*payer).into()));
    tx.sign(&keypairs, (*blockhash).into());
    bincode::serialize(&tx).unwrap()
}

/// The transaction of `ixs`, signed by all of `signers`, the first of which
/// pays: its wire bytes.
pub fn sign_tx(ixs: &Vec<Instruction>, signers: &Vec<Signer>, blockhash: &[u8; 32]) -> (wire: Vec<
    u8,
>)
    requires
        can_sign(ixs_view(ixs@), keys_view(signers@)),
    ensures
        wire@ == signed_wire(
            ixs_view(ixs@),
            signers@[0].key(),
            secrets_view(signers@),
            blockhash@,
        ),
        wire@.len() <= wire_limit(ixs_view(ixs@)),
{
    let payer = signers[0].address();
    sign_and_serialize(ixs, &payer, signers, blockhash)
}

/// Whether `key` is among the addresses of `signers`.
fn is_among(signers: &Vec<Signer>, key: &Address) -> (found: bool)
    ensures
        found == keys_view(signers@).contains(key@),
{
    let ghost keys = keys_view(signers@);
    let mut k: usize = 0;
    while k < signers.len()
        invariant
            keys == keys_view(signers@),
            k <= signers@.len(),
            forall|m: int| 0 <= m < k ==> keys[m] != key@,
        decreases signers@.len() - k,
    {
        let address = signers[k].address();
        if same_address(&address, key) {
            assert(keys[k as int] == key@);
            return true;
        }
        k = k + 1;
    }
    false
}

/// Whether some account of `ixs` must sign as `key`.
fn is_asked_for(ixs: &Vec<Instruction>, key: &Address) -> (asked: bool)
    ensures
        asked == asks_for(ixs_view(ixs@), key@),
{
    let ghost view = ixs_view(ixs@);
    let mut i: usize = 0;
    while i < ixs.len()
        invariant
            view == ixs_view(ixs@),
            i <= ixs@.len(),
            forall|a: int, b: int|
                0 <= a < i && 0 <= b < view[a].accounts.len() ==> !((
                #[trigger] view[a].accounts[b]).is_signer && view[a].accounts[b].address == key@),
        decreases ixs@.len() - i,
    {
        let mut j: usize = 0;
        while j < ixs[i].accounts.len()
            invariant
                view == ixs_view(ixs@),
                i < ixs@.len(),
                j <= ixs@[i as int].accounts@.len(),
                forall|a: int, b: int|
                    0 <= a < i && 0 <= b < view[a].accounts.len() ==> !((
                    #[trigger] view[a].accounts[b]).is_signer && view[a].accounts[b].address
                        == key@),
                forall|b: int|
                    0 <= b < j ==> !((#[trigger] view[i as int].accounts[b]).is_signer
                        && view[i as int].accounts[b].address == key@),
            decreases ixs@[i as int].accounts@.len() - j,
        {
            let meta = ixs[i].accounts[j];
            assert(meta@ == view[i as int].accounts[j as int]);
            if meta.is_signer && same_address(&meta.address, key) {
                return true;
            }
            j = j + 1;
        }
        i = i + 1;
    }
    false
}

/// What each of several addresses holds.
pub open spec fn addresses_view(addresses: Seq<Address>) -> Seq<Seq<u8>> {
    addresses.map_values(|address: Address| address@)
}

/// Counts the different addresses of a list.
fn count_distinct(addresses: &Vec<Address>) -> (count: usize)
    ensures
        count == distinct(addresses_view(addresses@)),
{
    let ghost views = addresses_view(addresses@);
    let mut found: Vec<Address> = Vec::new();
    let mut i: usize = 0;
    while i < addresses.len()
        invariant
            views == addresses_view(addresses@),
            i <= addresses@.len(),
            addresses_view(found@).no_duplicates(),
            forall|key: Seq<u8>|
                addresses_view(found@).contains(key) <==> #[trigger] views.take(
                    i as int,
                ).contains(key),
        decreases addresses@.len() - i,
    {
        let ghost before = addresses_view(found@);
        let ghost seen = views.take(i as int);
        let ghost key = addresses@[i as int]@;
        assert(views.take(i + 1) =~= seen.push(key));
        let known = holds(&found, &addresses[i]);
        if !known {
            found.push(addresses[i]);
            assert(addresses_view(found@) =~= before.push(key));
        }
        proof {
            let after = addresses_view(found@);
            assert forall|other: Seq<u8>|
                after.contains(other) <==> #[trigger] views.take(i + 1).contains(other) by {
                push_contains(seen, key, other);
                assert(before.contains(other) <==> seen.contains(other));
                if !known {
                    push_contains(before, key, other);
                }
            }
        }
        i += 1;
    }
    proof {
        assert(views.take(i as int) =~= views);
        assert(addresses_view(found@).to_set() =~= views.to_set()) by {
            assert forall|key: Seq<u8>|
                addresses_view(found@).to_set().contains(key) == views.to_set().contains(key) by {
                assert(addresses_view(found@).contains(key) <==> views.take(i as int).contains(
                    key,
                ));
            }
        }
        addresses_view(found@).unique_seq_to_set();
    }
    found.len()
}

/// A list with one more item holds that item and what it held before.
proof fn push_contains(list: Seq<Seq<u8>>, item: Seq<u8>, other: Seq<u8>)
    ensures
        list.push(item).contains(other) <==> list.contains(other) || other == item,
{
    if list.contains(other) {
        let k = choose|k: int| 0 <= k < list.len() && list[k] == other;
        assert(list.push(item)[k] == other);
    }
    assert(list.push(item)[list.len() as int] == item);
    if list.push(item).contains(other) {
        let k = choose|k: int| 0 <= k < list.push(item).len() && list.push(item)[k] == other;
        if k < list.len() {
            assert(list[k] == other);
        }
    }
}

/// Whether an address is in a list.
fn holds(addresses: &Vec<Address>, key: &Address) -> (found: bool)
    ensures
        found == addresses_view(addresses@).contains(key@),
{
    let ghost views = addresses_view(addresses@);
    let mut k: usize = 0;
    while k < addresses.len()
        invariant
            views == addresses_view(addresses@),
            k <= addresses@.len(),
            forall|m: int| 0 <= m < k ==> views[m] != key@,
        decreases addresses@.len() - k,
    {
        if same_address(&addresses[k], key) {
            assert(views[k as int] == key@);
            return true;
        }
        k += 1;
    }
    false
}

/// The addresses that the instructions mention, repeats included.
fn mentions_of(ixs: &Vec<Instruction>) -> (addresses: Vec<Address>)
    ensures
        addresses_view(addresses@) == mentioned(ixs_view(ixs@)),
{
    let ghost view = ixs_view(ixs@);
    let mut addresses: Vec<Address> = Vec::new();
    let mut i: usize = 0;
    while i < ixs.len()
        invariant
            view == ixs_view(ixs@),
            i <= ixs@.len(),
            addresses_view(addresses@) == mentioned(view.take(i as int)),
        decreases ixs@.len() - i,
    {
        let ghost before = addresses_view(addresses@);
        let ghost named = view[i as int].accounts.map_values(
            |meta: AccountMetaView| meta.address,
        );
        let mut j: usize = 0;
        assert(before + named.take(0) =~= before);
        while j < ixs[i].accounts.len()
            invariant
                view == ixs_view(ixs@),
                i < ixs@.len(),
                j <= ixs@[i as int].accounts@.len(),
                named == view[i as int].accounts.map_values(
                    |meta: AccountMetaView| meta.address,
                ),
                addresses_view(addresses@) == before + named.take(j as int),
            decreases ixs@[i as int].accounts@.len() - j,
        {
            let meta = ixs[i].accounts[j];
            assert(meta@ == view[i as int].accounts[j as int]);
            let ghost so_far = addresses_view(addresses@);
            addresses.push(meta.address);
            proof {
                assert(addresses_view(addresses@) =~= so_far.push(meta.address@));
                assert(named[j as int] == meta.address@);
                assert(named.take(j + 1) =~= named.take(j as int).push(meta.address@));
            }
            j += 1;
            assert(addresses_view(addresses@) =~= before + named.take(j as int));
        }
        assert(named.take(j as int) =~= named);
        addresses.push(ixs[i].program_id);
        proof {
            let seen = view.take(i + 1);
            assert(seen.drop_last() =~= view.take(i as int));
            assert(seen.last() == ixs@[i as int]@);
            assert(addresses_view(addresses@) =~= mentioned(seen));
        }
        i += 1;
    }
    assert(view.take(i as int) =~= view);
    addresses
}

/// Whether the instructions and the signatures of `signers`, the first of
/// which pays, fit one transaction.
fn does_fit(ixs: &Vec<Instruction>, signers: &Vec<Signer>) -> (fits: bool)
    requires
        signers@.len() > 0,
    ensures
        fits == fits_transaction(ixs_view(ixs@), keys_view(signers@)),
{
    let ghost view = ixs_view(ixs@);
    let ghost all_keys = keys_view(signers@);
    if ixs.len() > 65535 {
        return false;
    }
    let mut i: usize = 0;
    while i < ixs.len()
        invariant
            view == ixs_view(ixs@),
            i <= ixs@.len(),
            forall|a: int|
                0 <= a < i ==> (#[trigger] view[a]).accounts.len() <= 65535 && view[a].data.len()
                    <= 65535,
        decreases ixs@.len() - i,
    {
        if ixs[i].accounts.len() > 65535 || ixs[i].data.len() > 65535 {
            assert(view[i as int].accounts.len() > 65535 || view[i as int].data.len() > 65535);
            return false;
        }
        i += 1;
    }
    let mut keys: Vec<Address> = Vec::with_capacity(signers.len());
    while keys.len() < signers.len()
        invariant
            all_keys == keys_view(signers@),
            keys@.len() <= signers@.len(),
            addresses_view(keys@) == all_keys.take(keys@.len() as int),
        decreases signers@.len() - keys@.len(),
    {
        let k: usize = keys.len();
        keys.push(signers[k].address());
        assert(addresses_view(keys@) =~= all_keys.take(keys@.len() as int));
    }
    assert(addresses_view(keys@) =~= all_keys);
    let mut addresses = mentions_of(ixs);
    let ghost before = addresses_view(addresses@);
    addresses.push(signers[0].address());
    assert(addresses_view(addresses@) =~= before.push(all_keys[0]));
    count_distinct(&keys) <= 255 && count_distinct(&addresses) <= 256
}

/// Whether `signers`, the first of which pays, are the ones that must sign
/// `ixs`.
pub fn is_signable(ixs: &Vec<Instruction>, signers: &Vec<Signer>) -> (signable: bool)
    ensures
        signable == can_sign(ixs_view(ixs@), keys_view(signers@)),
{
    let ghost view = ixs_view(ixs@);
    let ghost keys = keys_view(signers@);
    if signers.len() == 0 || !does_fit(ixs, signers) {
        return false;
    }
    let payer = signers[0].address();
    let mut k: usize = 0;
    while k < signers.len()
        invariant
            view == ixs_view(ixs@),
            keys == keys_view(signers@),
            signers@.len() > 0,
            payer@ == keys[0],
            k <= signers@.len(),
            forall|m: int| 0 <= m < k ==> must_sign(view, keys[0], #[trigger] keys[m]),
        decreases signers@.len() - k,
    {
        let address = signers[k].address();
        assert(address@ == keys[k as int]);
        if !same_address(&address, &payer) && !is_asked_for(ixs, &address) {
            assert(!must_sign(view, keys[0], keys[k as int]));
            return false;
        }
        k = k + 1;
    }
    let mut i: usize = 0;
    while i < ixs.len()
        invariant
            view == ixs_view(ixs@),
            keys == keys_view(signers@),
            i <= ixs@.len(),
            forall|a: int, b: int|
                0 <= a < i && 0 <= b < view[a].accounts.len() && (
                #[trigger] view[a].accounts[b]).is_signer ==> keys.contains(
                    view[a].accounts[b].address,
                ),
        decreases ixs@.len() - i,
    {
        let mut j: usize = 0;
        while j < ixs[i].accounts.len()
            invariant
                view == ixs_view(ixs@),
                keys == keys_view(signers@),
                i < ixs@.len(),
                j <= ixs@[i as int].accounts@.len(),
                forall|a: int, b: int|
                    0 <= a < i && 0 <= b < view[a].accounts.len() && (
                    #[trigger] view[a].accounts[b]).is_signer ==> keys.contains(
                        view[a].accounts[b].address,
                    ),
                forall|b: int|
                    0 <= b < j && (#[trigger] view[i as int].accounts[b]).is_signer
                        ==> keys.contains(view[i as int].accounts[b].address),
            decreases ixs@[i as int].accounts@.len() - j,
        {
            let meta = ixs[i].accounts[j];
            assert(meta@ == view[i as int].accounts[j as int]);
            if meta.is_signer && !is_among(signers, &meta.address) {
                return false;
            }
            j = j + 1;
        }
        i = i + 1;
    }
    true
}

/// Signers fit instructions that are not too many exactly if each signature
/// that some account asks for is there, and each signer but the one who pays is
/// asked for.
pub proof fn signers_are_those_asked_for(ixs: Seq<InstructionView>, keys: Seq<Seq<u8>>)
    requires
        keys.len() > 0,
        mentioned(ixs).len() <= 254,
        forall|i: int| 0 <= i < ixs.len() ==> (#[trigger] ixs[i]).data.len() <= 65535,
    ensures
        can_sign(ixs, keys) <==> {
            &&& forall|i: int, j: int|
                0 <= i < ixs.len() && 0 <= j < ixs[i].accounts.len() && (
                #[trigger] ixs[i].accounts[j]).is_signer ==> keys.contains(
                    ixs[i].accounts[j].address,
                )
            &&& forall|k: int|
                0 < k < keys.len() && #[trigger] keys[k] != keys[0] ==> exists|i: int, j: int|
                    0 <= i < ixs.len() && 0 <= j < ixs[i].accounts.len() && (
                    #[trigger] ixs[i].accounts[j]).is_signer && ixs[i].accounts[j].address
                        == keys[k]
        },
{
    if forall|k: int|
        0 < k < keys.len() && #[trigger] keys[k] != keys[0] ==> exists|i: int, j: int|
            0 <= i < ixs.len() && 0 <= j < ixs[i].accounts.len() && (
            #[trigger] ixs[i].accounts[j]).is_signer && ixs[i].accounts[j].address == keys[k] {
        assert forall|k: int| 0 <= k < keys.len() implies must_sign(
            ixs,
            keys[0],
            #[trigger] keys[k],
        ) by {
            if k > 0 && keys[k] != keys[0] {
                let (i, j) = choose|i: int, j: int|
                    0 <= i < ixs.len() && 0 <= j < ixs[i].accounts.len() && (
                    #[trigger] ixs[i].accounts[j]).is_signer && ixs[i].accounts[j].address
                        == keys[k];
                assert(ixs[i].accounts[j].is_signer);
            }
        }
        few_mentions_fit(ixs, keys);
    }
    if can_sign(ixs, keys) {
        assert forall|k: int| 0 < k < keys.len() && #[trigger] keys[k] != keys[0] implies exists|
            i: int,
            j: int,
        |
            0 <= i < ixs.len() && 0 <= j < ixs[i].accounts.len() && (
            #[trigger] ixs[i].accounts[j]).is_signer && ixs[i].accounts[j].address == keys[k] by {
            assert(must_sign(ixs, keys[0], keys[k]));
        }
    }
}

/// Every address that an instruction names is mentioned: its program and its
/// accounts.
pub proof fn instructions_mention_what_they_name(ixs: Seq<InstructionView>, ix: InstructionView)
    ensures
        mentioned(Seq::<InstructionView>::empty()) == Seq::<Seq<u8>>::empty(),
        mentioned(ixs.push(ix)).len() == mentioned(ixs).len() + ix.accounts.len() + 1,
        mentioned(ixs.push(ix)).last() == ix.program_id,
        forall|j: int|
            0 <= j < ix.accounts.len() ==> mentioned(ixs.push(ix))[mentioned(ixs).len() + j] == (
            #[trigger] ix.accounts[j]).address,
{
    assert(ixs.push(ix).drop_last() =~= ixs);
}

} // verus!
