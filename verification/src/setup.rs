//! The accounts the benchmark runs on, and the transactions that create them.
use crate::bytes::{le_bytes, push_le_u64};
use crate::chunks::{chunk_end, chunk_start};
use crate::instruction::{
    ixs_view, readonly, same_address, writable, AccountMeta, AccountMetaView, Address,
    Instruction, InstructionView,
};
use crate::plan::{
    carried, chunk_keys, chunk_signers, chunked, chunked_plan, chunks_can_be_signed, is_user_part,
    joined_lists_keep_their_places, per_user_view, plan_view, plans_carry_every_instruction,
    transactions_belong_to_their_users, PlannedTx, PlannedTxView, SignerRef,
};
use crate::programs::{
    associated_token_seeds, buffer_seeds, create_account_ix, create_associated_token_account,
    create_associated_token_ix, delegate_buffer_pda, delegation_metadata_pda,
    delegation_record_pda, find_program_address, initialize_mint_ix, metadata_seeds, mint_to_ix,
    program_address, record_seeds, seeds_view, spl_initialize_mint, spl_mint_to,
    system_create_account, DELEGATION_PROGRAM_ID, MINT_LEN, RENT_SYSVAR_ID,
    SPL_ASSOCIATED_TOKEN_ID, SPL_TOKEN_ID, SYSTEM_PROGRAM_ID,
};
use crate::signing::{asks_for, can_sign, few_mentions_fit, keys_view, mentioned, Signer};
use crate::transfers::Shard;
use vstd::prelude::*;

verus! {

/// Decimals of the benchmark's token.
pub const USDC_DECIMALS: u8 = 6;

/// 1,000 USDC per user, in base units.
pub const USER_DEPOSIT: u64 = 1_000_000_000;

/// Lamports in one SOL.
pub const LAMPORTS_PER_SOL: u64 = 1_000_000_000;

/// Escrow lamports per user fee payer on the rollup.
pub const ESCROW_LAMPORTS: u64 = 10_000_000;

/// The operations of the ephemeral-token program.
pub const INITIALIZE_EPHEMERAL_ATA: u8 = 0;

pub const INITIALIZE_GLOBAL_VAULT: u8 = 1;

pub const DEPOSIT_SPL_TOKENS: u8 = 2;

pub const DELEGATE_EPHEMERAL_ATA: u8 = 4;

/// All keypairs and derived addresses the benchmark operates on.
pub struct World {
    pub mint: Address,
    pub users: Vec<Signer>,
    pub atas: Vec<Address>,
    pub validator: Address,
}

impl World {
    /// Every user has a token account.
    pub open spec fn wf(self) -> bool {
        self.users@.len() == self.atas@.len()
    }

    /// The users that belong to shard number `shard`.
    pub fn shard_range(&self, shard: usize, users_per_shard: usize) -> (range: core::ops::Range<
        usize,
    >)
        requires
            shard < usize::MAX,
            (shard + 1) * users_per_shard <= usize::MAX,
        ensures
            range.start == shard * users_per_shard,
            range.end == (shard + 1) * users_per_shard,
    {
        proof {
            assert(shard * users_per_shard <= (shard + 1) * users_per_shard) by (nonlinear_arith);
        }
        shard * users_per_shard..(shard + 1) * users_per_shard
    }

    /// The users and token accounts of shard number `shard`.
    pub fn shard(&self, shard: usize, users_per_shard: usize) -> (part: Shard)
        requires
            self.wf(),
            shard < usize::MAX,
            (shard + 1) * users_per_shard <= self.users@.len(),
        ensures
            part.wf(),
            is_shard(*self, shard as nat, users_per_shard as nat, part),
    {
        let total: usize = self.users.len();
        let range = self.shard_range(shard, users_per_shard);
        proof {
            assert(shard * users_per_shard <= (shard + 1) * users_per_shard) by (nonlinear_arith);
        }
        let mut users: Vec<Signer> = Vec::with_capacity(users_per_shard);
        let mut atas: Vec<Address> = Vec::with_capacity(users_per_shard);
        let mut i: usize = range.start;
        while i < range.end
            invariant
                range.start <= i <= range.end,
                range.end <= total,
                self.wf(),
                total == self.users@.len(),
                users@ == self.users@.subrange(range.start as int, i as int),
                atas@ == self.atas@.subrange(range.start as int, i as int),
            decreases range.end - i,
        {
            users.push(self.users[i]);
            atas.push(self.atas[i]);
            i = i + 1;
            assert(users@ =~= self.users@.subrange(range.start as int, i as int));
            assert(atas@ =~= self.atas@.subrange(range.start as int, i as int));
        }
        Shard { users, atas }
    }
}

/// Shards are disjoint and together hold every user: user `index` belongs to
/// shard `index / users_per_shard` and to no other.
pub proof fn shards_partition_users(shards: nat, users_per_shard: nat, index: nat, shard: nat)
    requires
        users_per_shard > 0,
        index < shards * users_per_shard,
    ensures
        index / users_per_shard < shards,
        shard * users_per_shard <= index < (shard + 1) * users_per_shard <==> shard == index
            / users_per_shard,
{
    let owner = index / users_per_shard;
    vstd::arithmetic::div_mod::lemma_fundamental_div_mod(index as int, users_per_shard as int);
    assert(owner * users_per_shard <= index < (owner + 1) * users_per_shard) by (nonlinear_arith)
        requires
            index == users_per_shard * owner + index % users_per_shard,
            0 <= index % users_per_shard < users_per_shard,
    ;
    assert(owner < shards) by (nonlinear_arith)
        requires
            owner * users_per_shard <= index,
            index < shards * users_per_shard,
    ;
    if shard < owner {
        assert((shard + 1) * users_per_shard <= owner * users_per_shard) by (nonlinear_arith)
            requires
                shard < owner,
        ;
    } else if shard > owner {
        assert(shard * users_per_shard >= (owner + 1) * users_per_shard) by (nonlinear_arith)
            requires
                shard > owner,
        ;
    }
}

/// Draws `count` key pairs.
pub fn generate_signers(count: usize) -> (signers: Vec<Signer>)
    ensures
        signers@.len() == count,
        forall|i: int|
            0 <= i < count ==> (#[trigger] signers@[i]).key() == crate::signing::public_key(
                signers@[i].secret_key(),
            ),
{
    let mut signers: Vec<Signer> = Vec::with_capacity(count);
    while signers.len() < count
        invariant
            signers@.len() <= count,
            forall|i: int|
                0 <= i < signers@.len() ==> (#[trigger] signers@[i]).key()
                    == crate::signing::public_key(signers@[i].secret_key()),
        decreases count - signers@.len(),
    {
        signers.push(Signer::generate());
    }
    signers
}

/// The token programs the accounts belong to.
#[derive(Clone, Copy, Debug)]
pub struct TokenPrograms {
    pub eata: Address,
    pub token: Address,
    pub associated_token: Address,
}

/// The vault that backs a mint's ephemeral tokens, and its token accounts.
#[derive(Clone, Copy, Debug)]
pub struct VaultAccounts {
    pub vault: Address,
    pub eata: Address,
    pub ata: Address,
}

/// The address of a mint's global vault under the ephemeral-token program,
/// where one can be derived.
pub fn derive_global_vault(mint: &Address, eata_program: &Address) -> (vault: Option<Address>)
    ensures
        match vault {
            Some(address) => program_address(seq![mint@], eata_program@) == Some(address@),
            None => program_address(seq![mint@], eata_program@) is None,
        },
{
    let seeds: Vec<Vec<u8>> = vec![address_bytes(mint)];
    assert(seeds_view(seeds@) =~= seq![mint@]);
    find_program_address(&seeds, eata_program)
}

/// An address as a list of bytes.
fn address_bytes(address: &Address) -> (bytes: Vec<u8>)
    ensures
        bytes@ == address@,
{
    let mut bytes: Vec<u8> = Vec::with_capacity(32);
    push_address(&mut bytes, address);
    assert(bytes@ =~= address@);
    bytes
}

/// Appends the bytes of an address.
fn push_address(out: &mut Vec<u8>, address: &Address)
    ensures
        final(out)@ == old(out)@ + address@,
{
    let mut i: usize = 0;
    while i < 32
        invariant
            i <= 32,
            out@ == old(out)@ + address@.take(i as int),
        decreases 32 - i,
    {
        out.push(address[i]);
        i = i + 1;
        assert(out@ =~= old(out)@ + address@.take(i as int));
    }
    assert(address@.take(32) =~= address@);
}

/// Setting up a mint's global vault.
pub open spec fn global_vault_ix(
    payer: Seq<u8>,
    mint: Seq<u8>,
    vault: VaultAccounts,
    programs: TokenPrograms,
) -> InstructionView {
    InstructionView {
        program_id: programs.eata@,
        accounts: seq![
            writable(vault.vault@, false),
            writable(payer, true),
            readonly(mint, false),
            writable(vault.eata@, false),
            writable(vault.ata@, false),
            readonly(programs.token@, false),
            readonly(programs.associated_token@, false),
            readonly(SYSTEM_PROGRAM_ID@, false),
        ],
        data: seq![INITIALIZE_GLOBAL_VAULT],
    }
}

/// The instruction that sets up a mint's global vault.
pub fn initialize_global_vault_ix(
    payer: Address,
    mint: Address,
    vault: &VaultAccounts,
    programs: &TokenPrograms,
) -> (ix: Instruction)
    ensures
        ix@ == global_vault_ix(payer@, mint@, *vault, *programs),
{
    let ix = Instruction {
        program_id: programs.eata,
        accounts: vec![
            AccountMeta::new(vault.vault, false),
            AccountMeta::new(payer, true),
            AccountMeta::new_readonly(mint, false),
            AccountMeta::new(vault.eata, false),
            AccountMeta::new(vault.ata, false),
            AccountMeta::new_readonly(programs.token, false),
            AccountMeta::new_readonly(programs.associated_token, false),
            AccountMeta::new_readonly(SYSTEM_PROGRAM_ID, false),
        ],
        data: vec![INITIALIZE_GLOBAL_VAULT],
    };
    assert(ix@ =~= global_vault_ix(payer@, mint@, *vault, *programs));
    ix
}

/// Setting up a user's ephemeral token account.
pub open spec fn eata_ix(
    payer: Seq<u8>,
    user: Seq<u8>,
    mint: Seq<u8>,
    eata: Seq<u8>,
    programs: TokenPrograms,
) -> InstructionView {
    InstructionView {
        program_id: programs.eata@,
        accounts: seq![
            writable(eata, false),
            writable(payer, true),
            readonly(user, false),
            readonly(mint, false),
            readonly(SYSTEM_PROGRAM_ID@, false),
        ],
        data: seq![INITIALIZE_EPHEMERAL_ATA],
    }
}

/// The instruction that sets up a user's ephemeral token account.
pub fn initialize_eata_ix(
    payer: Address,
    user: Address,
    mint: Address,
    eata: Address,
    programs: &TokenPrograms,
) -> (ix: Instruction)
    ensures
        ix@ == eata_ix(payer@, user@, mint@, eata@, *programs),
{
    let ix = Instruction {
        program_id: programs.eata,
        accounts: vec![
            AccountMeta::new(eata, false),
            AccountMeta::new(payer, true),
            AccountMeta::new_readonly(user, false),
            AccountMeta::new_readonly(mint, false),
            AccountMeta::new_readonly(SYSTEM_PROGRAM_ID, false),
        ],
        data: vec![INITIALIZE_EPHEMERAL_ATA],
    };
    assert(ix@ =~= eata_ix(payer@, user@, mint@, eata@, *programs));
    ix
}

/// Moving a user's tokens into their ephemeral token account.
pub open spec fn deposit_ix(
    user: Seq<u8>,
    mint: Seq<u8>,
    eata: Seq<u8>,
    ata: Seq<u8>,
    vault: VaultAccounts,
    amount: u64,
    programs: TokenPrograms,
) -> InstructionView {
    InstructionView {
        program_id: programs.eata@,
        accounts: seq![
            writable(eata, false),
            readonly(vault.vault@, false),
            readonly(mint, false),
            writable(ata, false),
            writable(vault.ata@, false),
            readonly(user, true),
            readonly(programs.token@, false),
        ],
        data: seq![DEPOSIT_SPL_TOKENS] + le_bytes(amount as nat, 8),
    }
}

/// The instruction that moves a user's tokens into their ephemeral token
/// account, signed by the user.
pub fn deposit_spl_tokens_ix(
    user: Address,
    mint: Address,
    eata: Address,
    ata: Address,
    vault: &VaultAccounts,
    amount: u64,
    programs: &TokenPrograms,
) -> (ix: Instruction)
    ensures
        ix@ == deposit_ix(user@, mint@, eata@, ata@, *vault, amount, *programs),
{
    let mut data: Vec<u8> = Vec::with_capacity(9);
    data.push(DEPOSIT_SPL_TOKENS);
    push_le_u64(&mut data, amount);
    let ix = Instruction {
        program_id: programs.eata,
        accounts: vec![
            AccountMeta::new(eata, false),
            AccountMeta::new_readonly(vault.vault, false),
            AccountMeta::new_readonly(mint, false),
            AccountMeta::new(ata, false),
            AccountMeta::new(vault.ata, false),
            AccountMeta::new_readonly(user, true),
            AccountMeta::new_readonly(programs.token, false),
        ],
        data,
    };
    assert(ix@ =~= deposit_ix(user@, mint@, eata@, ata@, *vault, amount, *programs));
    ix
}

/// Whether the addresses a delegation needs can all be derived.
pub open spec fn can_delegate(eata: Seq<u8>, eata_program: Seq<u8>) -> bool {
    &&& program_address(buffer_seeds(eata), eata_program) is Some
    &&& program_address(record_seeds(eata), DELEGATION_PROGRAM_ID@) is Some
    &&& program_address(metadata_seeds(eata), DELEGATION_PROGRAM_ID@) is Some
}

/// Delegating an ephemeral token account to a validator.
pub open spec fn delegate_ix(
    payer: Seq<u8>,
    eata: Seq<u8>,
    validator: Seq<u8>,
    eata_program: Seq<u8>,
) -> InstructionView {
    InstructionView {
        program_id: eata_program,
        accounts: seq![
            writable(payer, true),
            writable(eata, false),
            readonly(eata_program, false),
            writable(program_address(buffer_seeds(eata), eata_program)->Some_0, false),
            writable(program_address(record_seeds(eata), DELEGATION_PROGRAM_ID@)->Some_0, false),
            writable(program_address(metadata_seeds(eata), DELEGATION_PROGRAM_ID@)->Some_0, false),
            readonly(DELEGATION_PROGRAM_ID@, false),
            readonly(SYSTEM_PROGRAM_ID@, false),
        ],
        data: seq![DELEGATE_EPHEMERAL_ATA] + validator,
    }
}

/// Whether an address can be derived from a tag and an account.
fn is_derivable(tag: Vec<u8>, account: &Address, program: &Address) -> (derivable: bool)
    ensures
        derivable == (program_address(seq![tag@, account@], program@) is Some),
{
    let ghost tag_bytes = tag@;
    let seeds: Vec<Vec<u8>> = vec![tag, address_bytes(account)];
    assert(seeds_view(seeds@) =~= seq![tag_bytes, account@]);
    find_program_address(&seeds, program).is_some()
}

/// The instruction that delegates an ephemeral token account to a validator;
/// none where one of the addresses it needs cannot be derived.
pub fn delegate_eata_ix(
    payer: Address,
    eata: Address,
    validator: Address,
    eata_program: Address,
) -> (ix: Option<Instruction>)
    ensures
        match ix {
            Some(found) => can_delegate(eata@, eata_program@) && found@ == delegate_ix(
                payer@,
                eata@,
                validator@,
                eata_program@,
            ),
            None => !can_delegate(eata@, eata_program@),
        },
{
    let buffer_tag: Vec<u8> = vec![98, 117, 102, 102, 101, 114];
    let record_tag: Vec<u8> = vec![100, 101, 108, 101, 103, 97, 116, 105, 111, 110];
    let metadata_tag: Vec<u8> = vec![
        100, 101, 108, 101, 103, 97, 116, 105, 111, 110, 45, 109, 101, 116, 97, 100, 97, 116, 97,
    ];
    proof {
        assert(buffer_seeds(eata@) =~= seq![buffer_tag@, eata@]) by {
            assert(buffer_tag@ =~= buffer_seeds(eata@)[0]);
        }
        assert(record_seeds(eata@) =~= seq![record_tag@, eata@]) by {
            assert(record_tag@ =~= record_seeds(eata@)[0]);
        }
        assert(metadata_seeds(eata@) =~= seq![metadata_tag@, eata@]) by {
            assert(metadata_tag@ =~= metadata_seeds(eata@)[0]);
        }
    }
    if !is_derivable(buffer_tag, &eata, &eata_program) {
        return None;
    }
    if !is_derivable(record_tag, &eata, &DELEGATION_PROGRAM_ID) {
        return None;
    }
    if !is_derivable(metadata_tag, &eata, &DELEGATION_PROGRAM_ID) {
        return None;
    }
    let mut data: Vec<u8> = Vec::with_capacity(33);
    data.push(DELEGATE_EPHEMERAL_ATA);
    push_address(&mut data, &validator);
    let ix = Instruction {
        program_id: eata_program,
        accounts: vec![
            AccountMeta::new(payer, true),
            AccountMeta::new(eata, false),
            AccountMeta::new_readonly(eata_program, false),
            AccountMeta::new(delegate_buffer_pda(&eata, &eata_program), false),
            AccountMeta::new(delegation_record_pda(&eata), false),
            AccountMeta::new(delegation_metadata_pda(&eata), false),
            AccountMeta::new_readonly(DELEGATION_PROGRAM_ID, false),
            AccountMeta::new_readonly(SYSTEM_PROGRAM_ID, false),
        ],
        data,
    };
    assert(ix@ =~= delegate_ix(payer@, eata@, validator@, eata_program@));
    Some(ix)
}

/// Why a setup plan could not be made.
#[derive(Clone, Copy, Debug, PartialEq, Eq, Structural)]
pub enum SetupError {
    /// The token program's client code refused an instruction.
    Instruction,
    /// An address that this user needs cannot be derived.
    NoProgramAddress(usize),
}

/// Users whose accounts one transaction creates, fills or delegates.
pub const USERS_PER_TX: usize = 3;

/// Users whose fee escrows one transaction funds.
pub const ESCROWS_PER_TX: usize = 2;

/// Everything the setup transactions are made from.
pub struct Setup {
    pub payer: Signer,
    pub mint_kp: Signer,
    pub world: World,
    pub programs: TokenPrograms,
    pub vault: VaultAccounts,
    /// The ephemeral token account of each user.
    pub eatas: Vec<Address>,
}

impl Setup {
    /// Every user has both token accounts, and the mint is the one whose key
    /// pair is held.
    pub open spec fn wf(self) -> bool {
        &&& self.world.wf()
        &&& self.eatas@.len() == self.world.users@.len()
        &&& self.world.mint@ == self.mint_kp.key()
    }

    /// Whether the vault is the one that is derived from the mint.
    pub open spec fn owns_vault(self) -> bool {
        program_address(seq![self.world.mint@], self.programs.eata@) == Some(self.vault.vault@)
    }

    /// A setup for the given users. The mint is that of `mint_kp`, and the
    /// vault, whose token accounts are `vault_eata` and `vault_ata`, is derived
    /// from it; there is no setup where it cannot be.
    pub fn new(
        payer: Signer,
        mint_kp: Signer,
        users: Vec<Signer>,
        atas: Vec<Address>,
        eatas: Vec<Address>,
        validator: Address,
        programs: TokenPrograms,
        vault_eata: Address,
        vault_ata: Address,
    ) -> (result: Option<Setup>)
        requires
            users@.len() == atas@.len(),
            users@.len() == eatas@.len(),
        ensures
            match result {
                Some(setup) => {
                    &&& setup.wf()
                    &&& setup.owns_vault()
                    &&& setup.payer == payer
                    &&& setup.mint_kp == mint_kp
                    &&& setup.world.users@ == users@
                    &&& setup.world.atas@ == atas@
                    &&& setup.world.validator == validator
                    &&& setup.eatas@ == eatas@
                    &&& setup.programs == programs
                    &&& setup.vault.eata == vault_eata
                    &&& setup.vault.ata == vault_ata
                },
                None => program_address(seq![mint_kp.key()], programs.eata@) is None,
            },
    {
        let mint = mint_kp.address();
        let vault = match derive_global_vault(&mint, &programs.eata) {
            Some(vault) => vault,
            None => return None,
        };
        Some(
            Setup {
                payer,
                mint_kp,
                world: World { mint, users, atas, validator },
                programs,
                vault: VaultAccounts { vault, eata: vault_eata, ata: vault_ata },
                eatas,
            },
        )
    }

    /// Whether the vault is the one that is derived from the mint.
    pub fn has_own_vault(&self) -> (ok: bool)
        ensures
            ok == self.owns_vault(),
    {
        match derive_global_vault(&self.world.mint, &self.programs.eata) {
            Some(vault) => same_address(&vault, &self.vault.vault),
            None => false,
        }
    }

    /// How many users there are.
    pub open spec fn user_count(self) -> nat {
        self.world.users@.len()
    }

    /// The address of user `i`.
    pub open spec fn user_key(self, i: int) -> Seq<u8> {
        self.world.users@[i].key()
    }

    /// The key pair that a plan's signer stands for.
    pub open spec fn signer_of(self, signer: SignerRef) -> Signer {
        match signer {
            SignerRef::Payer => self.payer,
            SignerRef::Mint => self.mint_kp,
            SignerRef::User(i) => self.world.users@[i as int],
        }
    }

    /// The keys that a plan's signers sign for.
    pub open spec fn keys_of(self, signers: Seq<SignerRef>) -> Seq<Seq<u8>> {
        signers.map_values(|signer: SignerRef| self.signer_of(signer).key())
    }

    /// Whether a plan's signers are ones this setup has.
    pub open spec fn knows(self, signers: Seq<SignerRef>) -> bool {
        forall|k: int|
            0 <= k < signers.len() ==> (#[trigger] signers[k] matches SignerRef::User(i) ==> i
                < self.user_count())
    }

    /// Whether every transaction of a plan can be signed by the signers the
    /// plan names for it.
    pub open spec fn can_sign_all(self, plan: Seq<PlannedTxView>) -> bool {
        forall|c: int|
            0 <= c < plan.len() ==> self.knows((#[trigger] plan[c]).signers) && can_sign(
                plan[c].ixs,
                self.keys_of(plan[c].signers),
            )
    }

    /// The key pairs that a plan's signers stand for.
    pub fn resolve_signers(&self, refs: &Vec<SignerRef>) -> (signers: Vec<Signer>)
        requires
            self.knows(refs@),
        ensures
            signers@ == refs@.map_values(|signer: SignerRef| self.signer_of(signer)),
            keys_view(signers@) == self.keys_of(refs@),
    {
        let mut signers: Vec<Signer> = Vec::with_capacity(refs.len());
        while signers.len() < refs.len()
            invariant
                self.knows(refs@),
                signers@.len() <= refs@.len(),
                forall|k: int|
                    0 <= k < signers@.len() ==> #[trigger] signers@[k] == self.signer_of(refs@[k]),
            decreases refs@.len() - signers@.len(),
        {
            let k: usize = signers.len();
            assert(refs@[k as int] matches SignerRef::User(i) ==> i < self.user_count());
            let signer = match refs[k] {
                SignerRef::Payer => self.payer,
                SignerRef::Mint => self.mint_kp,
                SignerRef::User(i) => self.world.users[i],
            };
            signers.push(signer);
        }
        proof {
            let expected = refs@.map_values(|signer: SignerRef| self.signer_of(signer));
            assert(signers@ =~= expected);
            assert(keys_view(signers@) =~= self.keys_of(refs@));
        }
        signers
    }

    /// The transaction that creates the mint and its vault.
    pub open spec fn mint_tx(self, mint_rent: u64) -> PlannedTxView {
        PlannedTxView {
            ixs: seq![
                create_account_ix(
                    self.payer.key(),
                    self.world.mint@,
                    mint_rent,
                    MINT_LEN,
                    SPL_TOKEN_ID@,
                ),
                initialize_mint_ix(self.world.mint@, self.payer.key(), USDC_DECIMALS),
                global_vault_ix(self.payer.key(), self.world.mint@, self.vault, self.programs),
            ],
            signers: seq![SignerRef::Payer, SignerRef::Mint],
        }
    }

    /// The plan that creates the mint and its vault.
    pub open spec fn mint_txs(self, mint_rent: u64) -> Seq<PlannedTxView> {
        seq![self.mint_tx(mint_rent)]
    }

    /// Plans the creation of the mint, with `mint_rent` lamports, and of its
    /// vault.
    pub fn mint_plan(&self, mint_rent: u64) -> (result: Result<Vec<PlannedTx>, SetupError>)
        requires
            self.wf(),
        ensures
            result is Ok,
            plan_view(result->Ok_0@) == self.mint_txs(mint_rent),
            self.can_sign_all(plan_view(result->Ok_0@)),
    {
        let payer = self.payer.address();
        let mint = self.world.mint;
        let init = match spl_initialize_mint(&mint, &payer, USDC_DECIMALS) {
            Ok(ix) => ix,
            Err(_) => return Err(SetupError::Instruction),
        };
        let tx = PlannedTx {
            ixs: vec![
                system_create_account(&payer, &mint, mint_rent, MINT_LEN, &SPL_TOKEN_ID),
                init,
                initialize_global_vault_ix(payer, mint, &self.vault, &self.programs),
            ],
            signer_indexes: vec![SignerRef::Payer, SignerRef::Mint],
        };
        proof {
            assert(tx@ =~= self.mint_tx(mint_rent));
            self.mint_tx_can_be_signed(mint_rent);
        }
        let plan: Vec<PlannedTx> = vec![tx];
        assert(plan_view(plan@) =~= seq![self.mint_tx(mint_rent)]);
        Ok(plan)
    }

    /// The mint's transaction needs the signatures of the payer and the mint.
    proof fn mint_tx_can_be_signed(self, mint_rent: u64)
        requires
            self.wf(),
        ensures
            self.can_sign_all(seq![self.mint_tx(mint_rent)]),
    {
        let tx = self.mint_tx(mint_rent);
        let ixs = tx.ixs;
        let keys = self.keys_of(tx.signers);
        crate::bytes::le_bytes_has_width(0, 4);
        crate::bytes::le_bytes_has_width(mint_rent as nat, 8);
        crate::bytes::le_bytes_has_width(MINT_LEN as nat, 8);
        self.payer.key_has_32_bytes();
        reveal_with_fuel(mentioned, 4);
        assert(mentioned(ixs).len() <= 254);
        assert(ixs[0].data.len() == 52);
        assert(ixs[1].data.len() == 35);
        assert(ixs[2].data.len() == 1);
        assert(keys =~= seq![self.payer.key(), self.mint_kp.key()]);
        assert(keys[0] == self.payer.key() && keys[1] == self.mint_kp.key());
        assert(asks_for(ixs, self.mint_kp.key())) by {
            assert(ixs[0].accounts[1].is_signer);
        }
        assert forall|i: int, j: int|
            0 <= i < ixs.len() && 0 <= j < ixs[i].accounts.len() && (
            #[trigger] ixs[i].accounts[j]).is_signer implies keys.contains(
            ixs[i].accounts[j].address,
        ) by {
            if i == 0 && j == 1 {
                assert(ixs[i].accounts[j].address == keys[1]);
            } else {
                assert(ixs[i].accounts[j].address == keys[0]);
            }
        }
        few_mentions_fit(ixs, keys);
        assert(can_sign(ixs, keys));
    }

    /// A plan over all users can be signed where each user's part is in order.
    proof fn user_plans_can_be_signed(
        self,
        per_user: Seq<Seq<InstructionView>>,
        per_tx: nat,
        by_users: bool,
        max_mentions: nat,
    )
        requires
            per_tx > 0,
            per_tx * max_mentions <= 254,
            per_user.len() == self.user_count(),
            self.user_count() <= usize::MAX,
            forall|u: int|
                0 <= u < per_user.len() ==> is_user_part(
                    #[trigger] per_user[u],
                    self.payer.key(),
                    self.user_key(u),
                    by_users,
                    max_mentions,
                ),
        ensures
            self.can_sign_all(chunked(per_user, per_tx, by_users)),
    {
        let plan = chunked(per_user, per_tx, by_users);
        let users = keys_view(self.world.users@);
        assert forall|c: int| 0 <= c < plan.len() implies self.knows((#[trigger] plan[c]).signers)
            && can_sign(plan[c].ixs, self.keys_of(plan[c].signers)) by {
            let start = chunk_start(c as nat, per_tx) as int;
            let end = chunk_end(c as nat, per_tx, per_user.len()) as int;
            crate::plan::chunk_lies_inside(per_user.len(), per_tx, c as nat);
            assert(start <= end <= per_user.len());
            assert((end - start) * max_mentions <= per_tx * max_mentions) by (nonlinear_arith)
                requires
                    end - start <= per_tx,
            ;
            chunks_can_be_signed(
                per_user,
                self.payer.key(),
                users,
                start,
                end,
                by_users,
                max_mentions,
            );
            let signers = chunk_signers(start, end, by_users);
            assert(self.keys_of(signers) =~= chunk_keys(
                self.payer.key(),
                users,
                start,
                end,
                by_users,
            ));
        }
    }
}

impl Setup {
    /// Whether user `i`'s associated token account address can be derived.
    pub open spec fn has_token_address(self, i: int) -> bool {
        program_address(
            associated_token_seeds(self.user_key(i), self.world.mint@),
            SPL_ASSOCIATED_TOKEN_ID@,
        ) is Some
    }

    /// What creates user `i`'s token accounts and mints their tokens.
    pub open spec fn account_ixs(self, i: int) -> Seq<InstructionView> {
        seq![
            create_associated_token_ix(
                self.payer.key(),
                self.user_key(i),
                self.world.mint@,
                program_address(
                    associated_token_seeds(self.user_key(i), self.world.mint@),
                    SPL_ASSOCIATED_TOKEN_ID@,
                )->Some_0,
            ),
            mint_to_ix(self.world.mint@, self.world.atas@[i]@, self.payer.key(), USER_DEPOSIT),
            eata_ix(
                self.payer.key(),
                self.user_key(i),
                self.world.mint@,
                self.eatas@[i]@,
                self.programs,
            ),
        ]
    }

    /// The instructions that create user `i`'s token accounts and mint their
    /// tokens.
    fn account_ixs_of(&self, i: usize) -> (result: Result<Vec<Instruction>, SetupError>)
        requires
            self.wf(),
            i < self.user_count(),
        ensures
            match result {
                Ok(ixs) => self.has_token_address(i as int) && ixs_view(ixs@) == self.account_ixs(
                    i as int,
                ),
                Err(error) => !self.has_token_address(i as int) && error
                    == SetupError::NoProgramAddress(i),
            },
    {
        let payer = self.payer.address();
        let user = self.world.users[i].address();
        let mint = self.world.mint;
        let seeds: Vec<Vec<u8>> = vec![
            address_bytes(&user),
            address_bytes(&SPL_TOKEN_ID),
            address_bytes(&mint),
        ];
        assert(seeds_view(seeds@) =~= associated_token_seeds(user@, mint@));
        if find_program_address(&seeds, &SPL_ASSOCIATED_TOKEN_ID).is_none() {
            return Err(SetupError::NoProgramAddress(i));
        }
        let mint_to = match spl_mint_to(&mint, &self.world.atas[i], &payer, USER_DEPOSIT) {
            Ok(ix) => ix,
            Err(_) => return Err(SetupError::Instruction),
        };
        let ixs: Vec<Instruction> = vec![
            create_associated_token_account(&payer, &user, &mint),
            mint_to,
            initialize_eata_ix(payer, user, mint, self.eatas[i], &self.programs),
        ];
        assert(ixs_view(ixs@) =~= self.account_ixs(i as int));
        Ok(ixs)
    }

    /// What each user's account creation takes.
    pub open spec fn all_account_ixs(self) -> Seq<Seq<InstructionView>> {
        Seq::new(self.user_count(), |i: int| self.account_ixs(i))
    }

    /// The plan that creates every user's token accounts and mints their tokens.
    pub open spec fn account_txs(self) -> Seq<PlannedTxView> {
        chunked(self.all_account_ixs(), USERS_PER_TX as nat, false)
    }

    /// Plans the creation of every user's token accounts and the minting of
    /// their tokens, a few users per transaction.
    pub fn account_plan(&self) -> (result: Result<Vec<PlannedTx>, SetupError>)
        requires
            self.wf(),
        ensures
            match result {
                Ok(plan) => {
                    &&& forall|i: int|
                        0 <= i < self.user_count() ==> #[trigger] self.has_token_address(i)
                    &&& plan_view(plan@) == self.account_txs()
                    &&& self.can_sign_all(plan_view(plan@))
                },
                Err(SetupError::NoProgramAddress(at)) => {
                    &&& at < self.user_count()
                    &&& !self.has_token_address(at as int)
                    &&& forall|i: int| 0 <= i < at ==> #[trigger] self.has_token_address(i)
                },
                Err(SetupError::Instruction) => false,
            },
    {
        let count: usize = self.world.users.len();
        let mut per_user: Vec<Vec<Instruction>> = Vec::with_capacity(count);
        while per_user.len() < count
            invariant
                self.wf(),
                count == self.user_count(),
                per_user@.len() <= count,
                forall|i: int| 0 <= i < per_user@.len() ==> #[trigger] self.has_token_address(i),
                forall|i: int|
                    0 <= i < per_user@.len() ==> ixs_view((#[trigger] per_user@[i])@)
                        == self.account_ixs(i),
            decreases count - per_user@.len(),
        {
            let i: usize = per_user.len();
            match self.account_ixs_of(i) {
                Ok(ixs) => per_user.push(ixs),
                Err(error) => return Err(error),
            }
        }
        proof {
            assert(per_user_view(per_user@) =~= self.all_account_ixs());
            assert forall|u: int| 0 <= u < self.user_count() implies is_user_part(
                #[trigger] self.all_account_ixs()[u],
                self.payer.key(),
                self.user_key(u),
                false,
                17,
            ) by {
                let ixs = self.account_ixs(u);
                crate::bytes::le_bytes_has_width(USER_DEPOSIT as nat, 8);
                reveal_with_fuel(mentioned, 4);
                assert(ixs[0].data.len() == 1);
                assert(ixs[1].data.len() == 9);
                assert(ixs[2].data.len() == 1);
                assert(mentioned(ixs).len() == 17);
            }
            self.user_plans_can_be_signed(
                self.all_account_ixs(),
                USERS_PER_TX as nat,
                false,
                17,
            );
        }
        Ok(chunked_plan(USERS_PER_TX, per_user, false))
    }

    /// What moves user `i`'s tokens into their ephemeral token account.
    pub open spec fn user_deposit_ix(self, i: int) -> InstructionView {
        deposit_ix(
            self.user_key(i),
            self.world.mint@,
            self.eatas@[i]@,
            self.world.atas@[i]@,
            self.vault,
            USER_DEPOSIT,
            self.programs,
        )
    }

    /// In a setup that owns its vault, the instruction that sets the vault up
    /// and those that deposit into it name the address derived from the mint.
    pub proof fn instructions_name_the_derived_vault(self, mint_rent: u64, i: int)
        requires
            self.owns_vault(),
        ensures
            Some(self.mint_tx(mint_rent).ixs[2].accounts[0].address) == program_address(
                seq![self.world.mint@],
                self.programs.eata@,
            ),
            Some(self.user_deposit_ix(i).accounts[1].address) == program_address(
                seq![self.world.mint@],
                self.programs.eata@,
            ),
    {
    }

    /// What each user's deposit takes.
    pub open spec fn all_deposit_ixs(self) -> Seq<Seq<InstructionView>> {
        Seq::new(self.user_count(), |i: int| seq![self.user_deposit_ix(i)])
    }

    /// The plan that deposits every user's tokens.
    pub open spec fn deposit_txs(self) -> Seq<PlannedTxView> {
        chunked(self.all_deposit_ixs(), USERS_PER_TX as nat, true)
    }

    /// Plans the deposit of every user's tokens, a few users per transaction,
    /// signed by those users.
    pub fn deposit_plan(&self) -> (plan: Vec<PlannedTx>)
        requires
            self.wf(),
        ensures
            plan_view(plan@) == self.deposit_txs(),
            self.can_sign_all(plan_view(plan@)),
    {
        let count: usize = self.world.users.len();
        let mut per_user: Vec<Vec<Instruction>> = Vec::with_capacity(count);
        while per_user.len() < count
            invariant
                self.wf(),
                count == self.user_count(),
                per_user@.len() <= count,
                forall|i: int|
                    0 <= i < per_user@.len() ==> ixs_view((#[trigger] per_user@[i])@)
                        == seq![self.user_deposit_ix(i)],
            decreases count - per_user@.len(),
        {
            let i: usize = per_user.len();
            let user = self.world.users[i].address();
            let ixs: Vec<Instruction> = vec![
                deposit_spl_tokens_ix(
                    user,
                    self.world.mint,
                    self.eatas[i],
                    self.world.atas[i],
                    &self.vault,
                    USER_DEPOSIT,
                    &self.programs,
                ),
            ];
            assert(ixs_view(ixs@) =~= seq![self.user_deposit_ix(i as int)]);
            per_user.push(ixs);
        }
        proof {
            assert(per_user_view(per_user@) =~= self.all_deposit_ixs());
            assert forall|u: int| 0 <= u < self.user_count() implies is_user_part(
                #[trigger] self.all_deposit_ixs()[u],
                self.payer.key(),
                self.user_key(u),
                true,
                8,
            ) by {
                let ixs = seq![self.user_deposit_ix(u)];
                crate::bytes::le_bytes_has_width(USER_DEPOSIT as nat, 8);
                reveal_with_fuel(mentioned, 2);
                assert(ixs[0].data.len() == 9);
                assert(mentioned(ixs).len() == 8);
                assert(ixs[0].accounts[5].is_signer);
            }
            self.user_plans_can_be_signed(
                self.all_deposit_ixs(),
                USERS_PER_TX as nat,
                true,
                8,
            );
        }
        chunked_plan(USERS_PER_TX, per_user, true)
    }

    /// What delegates user `i`'s ephemeral token account to the validator.
    pub open spec fn user_delegate_ix(self, i: int) -> InstructionView {
        delegate_ix(
            self.payer.key(),
            self.eatas@[i]@,
            self.world.validator@,
            self.programs.eata@,
        )
    }

    /// What each user's delegation takes.
    pub open spec fn all_delegate_ixs(self) -> Seq<Seq<InstructionView>> {
        Seq::new(self.user_count(), |i: int| seq![self.user_delegate_ix(i)])
    }

    /// Whether the addresses that user `i`'s delegation needs can be derived.
    pub open spec fn can_delegate_user(self, i: int) -> bool {
        can_delegate(self.eatas@[i]@, self.programs.eata@)
    }

    /// The plan that delegates every user's ephemeral token account.
    pub open spec fn delegate_txs(self) -> Seq<PlannedTxView> {
        chunked(self.all_delegate_ixs(), USERS_PER_TX as nat, false)
    }

    /// Plans the delegation of every user's ephemeral token account, a few
    /// users per transaction.
    pub fn delegate_plan(&self) -> (result: Result<Vec<PlannedTx>, SetupError>)
        requires
            self.wf(),
        ensures
            match result {
                Ok(plan) => {
                    &&& forall|i: int|
                        0 <= i < self.user_count() ==> #[trigger] self.can_delegate_user(i)
                    &&& plan_view(plan@) == self.delegate_txs()
                    &&& self.can_sign_all(plan_view(plan@))
                },
                Err(SetupError::NoProgramAddress(at)) => {
                    &&& at < self.user_count()
                    &&& !self.can_delegate_user(at as int)
                    &&& forall|i: int| 0 <= i < at ==> #[trigger] self.can_delegate_user(i)
                },
                Err(SetupError::Instruction) => false,
            },
    {
        let count: usize = self.world.users.len();
        let payer = self.payer.address();
        let mut per_user: Vec<Vec<Instruction>> = Vec::with_capacity(count);
        while per_user.len() < count
            invariant
                self.wf(),
                payer@ == self.payer.key(),
                count == self.user_count(),
                per_user@.len() <= count,
                forall|i: int| 0 <= i < per_user@.len() ==> #[trigger] self.can_delegate_user(i),
                forall|i: int|
                    0 <= i < per_user@.len() ==> ixs_view((#[trigger] per_user@[i])@)
                        == seq![self.user_delegate_ix(i)],
            decreases count - per_user@.len(),
        {
            let i: usize = per_user.len();
            let ix = match delegate_eata_ix(
                payer,
                self.eatas[i],
                self.world.validator,
                self.programs.eata,
            ) {
                Some(ix) => ix,
                None => {
                    assert(!self.can_delegate_user(i as int));
                    return Err(SetupError::NoProgramAddress(i));
                },
            };
            let ixs: Vec<Instruction> = vec![ix];
            assert(ixs_view(ixs@) =~= seq![self.user_delegate_ix(i as int)]);
            assert(self.can_delegate_user(i as int));
            per_user.push(ixs);
        }
        proof {
            assert(per_user_view(per_user@) =~= self.all_delegate_ixs());
            assert forall|u: int| 0 <= u < self.user_count() implies is_user_part(
                #[trigger] self.all_delegate_ixs()[u],
                self.payer.key(),
                self.user_key(u),
                false,
                9,
            ) by {
                let ixs = seq![self.user_delegate_ix(u)];
                reveal_with_fuel(mentioned, 2);
                assert(ixs[0].data.len() == 33);
                assert(mentioned(ixs).len() == 9);
            }
            self.user_plans_can_be_signed(
                self.all_delegate_ixs(),
                USERS_PER_TX as nat,
                false,
                9,
            );
        }
        Ok(chunked_plan(USERS_PER_TX, per_user, false))
    }

    /// Plans the funding and delegation of every user's fee escrow from the
    /// instructions that this takes for each, signed by those users. The plan
    /// can be signed where each user's instructions need the signatures of
    /// that user and at most the payer's, and are not too many.
    pub fn escrow_plan(&self, topups: Vec<Vec<Instruction>>) -> (plan: Vec<PlannedTx>)
        requires
            self.wf(),
            topups@.len() == self.user_count(),
        ensures
            plan_view(plan@) == escrow_txs(per_user_view(topups@)),
            (forall|u: int|
                0 <= u < topups@.len() ==> is_user_part(
                    #[trigger] per_user_view(topups@)[u],
                    self.payer.key(),
                    self.user_key(u),
                    true,
                    127,
                )) ==> self.can_sign_all(plan_view(plan@)),
    {
        let users: usize = self.world.users.len();
        proof {
            assert(users == self.user_count());
            let views = per_user_view(topups@);
            if forall|u: int|
                0 <= u < topups@.len() ==> is_user_part(
                    #[trigger] views[u],
                    self.payer.key(),
                    self.user_key(u),
                    true,
                    127,
                ) {
                self.user_plans_can_be_signed(views, ESCROWS_PER_TX as nat, true, 127);
            }
        }
        chunked_plan(ESCROWS_PER_TX, topups, true)
    }
}

/// The plan that funds and delegates fee escrows, given what each user's takes.
pub open spec fn escrow_txs(topups: Seq<Seq<InstructionView>>) -> Seq<PlannedTxView> {
    chunked(topups, ESCROWS_PER_TX as nat, true)
}

/// An account of an instruction, by its three parts.
pub open spec fn role(address: Seq<u8>, is_signer: bool, is_writable: bool) -> AccountMetaView {
    AccountMetaView { address, is_signer, is_writable }
}

impl Setup {
    /// The mint's plan is one transaction, signed by the payer and the mint.
    /// It creates the mint's account, of 82 bytes, for the token program; sets
    /// it up with six decimals and the payer as its authority; and sets up the
    /// vault of that mint.
    pub proof fn the_mint_is_created_for_the_payer(self, mint_rent: u64)
        ensures
            self.mint_txs(mint_rent).len() == 1,
            self.mint_txs(mint_rent)[0].signers == seq![SignerRef::Payer, SignerRef::Mint],
            self.mint_txs(mint_rent)[0].ixs == seq![
                InstructionView {
                    program_id: SYSTEM_PROGRAM_ID@,
                    accounts: seq![
                        role(self.payer.key(), true, true),
                        role(self.world.mint@, true, true),
                    ],
                    data: le_bytes(0, 4) + le_bytes(mint_rent as nat, 8) + le_bytes(82, 8)
                        + SPL_TOKEN_ID@,
                },
                InstructionView {
                    program_id: SPL_TOKEN_ID@,
                    accounts: seq![
                        role(self.world.mint@, false, true),
                        role(RENT_SYSVAR_ID@, false, false),
                    ],
                    data: seq![0u8, 6u8] + self.payer.key() + seq![0u8],
                },
                InstructionView {
                    program_id: self.programs.eata@,
                    accounts: seq![
                        role(self.vault.vault@, false, true),
                        role(self.payer.key(), true, true),
                        role(self.world.mint@, false, false),
                        role(self.vault.eata@, false, true),
                        role(self.vault.ata@, false, true),
                        role(self.programs.token@, false, false),
                        role(self.programs.associated_token@, false, false),
                        role(SYSTEM_PROGRAM_ID@, false, false),
                    ],
                    data: seq![1u8],
                },
            ],
    {
        let tx = self.mint_txs(mint_rent)[0];
        assert(tx.ixs[0].accounts =~= seq![
            role(self.payer.key(), true, true),
            role(self.world.mint@, true, true),
        ]);
        assert(tx.ixs[1].accounts =~= seq![
            role(self.world.mint@, false, true),
            role(RENT_SYSVAR_ID@, false, false),
        ]);
        assert(tx.ixs[2].accounts =~= seq![
            role(self.vault.vault@, false, true),
            role(self.payer.key(), true, true),
            role(self.world.mint@, false, false),
            role(self.vault.eata@, false, true),
            role(self.vault.ata@, false, true),
            role(self.programs.token@, false, false),
            role(self.programs.associated_token@, false, false),
            role(SYSTEM_PROGRAM_ID@, false, false),
        ]);
    }

    /// The account plan carries three instructions for each user, in order:
    /// the first creates the token account that is derived from that user and
    /// the mint, the second mints 1,000 USDC into the user's own token
    /// account, and the third sets up the user's own ephemeral token account.
    /// The payer pays for all of it and alone signs.
    pub proof fn every_user_gets_their_own_accounts(self, i: int)
        requires
            0 <= i < self.user_count(),
            self.user_count() <= usize::MAX,
        ensures
            carried(self.account_txs()).len() == 3 * self.user_count(),
            carried(self.account_txs())[3 * i] == (InstructionView {
                program_id: SPL_ASSOCIATED_TOKEN_ID@,
                accounts: seq![
                    role(self.payer.key(), true, true),
                    role(
                        program_address(
                            seq![self.world.users@[i].key(), SPL_TOKEN_ID@, self.world.mint@],
                            SPL_ASSOCIATED_TOKEN_ID@,
                        )->Some_0,
                        false,
                        true,
                    ),
                    role(self.world.users@[i].key(), false, false),
                    role(self.world.mint@, false, false),
                    role(SYSTEM_PROGRAM_ID@, false, false),
                    role(SPL_TOKEN_ID@, false, false),
                ],
                data: seq![1u8],
            }),
            carried(self.account_txs())[3 * i + 1] == (InstructionView {
                program_id: SPL_TOKEN_ID@,
                accounts: seq![
                    role(self.world.mint@, false, true),
                    role(self.world.atas@[i]@, false, true),
                    role(self.payer.key(), true, false),
                ],
                data: seq![7u8] + le_bytes(1_000_000_000, 8),
            }),
            carried(self.account_txs())[3 * i + 2] == (InstructionView {
                program_id: self.programs.eata@,
                accounts: seq![
                    role(self.eatas@[i]@, false, true),
                    role(self.payer.key(), true, true),
                    role(self.world.users@[i].key(), false, false),
                    role(self.world.mint@, false, false),
                    role(SYSTEM_PROGRAM_ID@, false, false),
                ],
                data: seq![0u8],
            }),
            self.account_txs()[i / 3].signers == seq![SignerRef::Payer],
    {
        let per_user = self.all_account_ixs();
        plans_carry_every_instruction(per_user, 3, false);
        transactions_belong_to_their_users(per_user, 3, false, i as nat);
        joined_lists_keep_their_places(per_user, 3, i, 0);
        joined_lists_keep_their_places(per_user, 3, i, 1);
        joined_lists_keep_their_places(per_user, 3, i, 2);
        let ixs = self.account_ixs(i);
        assert(per_user[i] == ixs);
        assert(ixs[0].accounts =~= seq![
            role(self.payer.key(), true, true),
            role(
                program_address(
                    seq![self.world.users@[i].key(), SPL_TOKEN_ID@, self.world.mint@],
                    SPL_ASSOCIATED_TOKEN_ID@,
                )->Some_0,
                false,
                true,
            ),
            role(self.world.users@[i].key(), false, false),
            role(self.world.mint@, false, false),
            role(SYSTEM_PROGRAM_ID@, false, false),
            role(SPL_TOKEN_ID@, false, false),
        ]);
        assert(ixs[1].accounts =~= seq![
            role(self.world.mint@, false, true),
            role(self.world.atas@[i]@, false, true),
            role(self.payer.key(), true, false),
        ]);
        assert(ixs[2].accounts =~= seq![
            role(self.eatas@[i]@, false, true),
            role(self.payer.key(), true, true),
            role(self.world.users@[i].key(), false, false),
            role(self.world.mint@, false, false),
            role(SYSTEM_PROGRAM_ID@, false, false),
        ]);
        assert(self.account_txs()[i / 3].signers =~= seq![SignerRef::Payer]);
    }

    /// The deposit plan carries one instruction for each user, in order. It
    /// credits that user's own ephemeral token account and debits that user's
    /// own token account by 1,000 USDC, through the mint's vault, and that user
    /// signs its transaction.
    pub proof fn deposits_credit_their_own_users(self, i: int)
        requires
            0 <= i < self.user_count(),
            self.user_count() <= usize::MAX,
        ensures
            carried(self.deposit_txs()).len() == self.user_count(),
            carried(self.deposit_txs())[i] == (InstructionView {
                program_id: self.programs.eata@,
                accounts: seq![
                    role(self.eatas@[i]@, false, true),
                    role(self.vault.vault@, false, false),
                    role(self.world.mint@, false, false),
                    role(self.world.atas@[i]@, false, true),
                    role(self.vault.ata@, false, true),
                    role(self.world.users@[i].key(), true, false),
                    role(self.programs.token@, false, false),
                ],
                data: seq![2u8] + le_bytes(1_000_000_000, 8),
            }),
            self.deposit_txs()[i / 3].signers[0] == SignerRef::Payer,
            self.deposit_txs()[i / 3].signers[1 + i % 3] == SignerRef::User(i as usize),
    {
        let per_user = self.all_deposit_ixs();
        plans_carry_every_instruction(per_user, 3, true);
        transactions_belong_to_their_users(per_user, 3, true, i as nat);
        joined_lists_keep_their_places(per_user, 1, i, 0);
        assert(per_user[i][0] == self.user_deposit_ix(i));
        assert(self.user_deposit_ix(i).accounts =~= seq![
            role(self.eatas@[i]@, false, true),
            role(self.vault.vault@, false, false),
            role(self.world.mint@, false, false),
            role(self.world.atas@[i]@, false, true),
            role(self.vault.ata@, false, true),
            role(self.world.users@[i].key(), true, false),
            role(self.programs.token@, false, false),
        ]);
    }

    /// Where the ephemeral token accounts of two users differ, their deposits
    /// credit different accounts; where their token accounts differ, different
    /// accounts are debited.
    pub proof fn deposits_of_different_users_differ(self, i: int, j: int)
        requires
            0 <= i < self.user_count(),
            0 <= j < self.user_count(),
            self.user_count() <= usize::MAX,
        ensures
            self.eatas@[i]@ != self.eatas@[j]@ ==> carried(self.deposit_txs())[i].accounts[0].address
                != carried(self.deposit_txs())[j].accounts[0].address,
            self.world.atas@[i]@ != self.world.atas@[j]@ ==> carried(
                self.deposit_txs(),
            )[i].accounts[3].address != carried(self.deposit_txs())[j].accounts[3].address,
    {
        self.deposits_credit_their_own_users(i);
        self.deposits_credit_their_own_users(j);
    }

    /// The delegation plan carries one instruction for each user, in order. It
    /// delegates that user's own ephemeral token account to the validator, and
    /// names the buffer, the record and the metadata that are derived from
    /// that account. The payer alone signs.
    pub proof fn delegations_hand_over_their_own_accounts(self, i: int)
        requires
            0 <= i < self.user_count(),
            self.user_count() <= usize::MAX,
        ensures
            carried(self.delegate_txs()).len() == self.user_count(),
            carried(self.delegate_txs())[i] == (InstructionView {
                program_id: self.programs.eata@,
                accounts: seq![
                    role(self.payer.key(), true, true),
                    role(self.eatas@[i]@, false, true),
                    role(self.programs.eata@, false, false),
                    role(
                        program_address(
                            buffer_seeds(self.eatas@[i]@),
                            self.programs.eata@,
                        )->Some_0,
                        false,
                        true,
                    ),
                    role(
                        program_address(
                            record_seeds(self.eatas@[i]@),
                            DELEGATION_PROGRAM_ID@,
                        )->Some_0,
                        false,
                        true,
                    ),
                    role(
                        program_address(
                            metadata_seeds(self.eatas@[i]@),
                            DELEGATION_PROGRAM_ID@,
                        )->Some_0,
                        false,
                        true,
                    ),
                    role(DELEGATION_PROGRAM_ID@, false, false),
                    role(SYSTEM_PROGRAM_ID@, false, false),
                ],
                data: seq![4u8] + self.world.validator@,
            }),
            self.delegate_txs()[i / 3].signers == seq![SignerRef::Payer],
    {
        let per_user = self.all_delegate_ixs();
        plans_carry_every_instruction(per_user, 3, false);
        transactions_belong_to_their_users(per_user, 3, false, i as nat);
        joined_lists_keep_their_places(per_user, 1, i, 0);
        let eata = self.eatas@[i]@;
        assert(per_user[i][0] == self.user_delegate_ix(i));
        assert(self.user_delegate_ix(i).accounts =~= seq![
            role(self.payer.key(), true, true),
            role(eata, false, true),
            role(self.programs.eata@, false, false),
            role(program_address(buffer_seeds(eata), self.programs.eata@)->Some_0, false, true),
            role(program_address(record_seeds(eata), DELEGATION_PROGRAM_ID@)->Some_0, false, true),
            role(
                program_address(metadata_seeds(eata), DELEGATION_PROGRAM_ID@)->Some_0,
                false,
                true,
            ),
            role(DELEGATION_PROGRAM_ID@, false, false),
            role(SYSTEM_PROGRAM_ID@, false, false),
        ]);
        assert(self.delegate_txs()[i / 3].signers =~= seq![SignerRef::Payer]);
    }

    /// Signers stand for the key pairs they are named after.
    pub proof fn signers_stand_for_their_names(self, i: usize)
        ensures
            self.signer_of(SignerRef::Payer) == self.payer,
            self.signer_of(SignerRef::Mint) == self.mint_kp,
            self.signer_of(SignerRef::User(i)) == self.world.users@[i as int],
    {
    }
}

/// The escrow plan carries every user's instructions, in order, two users to a
/// transaction; the payer and then those users sign it.
pub proof fn escrows_are_signed_by_their_users(topups: Seq<Seq<InstructionView>>, u: int)
    requires
        0 <= u < topups.len() <= usize::MAX,
    ensures
        carried(escrow_txs(topups)) == topups.flatten(),
        escrow_txs(topups)[u / 2].signers[0] == SignerRef::Payer,
        escrow_txs(topups)[u / 2].signers[1 + u % 2] == SignerRef::User(u as usize),
        u % 2 == 0 && u + 1 < topups.len() ==> escrow_txs(topups)[u / 2].ixs == topups[u]
            + topups[u + 1],
        u % 2 == 0 && u + 1 == topups.len() ==> escrow_txs(topups)[u / 2].ixs
            == topups[u],
{
    plans_carry_every_instruction(topups, 2, true);
    transactions_belong_to_their_users(topups, 2, true, u as nat);
    if u % 2 == 0 {
        let own = Seq::<Seq<InstructionView>>::empty();
        own.lemma_flatten_push(topups[u]);
        assert(own.flatten() + topups[u] =~= topups[u]);
        if u + 1 < topups.len() {
            own.push(topups[u]).lemma_flatten_push(topups[u + 1]);
            assert(topups.subrange(u, u + 2) =~= own.push(topups[u]).push(
                topups[u + 1],
            ));
        } else {
            assert(topups.subrange(u, u + 1) =~= own.push(topups[u]));
        }
    }
}

/// Whether `part` is shard number `shard` of the world.
pub open spec fn is_shard(world: World, shard: nat, users_per_shard: nat, part: Shard) -> bool {
    &&& part.users@ == world.users@.subrange(
        (shard * users_per_shard) as int,
        ((shard + 1) * users_per_shard) as int,
    )
    &&& part.atas@ == world.atas@.subrange(
        (shard * users_per_shard) as int,
        ((shard + 1) * users_per_shard) as int,
    )
}

/// A shard holds as many users as are asked for, and each with the account
/// that is theirs: user number `index` of the world stands, with their token
/// account, at place `index % users_per_shard` of shard
/// `index / users_per_shard`.
pub proof fn shards_hold_users_with_their_accounts(
    world: World,
    shard: nat,
    users_per_shard: nat,
    part: Shard,
    index: nat,
)
    requires
        world.wf(),
        users_per_shard > 0,
        is_shard(world, shard, users_per_shard, part),
        index < world.users@.len(),
        (shard + 1) * users_per_shard <= world.users@.len(),
        index / users_per_shard == shard,
    ensures
        part.users@.len() == users_per_shard,
        part.atas@.len() == users_per_shard,
        part.users@[(index % users_per_shard) as int] == world.users@[index as int],
        part.atas@[(index % users_per_shard) as int] == world.atas@[index as int],
{
    vstd::arithmetic::div_mod::lemma_fundamental_div_mod(index as int, users_per_shard as int);
    assert((shard + 1) * users_per_shard == shard * users_per_shard + users_per_shard)
        by (nonlinear_arith);
    assert(index == shard * users_per_shard + index % users_per_shard) by (nonlinear_arith)
        requires
            index == users_per_shard * shard + index % users_per_shard,
    ;
}

} // verus!
