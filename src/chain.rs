//! Transactions, blocks, and the chain state machine: admission into the
//! mempool, candidate assembly, solution validation and settlement.
use vstd::prelude::*;
use crate::difficulty::{
    block_reward, retarget, retarget_spec, reward_spec, MAX_DIFFICULTY, MIN_DIFFICULTY,
};
use crate::ledger::{
    amount_in, is_registered, owner_in, sat_add, sat_sub, Balances, Identity, Registry,
};
use crate::pow::{
    block_digest, check_difficulty, digest, le_bytes, leading_zero_bits, meets_difficulty, push_le, rapidhash_of,
    rapidhash_seeded, BlockHeader,
};

verus! {

/// Most transactions the mempool holds before admission reports congestion
/// (admission is refused once the mempool is longer than this).
pub const TRANSACTION_LIMIT: usize = 150;

/// Delay, in seconds, before a round that found an empty mempool is retried.
pub const EMPTY_MEMPOOL_RETRY_SECS: u64 = 20;

/// Delay, in seconds, before the round that follows an accepted block.
pub const NEXT_ROUND_SECS: u64 = 1;

/// Header version of the blocks this chain assembles.
pub const BLOCK_VERSION: u32 = 1;

/// A transfer of `amount` from `sender` to `recipient`; a transfer to the
/// system's own identity is a withdrawal.
#[derive(Clone, Debug)]
pub struct Transaction {
    pub sender: Identity,
    pub recipient: Identity,
    pub amount: u64,
    pub timestamp: u64,
}

/// A transaction as the contracts see it.
pub struct TxView {
    pub sender: Seq<u8>,
    pub recipient: Seq<u8>,
    pub amount: u64,
    pub timestamp: u64,
}

impl View for Transaction {
    type V = TxView;

    open spec fn view(&self) -> TxView {
        TxView {
            sender: self.sender@,
            recipient: self.recipient@,
            amount: self.amount,
            timestamp: self.timestamp,
        }
    }
}

/// The views of a list of transactions.
pub open spec fn txs_view(txs: Seq<Transaction>) -> Seq<TxView> {
    txs.map_values(|t: Transaction| t@)
}

impl Transaction {
    /// Whether two transactions are equal field for field.
    pub fn same(&self, other: &Transaction) -> (r: bool)
        ensures
            r == (self@ == other@),
    {
        self.amount == other.amount && self.timestamp == other.timestamp && self.sender.same(
            &other.sender,
        ) && self.recipient.same(&other.recipient)
    }

    /// A field-for-field copy.
    pub fn copy(&self) -> (r: Transaction)
        ensures
            r@ == self@,
    {
        Transaction {
            sender: self.sender.copy(),
            recipient: self.recipient.copy(),
            amount: self.amount,
            timestamp: self.timestamp,
        }
    }
}

/// Copies a list of transactions.
pub fn copy_transactions(txs: &Vec<Transaction>) -> (r: Vec<Transaction>)
    ensures
        txs_view(r@) == txs_view(txs@),
{
    let mut r: Vec<Transaction> = Vec::new();
    let mut i: usize = 0;
    while i < txs.len()
        invariant
            i <= txs@.len(),
            txs_view(r@) =~= txs_view(txs@).take(i as int),
        decreases txs@.len() - i,
    {
        let ghost r0 = r@;
        let c = txs[i].copy();
        r.push(c);
        assert(txs_view(r@) =~= txs_view(r0).push(txs@[i as int]@));
        i = i + 1;
        assert(txs_view(r@) =~= txs_view(txs@).take(i as int));
    }
    assert(txs_view(txs@).take(i as int) =~= txs_view(txs@));
    r
}

/// A block: its header, the nonce that solves it, its hash, and the
/// transactions it carries in mempool order.
#[derive(Clone, Debug)]
pub struct Block {
    pub header: BlockHeader,
    pub nonce: u64,
    pub hash: u128,
    pub transactions: Vec<Transaction>,
}

impl Block {
    /// A copy of the header, nonce, hash and transactions.
    pub fn copy(&self) -> (r: Block)
        ensures
            r.header == self.header,
            r.nonce == self.nonce,
            r.hash == self.hash,
            txs_view(r.transactions@) == txs_view(self.transactions@),
    {
        Block {
            header: self.header,
            nonce: self.nonce,
            hash: self.hash,
            transactions: copy_transactions(&self.transactions),
        }
    }
}

/// Bytes a transaction contributes to the commitment in a block header:
/// sender length, sender, recipient length, recipient, amount, timestamp.
pub open spec fn tx_encoding(t: TxView) -> Seq<u8> {
    le_bytes(t.sender.len(), 8) + t.sender + le_bytes(t.recipient.len(), 8) + t.recipient
        + le_bytes(t.amount as nat, 8) + le_bytes(t.timestamp as nat, 8)
}

/// The encodings of `txs`, concatenated in order.
pub open spec fn txs_encoding(txs: Seq<TxView>) -> Seq<u8>
    decreases txs.len(),
{
    if txs.len() == 0 {
        Seq::empty()
    } else {
        txs_encoding(txs.drop_last()) + tx_encoding(txs.last())
    }
}

/// The commitment to a list of transactions stored in a header.
pub open spec fn transactions_root_spec(txs: Seq<TxView>) -> u128 {
    rapidhash_of(0, txs_encoding(txs)) as u128
}

/// Computes the commitment to `txs`.
pub fn transactions_root(txs: &Vec<Transaction>) -> (r: u128)
    ensures
        r == transactions_root_spec(txs_view(txs@)),
{
    let mut data: Vec<u8> = Vec::new();
    let mut i: usize = 0;
    while i < txs.len()
        invariant
            i <= txs@.len(),
            data@ == txs_encoding(txs_view(txs@).take(i as int)),
        decreases txs@.len() - i,
    {
        let t = &txs[i];
        push_le(&mut data, t.sender.bytes.len() as u128, 8);
        let mut s = t.sender.bytes.clone();
        data.append(&mut s);
        push_le(&mut data, t.recipient.bytes.len() as u128, 8);
        let mut d = t.recipient.bytes.clone();
        data.append(&mut d);
        push_le(&mut data, t.amount as u128, 8);
        push_le(&mut data, t.timestamp as u128, 8);
        proof {
            let pre = txs_view(txs@).take(i as int);
            let next = txs_view(txs@).take(i + 1);
            assert(next.drop_last() =~= pre);
            assert(next.last() == t@);
            assert(data@ =~= txs_encoding(pre) + tx_encoding(t@));
        }
        i = i + 1;
    }
    assert(txs_view(txs@).take(i as int) =~= txs_view(txs@));
    let h = rapidhash_seeded(0, data.as_slice());
    h as u128
}

/// Why a transaction was not admitted.
#[derive(Clone, Copy, Debug, PartialEq, Eq, Structural)]
pub enum AdmitError {
    /// The sender's confirmed balance does not cover what it has reserved plus
    /// this amount.
    InsufficientBalance,
    /// The mempool is over its limit; the transaction may be sent again next round.
    Congested,
    /// A withdrawal (a transfer to the system) of nothing.
    ZeroWithdrawal,
}

/// Why a submitted solution was rejected.
#[derive(Clone, Copy, Debug, PartialEq, Eq, Structural)]
pub enum SolutionError {
    /// The submitter is not a registered worker.
    UnregisteredWorker,
    /// The block does not build on the current tip.
    StaleReference,
    /// The block's height is not the tip's height plus one.
    HeightMismatch,
    /// The digest has too few leading zero bits.
    InvalidSolution,
}

/// What the start of a round decided.
#[derive(Clone, Debug)]
pub enum RoundStart {
    /// Nothing to include: try again after this many seconds.
    Retry(u64),
    /// A candidate was assembled and stored; hand it to the workers.
    Distribute(Block),
}

/// A payout owed by the external ledger for a withdrawal in an accepted block.
#[derive(Clone, Debug)]
pub struct Withdrawal {
    pub recipient: Identity,
    pub amount: u64,
}

/// Withdrawals as (payee, amount) pairs.
pub open spec fn withdrawals_view(w: Seq<Withdrawal>) -> Seq<(Seq<u8>, u64)> {
    w.map_values(|x: Withdrawal| (x.recipient@, x.amount))
}

/// `m` without its first entry equal to `t` (unchanged if there is none).
pub open spec fn remove_first(m: Seq<TxView>, t: TxView) -> Seq<TxView>
    decreases m.len(),
{
    if m.len() == 0 {
        m
    } else if m[0] == t {
        m.drop_first()
    } else {
        seq![m[0]] + remove_first(m.drop_first(), t)
    }
}

/// The mempool after removing, in order, one entry equal to each of `txs`.
pub open spec fn remove_all(m: Seq<TxView>, txs: Seq<TxView>) -> Seq<TxView>
    decreases txs.len(),
{
    if txs.len() == 0 {
        m
    } else {
        remove_first(remove_all(m, txs.drop_last()), txs.last())
    }
}

/// Reservations after releasing the amount of each of `txs` from its sender.
pub open spec fn release_all(p: Map<Seq<u8>, u64>, txs: Seq<TxView>) -> Map<Seq<u8>, u64>
    decreases txs.len(),
{
    if txs.len() == 0 {
        p
    } else {
        let q = release_all(p, txs.drop_last());
        let t = txs.last();
        q.insert(t.sender, sat_sub(amount_in(q, t.sender), t.amount))
    }
}

/// One transaction settled on confirmed balances: an ordinary transfer credits
/// the recipient, then debits the sender; a withdrawal is left to its payout.
pub open spec fn settle_one(c: Map<Seq<u8>, u64>, t: TxView, system: Seq<u8>) -> Map<
    Seq<u8>,
    u64,
> {
    if t.recipient == system {
        c
    } else {
        let c1 = c.insert(t.recipient, sat_add(amount_in(c, t.recipient), t.amount));
        c1.insert(t.sender, sat_sub(amount_in(c1, t.sender), t.amount))
    }
}

/// Confirmed balances after settling each of `txs` in order.
pub open spec fn settle_all(c: Map<Seq<u8>, u64>, txs: Seq<TxView>, system: Seq<u8>) -> Map<
    Seq<u8>,
    u64,
>
    decreases txs.len(),
{
    if txs.len() == 0 {
        c
    } else {
        settle_one(settle_all(c, txs.drop_last(), system), txs.last(), system)
    }
}

/// The withdrawals among `txs`, as (payee, amount), in order.
pub open spec fn withdrawals_of(txs: Seq<TxView>, system: Seq<u8>) -> Seq<(Seq<u8>, u64)>
    decreases txs.len(),
{
    if txs.len() == 0 {
        Seq::empty()
    } else {
        let w = withdrawals_of(txs.drop_last(), system);
        if txs.last().recipient == system {
            w.push((txs.last().sender, txs.last().amount))
        } else {
            w
        }
    }
}

/// The running mean of solve times after the block at `height` took `solve_time`.
pub open spec fn next_average(avg: u64, height: u64, solve_time: u64) -> int {
    (avg * (height - 1) + solve_time) / (height as int)
}

proof fn lemma_remove_first_at(m: Seq<TxView>, t: TxView, i: int)
    requires
        0 <= i <= m.len(),
        forall|j: int| 0 <= j < i ==> m[j] != t,
        i < m.len() ==> m[i] == t,
    ensures
        remove_first(m, t) == if i < m.len() {
            m.remove(i)
        } else {
            m
        },
    decreases m.len(),
{
    if m.len() > 0 && i > 0 {
        lemma_remove_first_at(m.drop_first(), t, i - 1);
        if i < m.len() {
            assert(seq![m[0]] + m.drop_first().remove(i - 1) =~= m.remove(i));
        } else {
            assert(seq![m[0]] + m.drop_first() =~= m);
        }
    }
}

/// Removes from `mempool`, for each of `txs` in order, its first equal entry.
fn remove_included(mempool: &mut Vec<Transaction>, txs: &Vec<Transaction>)
    ensures
        txs_view(final(mempool)@) == remove_all(txs_view(old(mempool)@), txs_view(txs@)),
{
    let ghost m0 = txs_view(mempool@);
    let mut k: usize = 0;
    assert(txs_view(txs@).take(0) =~= Seq::<TxView>::empty());
    while k < txs.len()
        invariant
            k <= txs@.len(),
            txs_view(mempool@) == remove_all(m0, txs_view(txs@).take(k as int)),
        decreases txs@.len() - k,
    {
        let t = &txs[k];
        let mut i: usize = 0;
        let mut found = false;
        while i < mempool.len()
            invariant
                i <= mempool@.len(),
                forall|j: int| 0 <= j < i ==> txs_view(mempool@)[j] != t@,
                found ==> i < mempool@.len() && txs_view(mempool@)[i as int] == t@,
            ensures
                i <= mempool@.len(),
                forall|j: int| 0 <= j < i ==> txs_view(mempool@)[j] != t@,
                found ==> i < mempool@.len() && txs_view(mempool@)[i as int] == t@,
                !found ==> i == mempool@.len(),
            decreases mempool@.len() - i,
        {
            if mempool[i].same(t) {
                found = true;
                break;
            }
            i = i + 1;
        }
        let ghost before = txs_view(mempool@);
        proof {
            lemma_remove_first_at(before, t@, i as int);
            let next = txs_view(txs@).take(k + 1);
            assert(next.drop_last() =~= txs_view(txs@).take(k as int));
            assert(next.last() == t@);
        }
        if found {
            mempool.remove(i);
            assert(txs_view(mempool@) =~= before.remove(i as int));
        }
        k = k + 1;
    }
    assert(txs_view(txs@).take(k as int) =~= txs_view(txs@));
}

/// Releases the reservation of each of `txs` from its sender.
fn release_reservations(pending: &mut Balances, txs: &Vec<Transaction>)
    requires
        old(pending).wf(),
    ensures
        final(pending).wf(),
        final(pending)@ == release_all(old(pending)@, txs_view(txs@)),
{
    let ghost p0 = pending@;
    let mut k: usize = 0;
    assert(txs_view(txs@).take(0) =~= Seq::<TxView>::empty());
    while k < txs.len()
        invariant
            k <= txs@.len(),
            pending.wf(),
            pending@ == release_all(p0, txs_view(txs@).take(k as int)),
        decreases txs@.len() - k,
    {
        let t = &txs[k];
        pending.debit(&t.sender, t.amount);
        proof {
            let next = txs_view(txs@).take(k + 1);
            assert(next.drop_last() =~= txs_view(txs@).take(k as int));
            assert(next.last() == t@);
        }
        k = k + 1;
    }
    assert(txs_view(txs@).take(k as int) =~= txs_view(txs@));
}

/// Settles `txs` on confirmed balances and lists the withdrawals among them.
fn settle_transactions(confirmed: &mut Balances, txs: &Vec<Transaction>, system: &Identity) -> (r:
    Vec<Withdrawal>)
    requires
        old(confirmed).wf(),
    ensures
        final(confirmed).wf(),
        final(confirmed)@ == settle_all(old(confirmed)@, txs_view(txs@), system@),
        withdrawals_view(r@) == withdrawals_of(txs_view(txs@), system@),
{
    let ghost c0 = confirmed@;
    let mut out: Vec<Withdrawal> = Vec::new();
    let mut k: usize = 0;
    assert(txs_view(txs@).take(0) =~= Seq::<TxView>::empty());
    assert(withdrawals_view(out@) =~= Seq::<(Seq<u8>, u64)>::empty());
    while k < txs.len()
        invariant
            k <= txs@.len(),
            confirmed.wf(),
            confirmed@ == settle_all(c0, txs_view(txs@).take(k as int), system@),
            withdrawals_view(out@) == withdrawals_of(txs_view(txs@).take(k as int), system@),
        decreases txs@.len() - k,
    {
        let t = &txs[k];
        let ghost w0 = out@;
        if t.recipient.same(system) {
            out.push(Withdrawal { recipient: t.sender.copy(), amount: t.amount });
            assert(withdrawals_view(out@) =~= withdrawals_view(w0).push((t.sender@, t.amount)));
        } else {
            confirmed.credit(&t.recipient, t.amount);
            confirmed.debit(&t.sender, t.amount);
        }
        proof {
            let next = txs_view(txs@).take(k + 1);
            assert(next.drop_last() =~= txs_view(txs@).take(k as int));
            assert(next.last() == t@);
        }
        k = k + 1;
    }
    assert(txs_view(txs@).take(k as int) =~= txs_view(txs@));
    out
}

/// The state of the chain: tip, difficulty, open candidate, mempool, balances
/// and the worker registry.
pub struct ChainState {
    /// The system's own identity; transfers to it are withdrawals.
    pub system: Identity,
    /// Hash of the tip (0 while only the genesis block exists).
    pub tip_hash: u128,
    /// Height of the tip (the genesis block has height 0).
    pub height: u64,
    pub difficulty: u32,
    /// Mean solve time, in nanoseconds, over all accepted blocks.
    pub average_block_time: u64,
    pub candidate: Option<Block>,
    pub mempool: Vec<Transaction>,
    pub confirmed: Balances,
    pub pending: Balances,
    pub registry: Registry,
}

impl ChainState {
    /// Well-formed tables, and a difficulty within its bounds.
    pub open spec fn wf(&self) -> bool {
        &&& self.confirmed.wf()
        &&& self.pending.wf()
        &&& self.registry.wf()
        &&& MIN_DIFFICULTY <= self.difficulty <= MAX_DIFFICULTY
    }

    /// A chain holding only the genesis block, at the easiest difficulty.
    pub fn new(system: Identity) -> (r: ChainState)
        ensures
            r.wf(),
            r.system@ == system@,
            r.tip_hash == 0,
            r.height == 0,
            r.difficulty == MIN_DIFFICULTY,
            r.average_block_time == 0,
            r.candidate is None,
            r.mempool@.len() == 0,
            r.confirmed@ == Map::<Seq<u8>, u64>::empty(),
            r.pending@ == Map::<Seq<u8>, u64>::empty(),
            r.registry@ == Seq::<(Seq<u8>, Seq<u8>)>::empty(),
    {
        ChainState {
            system,
            tip_hash: 0,
            height: 0,
            difficulty: MIN_DIFFICULTY,
            average_block_time: 0,
            candidate: None,
            mempool: Vec::new(),
            confirmed: Balances::new(),
            pending: Balances::new(),
            registry: Registry::new(),
        }
    }

    /// A chain resumed at a saved tip, with empty tables and mempool that the
    /// caller then refills.
    pub fn restore(
        system: Identity,
        tip_hash: u128,
        height: u64,
        difficulty: u32,
        average_block_time: u64,
    ) -> (r: ChainState)
        requires
            MIN_DIFFICULTY <= difficulty <= MAX_DIFFICULTY,
        ensures
            r.wf(),
            r.system@ == system@,
            r.tip_hash == tip_hash,
            r.height == height,
            r.difficulty == difficulty,
            r.average_block_time == average_block_time,
            r.candidate is None,
            r.mempool@.len() == 0,
            r.confirmed@ == Map::<Seq<u8>, u64>::empty(),
            r.pending@ == Map::<Seq<u8>, u64>::empty(),
            r.registry@ == Seq::<(Seq<u8>, Seq<u8>)>::empty(),
    {
        let mut r = ChainState::new(system);
        r.tip_hash = tip_hash;
        r.height = height;
        r.difficulty = difficulty;
        r.average_block_time = average_block_time;
        r
    }

    /// Sets the amount reserved for `who` (used when resuming saved state).
    pub fn set_reserved(&mut self, who: &Identity, amount: u64)
        requires
            old(self).wf(),
        ensures
            final(self).wf(),
            final(self).pending@ == old(self).pending@.insert(who@, amount),
            final(self).confirmed == old(self).confirmed,
            final(self).mempool == old(self).mempool,
            final(self).registry == old(self).registry,
            final(self).height == old(self).height,
            final(self).tip_hash == old(self).tip_hash,
            final(self).difficulty == old(self).difficulty,
    {
        self.pending.set(who, amount);
    }

    /// Outcome of admitting `amount` from `sender` to `recipient`.
    pub open spec fn admit_verdict(&self, sender: Seq<u8>, recipient: Seq<u8>, amount: u64) -> Result<
        (),
        AdmitError,
    > {
        if self.confirmed.amount_of(sender) < self.pending.amount_of(sender) + amount {
            Err(AdmitError::InsufficientBalance)
        } else if self.mempool@.len() > TRANSACTION_LIMIT {
            Err(AdmitError::Congested)
        } else if amount == 0 && recipient == self.system@ {
            Err(AdmitError::ZeroWithdrawal)
        } else {
            Ok(())
        }
    }

    /// Admits a transaction into the mempool, reserving its amount against the
    /// sender's confirmed balance.
    pub fn admit_transaction(
        &mut self,
        sender: Identity,
        recipient: Identity,
        amount: u64,
        now: u64,
    ) -> (r: Result<(), AdmitError>)
        requires
            old(self).wf(),
        ensures
            final(self).wf(),
            r == old(self).admit_verdict(sender@, recipient@, amount),
            r is Err ==> *final(self) == *old(self),
            r is Ok ==> {
                &&& final(self).pending@ == old(self).pending@.insert(
                    sender@,
                    (old(self).pending.amount_of(sender@) + amount) as u64,
                )
                &&& txs_view(final(self).mempool@) == txs_view(old(self).mempool@).push(
                    TxView { sender: sender@, recipient: recipient@, amount, timestamp: now },
                )
                &&& final(self).pending.amount_of(sender@) <= final(self).confirmed.amount_of(
                    sender@,
                )
                &&& final(self).confirmed == old(self).confirmed
                &&& final(self).registry == old(self).registry
                &&& final(self).system == old(self).system
                &&& final(self).tip_hash == old(self).tip_hash
                &&& final(self).height == old(self).height
                &&& final(self).difficulty == old(self).difficulty
                &&& final(self).average_block_time == old(self).average_block_time
                &&& final(self).candidate == old(self).candidate
            },
    {
        let reserved = self.pending.get(&sender) as u128 + amount as u128;
        if (self.confirmed.get(&sender) as u128) < reserved {
            return Err(AdmitError::InsufficientBalance);
        }
        if self.mempool.len() > TRANSACTION_LIMIT {
            return Err(AdmitError::Congested);
        }
        if amount == 0 && recipient.same(&self.system) {
            return Err(AdmitError::ZeroWithdrawal);
        }
        self.pending.set(&sender, reserved as u64);
        let ghost m0 = self.mempool@;
        self.mempool.push(Transaction { sender, recipient, amount, timestamp: now });
        assert(txs_view(self.mempool@) =~= txs_view(m0).push(self.mempool@.last()@));
        Ok(())
    }

    /// Outcome of validating a block with header `h` from `submitter`, given
    /// the block's recomputed digest.
    pub open spec fn solution_verdict(&self, submitter: Seq<u8>, h: BlockHeader, d: u128) -> Result<
        (),
        SolutionError,
    > {
        if !is_registered(self.registry@, submitter) {
            Err(SolutionError::UnregisteredWorker)
        } else if h.height != self.height + 1 {
            Err(SolutionError::HeightMismatch)
        } else if h.prev_hash != self.tip_hash {
            Err(SolutionError::StaleReference)
        } else if !meets_difficulty(d, self.difficulty) {
            Err(SolutionError::InvalidSolution)
        } else {
            Ok(())
        }
    }

    /// The validation rules, applied to a block whose digest is `d`.
    pub fn check_solution(&self, submitter: &Identity, header: &BlockHeader, d: u128) -> (r: Result<
        (),
        SolutionError,
    >)
        requires
            self.wf(),
        ensures
            r == self.solution_verdict(submitter@, *header, d),
    {
        if !self.registry.contains(submitter) {
            return Err(SolutionError::UnregisteredWorker);
        }
        if self.height == u64::MAX || header.height != self.height + 1 {
            return Err(SolutionError::HeightMismatch);
        }
        if header.prev_hash != self.tip_hash {
            return Err(SolutionError::StaleReference);
        }
        if !check_difficulty(d, self.difficulty) {
            return Err(SolutionError::InvalidSolution);
        }
        Ok(())
    }

    /// Validates a block submitted by `submitter`, recomputing its digest.
    /// Whatever the header and nonce, a digest with fewer leading zero bits
    /// than the current difficulty is rejected.
    pub fn validate_solution(&self, submitter: &Identity, block: &Block) -> (r: Result<
        (),
        SolutionError,
    >)
        requires
            self.wf(),
        ensures
            r == self.solution_verdict(submitter@, block.header, digest(block.header, block.nonce)),
            !meets_difficulty(digest(block.header, block.nonce), self.difficulty) ==> r is Err,
    {
        let d = block_digest(&block.header, block.nonce);
        self.check_solution(submitter, &block.header, d)
    }

    /// The effects of accepting `block` from `submitter`, with digest `d`,
    /// solved in `solve_time` nanoseconds, that lead from `self` to `post`.
    pub open spec fn accepted(
        &self,
        post: ChainState,
        submitter: Seq<u8>,
        block: Block,
        d: u128,
        solve_time: u64,
    ) -> bool {
        let txs = txs_view(block.transactions@);
        let settled = settle_all(self.confirmed@, txs, self.system@);
        let owner = owner_in(self.registry@, submitter);
        &&& block.header.prev_hash == self.tip_hash
        &&& post.height == block.header.height
        &&& post.height == self.height + 1
        &&& post.tip_hash == d
        &&& post.difficulty == retarget_spec(self.difficulty, solve_time)
        &&& post.average_block_time == next_average(
            self.average_block_time,
            post.height,
            solve_time,
        )
        &&& post.candidate is None
        &&& txs_view(post.mempool@) == remove_all(txs_view(self.mempool@), txs)
        &&& post.pending@ == release_all(self.pending@, txs)
        &&& post.confirmed@ == settled.insert(
            owner,
            sat_add(amount_in(settled, owner), reward_spec(post.height) as u64),
        )
        &&& post.registry == self.registry
        &&& post.system == self.system
    }

    /// Accepts a block from `submitter` whose recomputed digest is `d`, if it
    /// passes validation: settles the block's transactions, rewards the
    /// submitter's owner, updates the mean solve time, advances the tip to `d`
    /// and retargets. Returns the withdrawals the external ledger must pay out.
    /// A rejected block leaves the state as it was.
    pub fn apply_solution(
        &mut self,
        submitter: &Identity,
        block: &Block,
        d: u128,
        solve_time: u64,
    ) -> (r: Result<Vec<Withdrawal>, SolutionError>)
        requires
            old(self).wf(),
        ensures
            final(self).wf(),
            old(self).solution_verdict(submitter@, block.header, d) matches Err(e) ==> (r
                == Err::<Vec<Withdrawal>, SolutionError>(e) && *final(self) == *old(self)),
            old(self).solution_verdict(submitter@, block.header, d) is Ok ==> r is Ok && old(
                self,
            ).accepted(*final(self), submitter@, *block, d, solve_time),
            r matches Ok(w) ==> withdrawals_view(w@) == withdrawals_of(
                txs_view(block.transactions@),
                old(self).system@,
            ),
    {
        match self.check_solution(submitter, &block.header, d) {
            Err(e) => {
                return Err(e);
            },
            Ok(()) => {},
        }
        let h = block.header.height;
        let avg = self.average_block_time;
        let prev = (h - 1) as u128;
        assert(avg as u128 * prev + solve_time as u128 <= u64::MAX as u128 * h as u128)
            by (nonlinear_arith)
            requires
                avg <= u64::MAX,
                solve_time <= u64::MAX,
                prev == h - 1,
                h >= 1,
                h <= u64::MAX,
        ;
        let total = avg as u128 * prev + solve_time as u128;
        let mean = total / (h as u128);
        assert(mean <= u64::MAX) by (nonlinear_arith)
            requires
                total <= u64::MAX as u128 * h as u128,
                mean == total / (h as u128),
                h >= 1,
        ;
        self.average_block_time = mean as u64;
        self.height = h;
        self.tip_hash = d;
        self.candidate = None;
        remove_included(&mut self.mempool, &block.transactions);
        release_reservations(&mut self.pending, &block.transactions);
        let out = settle_transactions(&mut self.confirmed, &block.transactions, &self.system);
        match self.registry.owner_of(submitter) {
            Some(owner) => {
                let reward = block_reward(self.height);
                self.confirmed.credit(&owner, reward);
            },
            None => {},
        }
        proof {
            crate::difficulty::lemma_retarget_bounded(self.difficulty, solve_time);
        }
        self.difficulty = retarget(self.difficulty, solve_time);
        Ok(out)
    }

    /// Validates and accepts a block submitted by `submitter`, recomputing its
    /// digest; see `apply_solution`.
    pub fn accept_solution(&mut self, submitter: &Identity, block: &Block, solve_time: u64) -> (r:
        Result<Vec<Withdrawal>, SolutionError>)
        requires
            old(self).wf(),
        ensures
            final(self).wf(),
            old(self).solution_verdict(
                submitter@,
                block.header,
                digest(block.header, block.nonce),
            ) matches Err(e) ==> (r == Err::<Vec<Withdrawal>, SolutionError>(e) && *final(self)
                == *old(self)),
            old(self).solution_verdict(
                submitter@,
                block.header,
                digest(block.header, block.nonce),
            ) is Ok ==> r is Ok && old(self).accepted(
                *final(self),
                submitter@,
                *block,
                digest(block.header, block.nonce),
                solve_time,
            ),
            r matches Ok(w) ==> withdrawals_view(w@) == withdrawals_of(
                txs_view(block.transactions@),
                old(self).system@,
            ),
    {
        let d = block_digest(&block.header, block.nonce);
        self.apply_solution(submitter, block, d, solve_time)
    }

    /// Whatever the header and nonce, a block whose digest has fewer leading
    /// zero bits than the current difficulty is rejected.
    pub proof fn lemma_low_work_rejected(&self, submitter: Seq<u8>, h: BlockHeader, nonce: u64)
        requires
            leading_zero_bits(digest(h, nonce)) < self.difficulty,
        ensures
            self.solution_verdict(submitter, h, digest(h, nonce)) is Err,
    {
    }

    /// Once a block has been accepted, any other block for the same height,
    /// from any registered worker and whatever its digest, loses the race: it
    /// is rejected for its height.
    pub proof fn lemma_same_height_loses(
        &self,
        post: ChainState,
        winner: Seq<u8>,
        block: Block,
        d: u128,
        solve_time: u64,
        other: Seq<u8>,
        h: BlockHeader,
        d2: u128,
    )
        requires
            self.accepted(post, winner, block, d, solve_time),
            h.height == block.header.height,
            is_registered(post.registry@, other),
        ensures
            post.solution_verdict(other, h, d2) == Err::<(), SolutionError>(
                SolutionError::HeightMismatch,
            ),
    {
    }

    /// The candidate that a round started at time `now` proposes.
    pub open spec fn candidate_header(&self, now: u64) -> BlockHeader {
        BlockHeader {
            version: BLOCK_VERSION,
            prev_hash: self.tip_hash,
            merkle_root: transactions_root_spec(txs_view(self.mempool@)),
            timestamp: now,
            difficulty: self.difficulty,
            height: (self.height + 1) as u64,
        }
    }

    /// Starts a round at time `now`. With an empty mempool nothing changes and
    /// the round is to be retried later; otherwise a candidate carrying the whole
    /// mempool, built on the tip, is stored and returned for distribution.
    pub fn start_round(&mut self, now: u64) -> (r: RoundStart)
        requires
            old(self).wf(),
            old(self).mempool@.len() == 0 || old(self).height < u64::MAX,
        ensures
            final(self).wf(),
            old(self).mempool@.len() == 0 ==> r == RoundStart::Retry(EMPTY_MEMPOOL_RETRY_SECS)
                && *final(self) == *old(self),
            old(self).mempool@.len() > 0 ==> (r matches RoundStart::Distribute(b) && {
                &&& b.header == old(self).candidate_header(now)
                &&& b.nonce == 0
                &&& b.hash == 0
                &&& txs_view(b.transactions@) == txs_view(old(self).mempool@)
                &&& (final(self).candidate matches Some(c) && c.header == b.header
                    && txs_view(c.transactions@) == txs_view(b.transactions@))
            }),
            old(self).mempool@.len() > 0 ==> {
                &&& final(self).mempool == old(self).mempool
                &&& final(self).confirmed == old(self).confirmed
                &&& final(self).pending == old(self).pending
                &&& final(self).registry == old(self).registry
                &&& final(self).system == old(self).system
                &&& final(self).tip_hash == old(self).tip_hash
                &&& final(self).height == old(self).height
                &&& final(self).difficulty == old(self).difficulty
                &&& final(self).average_block_time == old(self).average_block_time
            },
    {
        if self.mempool.len() == 0 {
            return RoundStart::Retry(EMPTY_MEMPOOL_RETRY_SECS);
        }
        let transactions = copy_transactions(&self.mempool);
        let header = BlockHeader {
            version: BLOCK_VERSION,
            prev_hash: self.tip_hash,
            merkle_root: transactions_root(&self.mempool),
            timestamp: now,
            difficulty: self.difficulty,
            height: self.height + 1,
        };
        let block = Block { header, nonce: 0, hash: 0, transactions };
        self.candidate = Some(block.copy());
        RoundStart::Distribute(block)
    }

    /// Finalises a withdrawal once its payout went through: debits the payee's
    /// confirmed balance, stopping at zero.
    pub fn settle_withdrawal(&mut self, w: &Withdrawal)
        requires
            old(self).wf(),
        ensures
            final(self).wf(),
            final(self).confirmed@ == old(self).confirmed@.insert(
                w.recipient@,
                sat_sub(old(self).confirmed.amount_of(w.recipient@), w.amount),
            ),
            final(self).pending == old(self).pending,
            final(self).mempool == old(self).mempool,
            final(self).registry == old(self).registry,
            final(self).height == old(self).height,
            final(self).tip_hash == old(self).tip_hash,
            final(self).difficulty == old(self).difficulty,
    {
        self.confirmed.debit(&w.recipient, w.amount);
    }

    /// Credits `amount` to `who`'s confirmed balance (a top-up from the
    /// external ledger), saturating at `u64::MAX`.
    pub fn deposit(&mut self, who: &Identity, amount: u64)
        requires
            old(self).wf(),
        ensures
            final(self).wf(),
            final(self).confirmed@ == old(self).confirmed@.insert(
                who@,
                sat_add(old(self).confirmed.amount_of(who@), amount),
            ),
            final(self).pending == old(self).pending,
            final(self).mempool == old(self).mempool,
            final(self).registry == old(self).registry,
            final(self).height == old(self).height,
            final(self).tip_hash == old(self).tip_hash,
            final(self).difficulty == old(self).difficulty,
    {
        self.confirmed.credit(who, amount);
    }

    /// Records a newly provisioned `worker` as belonging to `owner`.
    pub fn register_worker(&mut self, worker: Identity, owner: Identity)
        requires
            old(self).wf(),
        ensures
            final(self).wf(),
            final(self).registry@ == old(self).registry@.push((worker@, owner@)),
            final(self).confirmed == old(self).confirmed,
            final(self).pending == old(self).pending,
            final(self).mempool == old(self).mempool,
            final(self).height == old(self).height,
            final(self).tip_hash == old(self).tip_hash,
            final(self).difficulty == old(self).difficulty,
    {
        self.registry.register(worker, owner);
    }

    /// Confirmed balance of `who`.
    pub fn balance_of(&self, who: &Identity) -> (r: u64)
        requires
            self.wf(),
        ensures
            r == self.confirmed.amount_of(who@),
    {
        self.confirmed.get(who)
    }

    /// Amount of `who`'s balance reserved by transactions not yet settled.
    pub fn pending_of(&self, who: &Identity) -> (r: u64)
        requires
            self.wf(),
        ensures
            r == self.pending.amount_of(who@),
    {
        self.pending.get(who)
    }

    /// Reward at the current mined-block count, the tip's height; the block
    /// that is accepted next is credited the reward at its own height.
    pub fn current_reward(&self) -> (r: u64)
        ensures
            r == reward_spec(self.height),
    {
        block_reward(self.height)
    }

    /// Blocks left before the reward next halves.
    pub fn next_halving(&self) -> (r: u64)
        ensures
            r == crate::difficulty::BLOCK_HALVING - self.height % crate::difficulty::BLOCK_HALVING,
    {
        crate::difficulty::blocks_to_next_halving(self.height)
    }
}

} // verus!
