//! Chain state: block admission, cumulative work, fork detection and
//! reorganization.
use crate::codec::{decoded, read_u64, write_u64};
use crate::hashing::{hash_eq, le64, push_hash, zero_hash};
use crate::store::{apply_one, apply_txs, block_map, undo_one, BlockchainDB, DbView, MetaKey};
use crate::types::{Block, Transaction, TxInput, TxOutput};
use crate::work::{block_difficulty, block_work, calculate_block_work, difficulty_of_block};
use crate::laws::{
    lemma_admission_keeps_tip, lemma_admission_keeps_work_consistent,
    lemma_admission_keeps_work_entries,
};
use vstd::prelude::*;

verus! {

/// The most blocks one reorganization may disconnect.
pub const MAX_REORG_DEPTH: u64 = 100;

/// The farthest a non-contiguous candidate may lie from a known ancestor.
/// The store can only show a candidate at distance 0 (its parent is stored)
/// or with no reachable ancestor at all, so it is the unreachable parent
/// that declines a block; a stored parent is always within this bound.
pub const MAX_FORK_DISTANCE: u64 = 6;

/// How long, in seconds, a fork point is kept after its block's timestamp.
pub const FORK_RETENTION_SECS: u64 = 86400;

#[derive(Clone, Copy, Debug, PartialEq, Eq, Structural)]
pub enum StorageError {
    /// The block failed the structural, double-spend or output-existence checks.
    InvalidBlock,
    /// A persisted record could not be decoded.
    Serialization,
    /// The candidate and the current chain have no common ancestor.
    InvalidChainReorganization,
    /// An ancestor expected in the store is missing.
    BlockNotFound,
}

/// A summary of one reorganization, for observers.
#[derive(Clone, Copy, Debug, PartialEq, Eq)]
pub struct ReorganizationEvent {
    pub old_tip: [u8; 32],
    pub new_tip: [u8; 32],
    pub fork_point: [u8; 32],
    pub blocks_disconnected: u64,
    pub blocks_connected: u64,
    pub timestamp: u64,
}

/// An entry of the chain-work table.
#[derive(Clone, Copy, Debug, PartialEq, Eq)]
pub struct WorkEntry {
    pub hash: [u8; 32],
    pub work: u128,
}

/// The chain-work table as a map; a later entry for a hash overrides.
pub open spec fn work_map(s: Seq<WorkEntry>) -> Map<Seq<u8>, u128>
    decreases s.len(),
{
    if s.len() == 0 {
        Map::empty()
    } else {
        work_map(s.drop_last()).insert(s.last().hash@, s.last().work)
    }
}

pub open spec fn hash_views(s: Seq<[u8; 32]>) -> Seq<Seq<u8>> {
    s.map_values(|h: [u8; 32]| h@)
}

/// `x` cut down to the largest `u128`.
pub open spec fn capped(x: int) -> u128 {
    if x > u128::MAX {
        u128::MAX
    } else if x < 0 {
        0
    } else {
        x as u128
    }
}

pub open spec fn zero_hash_spec() -> Seq<u8> {
    Seq::new(32, |i: int| 0u8)
}

/// Whether `b` names a parent and that parent is stored.
pub open spec fn has_parent(m: Map<Seq<u8>, Block>, b: Block) -> bool {
    b.prev_hash@ != zero_hash_spec() && m.contains_key(b.prev_hash@)
}

/// The work of `b` and its ancestors, following parent links through `m`
/// for at most `n` lookups. A chain starts at a block whose parent is the
/// all-zero hash, which names no block. `None` where an ancestor is missing
/// or the lookups run out.
pub open spec fn walk_work(m: Map<Seq<u8>, Block>, b: Block, n: nat) -> Option<int>
    decreases n,
{
    if b.prev_hash@ == zero_hash_spec() {
        Some(block_work(b.target) as int)
    } else if !m.contains_key(b.prev_hash@) || n == 0 {
        None
    } else {
        match walk_work(m, m[b.prev_hash@], (n - 1) as nat) {
            Some(w) => Some(w + block_work(b.target)),
            None => None,
        }
    }
}

/// The cumulative work of the chain ending at `b`: the sum of the work of
/// `b` and of each stored ancestor back to the block that starts the chain.
/// `None` where an ancestor is missing. A walk of distinct stored blocks
/// needs no more lookups than there are stored blocks; a longer one could
/// only go round a cycle of hashes, and fails too.
pub open spec fn cum_work(blocks: Seq<Block>, b: Block) -> Option<int> {
    walk_work(block_map(blocks), b, blocks.len())
}

/// All the inputs of a sequence of transactions, in order.
pub open spec fn block_inputs(txs: Seq<Transaction>) -> Seq<TxInput>
    decreases txs.len(),
{
    if txs.len() == 0 {
        Seq::empty()
    } else {
        block_inputs(txs.drop_last()) + txs.last().inputs@
    }
}

pub open spec fn outpoint(i: TxInput) -> (Seq<u8>, u32) {
    (i.prev_tx_hash@, i.prev_output_index)
}

/// No two inputs spend the same output.
pub open spec fn no_double_spend(ins: Seq<TxInput>) -> bool {
    forall|i: int, j: int|
        0 <= i < j < ins.len() ==> outpoint(#[trigger] ins[i]) != outpoint(#[trigger] ins[j])
}

/// Every input spends an output of the unspent set.
pub open spec fn all_unspent(u: Map<(Seq<u8>, u32), TxOutput>, ins: Seq<TxInput>) -> bool {
    forall|i: int| 0 <= i < ins.len() ==> u.contains_key(outpoint(#[trigger] ins[i]))
}

/// The total difficulty persisted in `meta`, zero where absent or unreadable.
pub open spec fn total_difficulty_of(meta: Map<MetaKey, Seq<u8>>) -> u64 {
    if meta.contains_key(MetaKey::TotalDifficulty) {
        match decoded(meta[MetaKey::TotalDifficulty]) {
            Some(v) => v,
            None => 0,
        }
    } else {
        0
    }
}

/// The outcome of walking a candidate chain and the current chain back to
/// their common block: the fork point, the candidate's blocks above it and
/// the current chain's blocks above it, each listed tip first.
pub struct ForkWalk {
    pub fork_point: Seq<u8>,
    pub apply: Seq<Block>,
    pub disconnect: Seq<Block>,
}

/// Whether the walk may step from `b` to its parent.
pub open spec fn can_step(m: Map<Seq<u8>, Block>, b: Block) -> bool {
    has_parent(m, b)
}

/// Why the walk cannot step from `b`: a block starting a chain has no
/// parent, so the two chains share no ancestor; otherwise the parent is
/// missing.
pub open spec fn step_error(b: Block) -> StorageError {
    if b.prev_hash@ == zero_hash_spec() {
        StorageError::InvalidChainReorganization
    } else {
        StorageError::BlockNotFound
    }
}

/// Walks back from `cur` (candidate side) and `main` (current side), each
/// time stepping the taller one, or both at equal heights, until they meet,
/// for at most `n` steps. Reaching height 0 on either side, or running out
/// of steps, means the chains share no ancestor.
pub open spec fn fork_walk(m: Map<Seq<u8>, Block>, cur: Block, main: Block, n: nat) -> Result<
    ForkWalk,
    StorageError,
>
    decreases n,
{
    if cur.height == 0 || main.height == 0 || n == 0 {
        Err(StorageError::InvalidChainReorganization)
    } else if cur.hash@ == main.hash@ {
        Ok(ForkWalk { fork_point: cur.hash@, apply: Seq::empty(), disconnect: Seq::empty() })
    } else if cur.height > main.height {
        if !can_step(m, cur) {
            Err(step_error(cur))
        } else {
            match fork_walk(m, m[cur.prev_hash@], main, (n - 1) as nat) {
                Ok(w) => Ok(
                    ForkWalk {
                        fork_point: w.fork_point,
                        apply: seq![cur] + w.apply,
                        disconnect: w.disconnect,
                    },
                ),
                Err(e) => Err(e),
            }
        }
    } else if main.height > cur.height {
        if !can_step(m, main) {
            Err(step_error(main))
        } else {
            match fork_walk(m, cur, m[main.prev_hash@], (n - 1) as nat) {
                Ok(w) => Ok(
                    ForkWalk {
                        fork_point: w.fork_point,
                        apply: w.apply,
                        disconnect: seq![main] + w.disconnect,
                    },
                ),
                Err(e) => Err(e),
            }
        }
    } else if !can_step(m, cur) {
        Err(step_error(cur))
    } else if !can_step(m, main) {
        Err(step_error(main))
    } else {
        match fork_walk(m, m[cur.prev_hash@], m[main.prev_hash@], (n - 1) as nat) {
            Ok(w) => Ok(
                ForkWalk {
                    fork_point: w.fork_point,
                    apply: seq![cur] + w.apply,
                    disconnect: seq![main] + w.disconnect,
                },
            ),
            Err(e) => Err(e),
        }
    }
}

pub open spec fn prepend(r: Result<ForkWalk, StorageError>, a: Seq<Block>, d: Seq<Block>) -> Result<
    ForkWalk,
    StorageError,
> {
    match r {
        Ok(w) => Ok(
            ForkWalk { fork_point: w.fork_point, apply: a + w.apply, disconnect: d + w.disconnect },
        ),
        Err(e) => Err(e),
    }
}

pub open spec fn block_hashes(s: Seq<Block>) -> Seq<Seq<u8>> {
    s.map_values(|b: Block| b.hash@)
}

/// A reorganization plan as hashes: the fork point, the blocks to connect
/// and the blocks to disconnect, each listed tip first.
pub struct ReorgPlan {
    pub fork_point: [u8; 32],
    pub to_apply: Vec<[u8; 32]>,
    pub to_disconnect: Vec<[u8; 32]>,
}

pub open spec fn plan_matches(p: ReorgPlan, w: ForkWalk) -> bool {
    &&& p.fork_point@ == w.fork_point
    &&& hash_views(p.to_apply@) == block_hashes(w.apply)
    &&& hash_views(p.to_disconnect@) == block_hashes(w.disconnect)
}

pub open spec fn sat_add64(a: u64, b: u64) -> u64 {
    if a + b > u64::MAX {
        u64::MAX
    } else {
        (a + b) as u64
    }
}

pub open spec fn sat_sub64(a: u64, b: u64) -> u64 {
    if a >= b {
        (a - b) as u64
    } else {
        0
    }
}

/// The total-difficulty contribution of the stored block with hash `h`.
pub open spec fn diff_of(h: Seq<u8>, blocks: Seq<Block>) -> u64 {
    if block_map(blocks).contains_key(h) {
        block_difficulty(block_map(blocks)[h].target)
    } else {
        0
    }
}

/// Undoing the blocks with hashes `hs`, in the order listed.
pub open spec fn undo_hashes(
    u: Map<(Seq<u8>, u32), TxOutput>,
    hs: Seq<Seq<u8>>,
    blocks: Seq<Block>,
) -> Map<(Seq<u8>, u32), TxOutput>
    decreases hs.len(),
{
    if hs.len() == 0 {
        u
    } else {
        undo_hashes(undo_one(u, hs[0], blocks), hs.drop_first(), blocks)
    }
}

/// Connecting the blocks with hashes `hs`, last listed first.
pub open spec fn apply_hashes(
    u: Map<(Seq<u8>, u32), TxOutput>,
    hs: Seq<Seq<u8>>,
    blocks: Seq<Block>,
) -> Map<(Seq<u8>, u32), TxOutput>
    decreases hs.len(),
{
    if hs.len() == 0 {
        u
    } else {
        apply_hashes(apply_one(u, hs.last(), blocks), hs.drop_last(), blocks)
    }
}

/// Total difficulty after taking off each listed block's contribution.
pub open spec fn td_undo(td: u64, hs: Seq<Seq<u8>>, blocks: Seq<Block>) -> u64
    decreases hs.len(),
{
    if hs.len() == 0 {
        td
    } else {
        td_undo(sat_sub64(td, diff_of(hs[0], blocks)), hs.drop_first(), blocks)
    }
}

/// Total difficulty after adding each listed block's contribution.
pub open spec fn td_apply(td: u64, hs: Seq<Seq<u8>>, blocks: Seq<Block>) -> u64
    decreases hs.len(),
{
    if hs.len() == 0 {
        td
    } else {
        td_apply(sat_add64(td, diff_of(hs.last(), blocks)), hs.drop_last(), blocks)
    }
}

/// Records the cumulative work of the stored block with hash `h`, where it
/// can be computed.
pub open spec fn record_one(w: Map<Seq<u8>, u128>, h: Seq<u8>, blocks: Seq<Block>) -> Map<
    Seq<u8>,
    u128,
> {
    if block_map(blocks).contains_key(h) {
        match cum_work(blocks, block_map(blocks)[h]) {
            Some(x) => w.insert(h, capped(x)),
            None => w,
        }
    } else {
        w
    }
}

/// Records the cumulative work of each listed block, last listed first.
pub open spec fn record_work(w: Map<Seq<u8>, u128>, hs: Seq<Seq<u8>>, blocks: Seq<Block>) -> Map<
    Seq<u8>,
    u128,
>
    decreases hs.len(),
{
    if hs.len() == 0 {
        w
    } else {
        record_work(record_one(w, hs.last(), blocks), hs.drop_last(), blocks)
    }
}

/// The fork points whose block is stored and is younger than the retention
/// window at time `now`.
pub open spec fn retained(forks: Seq<Seq<u8>>, m: Map<Seq<u8>, Block>, now: u64) -> Seq<Seq<u8>>
    decreases forks.len(),
{
    if forks.len() == 0 {
        forks
    } else {
        let r = retained(forks.drop_last(), m, now);
        let h = forks.last();
        if m.contains_key(h) && sat_sub64(now, m[h].timestamp) < FORK_RETENTION_SECS {
            r.push(h)
        } else {
            r
        }
    }
}

/// The fork points with `h` added, if it is not there yet.
pub open spec fn add_fork(forks: Seq<Seq<u8>>, h: Seq<u8>) -> Seq<Seq<u8>> {
    if forks.contains(h) {
        forks
    } else {
        forks.push(h)
    }
}

/// The block reached from the block with hash `h` by following `steps`
/// parent links through `m`.
pub open spec fn ancestor_at(m: Map<Seq<u8>, Block>, h: Seq<u8>, steps: nat) -> Option<Block>
    decreases steps,
{
    if !m.contains_key(h) {
        None
    } else if steps == 0 {
        Some(m[h])
    } else {
        ancestor_at(m, m[h].prev_hash@, (steps - 1) as nat)
    }
}

/// Every entry of the chain-work table is the capped cumulative work of a
/// stored block whose whole ancestry is stored.
pub open spec fn work_consistent_with(w: Map<Seq<u8>, u128>, blocks: Seq<Block>) -> bool {
    forall|h: Seq<u8>|
        #[trigger] w.contains_key(h) ==> {
            &&& block_map(blocks).contains_key(h)
            &&& cum_work(blocks, block_map(blocks)[h]) is Some
            &&& w[h] == capped(cum_work(blocks, block_map(blocks)[h])->Some_0)
        }
}

/// What a chain state holds.
pub struct ChainView {
    pub db: DbView,
    pub height: u64,
    pub best: [u8; 32],
    pub work: Map<Seq<u8>, u128>,
    pub forks: Seq<Seq<u8>>,
    pub last_reorg_time: u64,
    pub reorg_count: u64,
    pub last_event: Option<ReorganizationEvent>,
}

impl ChainView {
    pub open spec fn blocks(self) -> Map<Seq<u8>, Block> {
        block_map(self.db.blocks)
    }

    pub open spec fn total_difficulty(self) -> u64 {
        total_difficulty_of(self.db.meta)
    }

    /// A block that is not a plain extension of the tip must have a stored
    /// parent: the distance to its nearest known ancestor is then zero, well
    /// within `MAX_FORK_DISTANCE`; without one no ancestor can be reached,
    /// and the block is declined.
    pub open spec fn within_fork_distance(self, b: Block) -> bool {
        (b.height == self.height + 1 || b.prev_hash@ == self.best@) || self.db.has_block(
            b.prev_hash@,
        )
    }

    /// The transaction checks of the ingestion gate.
    pub open spec fn transactions_valid(self, b: Block) -> bool {
        &&& no_double_spend(block_inputs(b.transactions@))
        &&& all_unspent(self.db.utxos, block_inputs(b.transactions@))
    }

    /// The tip is a stored block and the height is that block's height.
    pub open spec fn tip_consistent(self) -> bool {
        self.db.has_block(self.best@) && self.blocks()[self.best@].height == self.height
    }

    /// No two stored blocks share a hash.
    pub open spec fn hashes_unique(self) -> bool {
        forall|i: int, j: int|
            0 <= i < j < self.db.blocks.len() ==> (#[trigger] self.db.blocks[i]).hash@
                != (#[trigger] self.db.blocks[j]).hash@
    }

    /// The chain-work table agrees with the stored blocks.
    pub open spec fn work_consistent(self) -> bool {
        work_consistent_with(self.work, self.db.blocks)
    }

    /// The cumulative work of the current best block, from walking its
    /// ancestry: zero where no best block is stored yet, `None` where its
    /// ancestry is incomplete.
    pub open spec fn tip_work(self) -> Option<u128> {
        if self.db.has_block(self.best@) {
            match cum_work(self.db.blocks, self.blocks()[self.best@]) {
                Some(w) => Some(capped(w)),
                None => None,
            }
        } else {
            Some(0)
        }
    }

    /// The state after `b`, whose cumulative work is `w`, is stored as a
    /// plain extension of the tip: its work is recorded and added to the
    /// total difficulty, and where it is higher than the tip it becomes the
    /// tip and its transactions are connected.
    pub open spec fn extended(self, b: Block, w: u128) -> ChainView {
        let adv = b.height > self.height;
        let meta = self.db.meta.insert(
            MetaKey::TotalDifficulty,
            le64(sat_add64(self.total_difficulty(), block_difficulty(b.target))),
        );
        ChainView {
            db: DbView {
                blocks: self.db.blocks.push(b),
                utxos: if adv {
                    apply_txs(self.db.utxos, b.transactions@)
                } else {
                    self.db.utxos
                },
                meta: if adv {
                    meta.insert(MetaKey::Height, le64(b.height)).insert(MetaKey::BestHash, b.hash@)
                } else {
                    meta
                },
            },
            height: if adv {
                b.height
            } else {
                self.height
            },
            best: if adv {
                b.hash
            } else {
                self.best
            },
            work: self.work.insert(b.hash@, w),
            ..self
        }
    }

    /// The state after `b`, whose cumulative work is `w`, is stored on a
    /// side branch: its parent becomes a fork point, nothing else moves.
    pub open spec fn side_stored(self, b: Block, w: u128) -> ChainView {
        ChainView {
            db: DbView { blocks: self.db.blocks.push(b), ..self.db },
            work: self.work.insert(b.hash@, w),
            forks: add_fork(self.forks, b.prev_hash@),
            ..self
        }
    }

    /// The state after a reorganization to `b`: the blocks with hashes `d`
    /// are disconnected in order, then those with hashes `a` are connected
    /// last listed first, and `b` becomes the tip.
    pub open spec fn reorganized(
        self,
        b: Block,
        fork_point: [u8; 32],
        d: Seq<Seq<u8>>,
        a: Seq<Seq<u8>>,
        now: u64,
    ) -> ChainView {
        let blocks = self.db.blocks.push(b);
        let td = td_apply(td_undo(self.total_difficulty(), d, blocks), a, blocks);
        ChainView {
            db: DbView {
                blocks,
                utxos: apply_hashes(undo_hashes(self.db.utxos, d, blocks), a, blocks),
                meta: self.db.meta.insert(MetaKey::TotalDifficulty, le64(td)).insert(
                    MetaKey::Height,
                    le64(b.height),
                ).insert(MetaKey::BestHash, b.hash@),
            },
            height: b.height,
            best: b.hash,
            work: record_work(self.work, a, blocks),
            forks: retained(self.forks, block_map(blocks), now),
            last_reorg_time: now,
            reorg_count: if self.reorg_count < u64::MAX {
                (self.reorg_count + 1) as u64
            } else {
                u64::MAX
            },
            last_event: Some(
                ReorganizationEvent {
                    old_tip: self.best,
                    new_tip: b.hash,
                    fork_point,
                    blocks_disconnected: d.len() as u64,
                    blocks_connected: a.len() as u64,
                    timestamp: now,
                },
            ),
        }
    }

    /// Steps allowed to the fork walk: each side passes each stored block at
    /// most once on a walk that meets.
    pub open spec fn walk_fuel(self) -> nat {
        2 * self.db.blocks.len() + 2
    }

    /// The fork walk from a candidate tip against the current best block.
    pub open spec fn fork_plan(self, tip: Block) -> Result<ForkWalk, StorageError> {
        if self.db.has_block(self.best@) {
            fork_walk(self.blocks(), tip, self.blocks()[self.best@], self.walk_fuel())
        } else {
            Err(StorageError::BlockNotFound)
        }
    }

    /// The whole ingestion gate.
    pub open spec fn admissible(self, b: Block) -> bool {
        &&& b.well_formed()
        &&& self.within_fork_distance(b)
        &&& self.transactions_valid(b)
    }
}

pub struct ChainState {
    db: BlockchainDB,
    current_height: u64,
    best_block_hash: [u8; 32],
    chain_work: Vec<WorkEntry>,
    fork_points: Vec<[u8; 32]>,
    last_reorg_time: u64,
    reorg_count: u64,
    last_event: Option<ReorganizationEvent>,
}

impl View for ChainState {
    type V = ChainView;

    closed spec fn view(&self) -> ChainView {
        ChainView {
            db: self.db@,
            height: self.current_height,
            best: self.best_block_hash,
            work: work_map(self.chain_work@),
            forks: hash_views(self.fork_points@),
            last_reorg_time: self.last_reorg_time,
            reorg_count: self.reorg_count,
            last_event: self.last_event,
        }
    }
}

impl ChainState {
    /// Resumes from the persisted height and best hash, or starts at height
    /// zero and the all-zero hash where they are absent.
    pub fn new(db: BlockchainDB, now: u64) -> (r: Result<ChainState, StorageError>)
        ensures
            r is Err <==> (db@.meta.contains_key(MetaKey::Height) && decoded(
                db@.meta[MetaKey::Height],
            ) is None) || (db@.meta.contains_key(MetaKey::BestHash)
                && db@.meta[MetaKey::BestHash].len() != 32),
            r matches Err(e) ==> e == StorageError::Serialization,
            r matches Ok(c) ==> {
                &&& c@.db == db@
                &&& c@.height == (if db@.meta.contains_key(MetaKey::Height) {
                    decoded(db@.meta[MetaKey::Height])->Some_0
                } else {
                    0
                })
                &&& c@.best@ == (if db@.meta.contains_key(MetaKey::BestHash) {
                    db@.meta[MetaKey::BestHash]
                } else {
                    zero_hash_spec()
                })
                &&& c@.work == Map::<Seq<u8>, u128>::empty()
                &&& c@.work_consistent()
                &&& c@.forks.len() == 0
                &&& c@.last_reorg_time == now
                &&& c@.reorg_count == 0
                &&& c@.last_event is None
            },
    {
        let current_height: u64 = match db.get_metadata(MetaKey::Height) {
            Some(bytes) => match read_u64(bytes.as_slice()) {
                Some(h) => h,
                None => {
                    return Err(StorageError::Serialization);
                },
            },
            None => 0,
        };
        let best_block_hash: [u8; 32] = match db.get_metadata(MetaKey::BestHash) {
            Some(bytes) => match hash_from_bytes(bytes) {
                Some(h) => h,
                None => {
                    return Err(StorageError::Serialization);
                },
            },
            None => zero_hash(),
        };
        let r = ChainState {
            db,
            current_height,
            best_block_hash,
            chain_work: Vec::new(),
            fork_points: Vec::new(),
            last_reorg_time: now,
            reorg_count: 0,
            last_event: None,
        };
        assert(r@.work =~= Map::<Seq<u8>, u128>::empty());
        Ok(r)
    }

    pub fn get_height(&self) -> (r: u64)
        ensures
            r == self@.height,
    {
        self.current_height
    }

    pub fn get_best_block_hash(&self) -> (r: [u8; 32])
        ensures
            r == self@.best,
    {
        self.best_block_hash
    }

    /// The persisted genesis hash, or the all-zero hash where it is absent
    /// or not 32 bytes long.
    pub fn get_genesis_hash(&self) -> (r: [u8; 32])
        ensures
            r@ == (if self@.db.meta.contains_key(MetaKey::GenesisHash)
                && self@.db.meta[MetaKey::GenesisHash].len() == 32 {
                self@.db.meta[MetaKey::GenesisHash]
            } else {
                zero_hash_spec()
            }),
    {
        if let Some(bytes) = self.db.get_metadata(MetaKey::GenesisHash) {
            if let Some(h) = hash_from_bytes(bytes) {
                return h;
            }
        }
        zero_hash()
    }

    /// The persisted total difficulty, zero where absent or unreadable.
    pub fn get_total_difficulty(&self) -> (r: u64)
        ensures
            r == self@.total_difficulty(),
    {
        if let Some(bytes) = self.db.get_metadata(MetaKey::TotalDifficulty) {
            if let Some(v) = read_u64(bytes.as_slice()) {
                return v;
            }
        }
        0
    }

    /// Gives up the chain state and hands back its store.
    pub fn into_db(self) -> (r: BlockchainDB)
        ensures
            r@ == self@.db,
    {
        self.db
    }

    /// The underlying store.
    pub fn get_db(&self) -> (r: &BlockchainDB)
        ensures
            r@ == self@.db,
    {
        &self.db
    }

    /// The recorded cumulative work of the block with hash `h`.
    pub fn get_chain_work(&self, h: &[u8; 32]) -> (r: Option<u128>)
        ensures
            r is Some <==> self@.work.contains_key(h@),
            r matches Some(w) ==> w == self@.work[h@],
    {
        let mut i = self.chain_work.len();
        assert(self.chain_work@.subrange(0, i as int) =~= self.chain_work@);
        while i > 0
            invariant
                i <= self.chain_work@.len(),
                work_map(self.chain_work@).contains_key(h@) == work_map(
                    self.chain_work@.subrange(0, i as int),
                ).contains_key(h@),
                work_map(self.chain_work@).contains_key(h@) ==> work_map(self.chain_work@)[h@]
                    == work_map(self.chain_work@.subrange(0, i as int))[h@],
            decreases i,
        {
            proof {
                assert(self.chain_work@.subrange(0, i as int).drop_last()
                    =~= self.chain_work@.subrange(0, i - 1));
            }
            if hash_eq(&self.chain_work[i - 1].hash, h) {
                return Some(self.chain_work[i - 1].work);
            }
            i = i - 1;
        }
        assert(self.chain_work@.subrange(0, 0) =~= Seq::<WorkEntry>::empty());
        None
    }

    /// The hashes currently held as fork points.
    pub fn get_fork_points(&self) -> (r: Vec<[u8; 32]>)
        ensures
            hash_views(r@) == self@.forks,
    {
        self.fork_points.clone()
    }

    pub fn get_reorg_count(&self) -> (r: u64)
        ensures
            r == self@.reorg_count,
    {
        self.reorg_count
    }

    pub fn get_last_reorg_time(&self) -> (r: u64)
        ensures
            r == self@.last_reorg_time,
    {
        self.last_reorg_time
    }

    /// The cumulative work of the chain ending at `block`, walking parent
    /// links through the store; saturates at the largest `u128`.
    pub fn calculate_chain_work(&self, block: &Block) -> (r: Result<u128, StorageError>)
        ensures
            r is Ok <==> cum_work(self@.db.blocks, *block) is Some,
            r matches Ok(w) ==> w == capped(cum_work(self@.db.blocks, *block)->Some_0),
            r matches Err(e) ==> e == StorageError::BlockNotFound,
    {
        let ghost m = self@.blocks();
        let ghost n0 = self@.db.blocks.len();
        let mut fuel: usize = self.db.block_count();
        let mut total: u128 = 0;
        let ghost mut acc: int = 0;
        let mut current: &Block = block;
        let zero = zero_hash();
        loop
            invariant
                m == self@.blocks(),
                n0 == self@.db.blocks.len(),
                zero@ == zero_hash_spec(),
                0 <= acc,
                total == capped(acc),
                walk_work(m, *block, n0) is Some <==> walk_work(m, *current, fuel as nat) is Some,
                walk_work(m, *block, n0) matches Some(w) ==> w == walk_work(
                    m,
                    *current,
                    fuel as nat,
                )->Some_0 + acc,
            decreases fuel,
        {
            let w = calculate_block_work(current.target);
            if hash_eq(&current.prev_hash, &zero) {
                total = total.saturating_add(w);
                proof {
                    acc = acc + w;
                }
                return Ok(total);
            }
            let parent = match self.db.get_block(&current.prev_hash) {
                Some(p) => p,
                None => {
                    return Err(StorageError::BlockNotFound);
                },
            };
            if fuel == 0 {
                return Err(StorageError::BlockNotFound);
            }
            total = total.saturating_add(w);
            proof {
                acc = acc + w;
            }
            fuel = fuel - 1;
            current = parent;
        }
    }

    /// Whether the ingestion gate's fork-distance bound admits `block`: a
    /// plain extension of the tip always, any other block exactly when its
    /// parent is stored.
    pub fn within_fork_distance(&self, block: &Block) -> (r: bool)
        ensures
            r == self@.within_fork_distance(*block),
    {
        let next = self.current_height < u64::MAX && block.height == self.current_height + 1;
        if !next && !hash_eq(
            &block.prev_hash,
            &self.best_block_hash,
        ) {
            self.calculate_fork_distance(block).is_some()
        } else {
            true
        }
    }

    /// The number of blocks between `block` and its nearest ancestor held by
    /// the store: zero where its parent is stored, `None` where no ancestor
    /// can be reached.
    pub fn calculate_fork_distance(&self, block: &Block) -> (r: Option<u64>)
        ensures
            r is Some <==> self@.db.has_block(block.prev_hash@),
            r matches Some(d) ==> d == 0,
    {
        if self.db.has_block(&block.prev_hash) {
            Some(0)
        } else {
            None
        }
    }

    /// The transaction checks of the ingestion gate: no output is spent twice
    /// within the block, and every spent output is unspent now.
    pub fn validate_transactions(&self, block: &Block) -> (r: bool)
        ensures
            r == self@.transactions_valid(*block),
    {
        let ins = collect_inputs(&block.transactions);
        let mut i: usize = 0;
        while i < ins.len()
            invariant
                ins@ == block_inputs(block.transactions@),
                i <= ins@.len(),
                forall|a: int, b: int|
                    0 <= a < b < i ==> outpoint(#[trigger] ins@[a]) != outpoint(#[trigger] ins@[b]),
                forall|a: int| 0 <= a < i ==> self@.db.utxos.contains_key(outpoint(#[trigger] ins@[a])),
            decreases ins@.len() - i,
        {
            let cur = ins[i];
            let mut j: usize = 0;
            while j < i
                invariant
                    ins@ == block_inputs(block.transactions@),
                    i < ins@.len(),
                    j <= i,
                    cur == ins@[i as int],
                    forall|a: int| 0 <= a < j ==> outpoint(#[trigger] ins@[a]) != outpoint(cur),
                decreases i - j,
            {
                let other = ins[j];
                if other.prev_output_index == cur.prev_output_index && hash_eq(
                    &other.prev_tx_hash,
                    &cur.prev_tx_hash,
                ) {
                    assert(outpoint(ins@[j as int]) == outpoint(ins@[i as int]));
                    return false;
                }
                j = j + 1;
            }
            if self.db.get_utxo(&cur.prev_tx_hash, cur.prev_output_index).is_none() {
                return false;
            }
            i = i + 1;
        }
        true
    }

    /// The parent of `b`, where the fork walk may step to it.
    fn parent_of<'a>(&'a self, b: &Block) -> (r: Result<&'a Block, StorageError>)
        ensures
            r is Ok <==> can_step(self@.blocks(), *b),
            r matches Ok(p) ==> *p == self@.blocks()[b.prev_hash@],
            r matches Err(e) ==> e == step_error(*b),
    {
        if hash_eq(&b.prev_hash, &zero_hash()) {
            return Err(StorageError::InvalidChainReorganization);
        }
        match self.db.get_block(&b.prev_hash) {
            Some(p) => Ok(p),
            None => Err(StorageError::BlockNotFound),
        }
    }

    /// Locates the common block of the chain ending at `new_tip` and the
    /// current best chain, and lists the blocks above it on either side.
    pub fn find_fork_point(&self, new_tip: &Block) -> (r: Result<ReorgPlan, StorageError>)
        ensures
            r is Ok <==> self@.fork_plan(*new_tip) is Ok,
            r matches Err(e) ==> self@.fork_plan(*new_tip) == Err::<ForkWalk, StorageError>(e),
            r matches Ok(p) ==> plan_matches(p, self@.fork_plan(*new_tip)->Ok_0),
    {
        let ghost m = self@.blocks();
        let mut to_apply: Vec<[u8; 32]> = Vec::new();
        let mut to_disconnect: Vec<[u8; 32]> = Vec::new();
        let ghost mut a: Seq<Block> = Seq::empty();
        let ghost mut d: Seq<Block> = Seq::empty();
        let mut current: &Block = new_tip;
        let mut main: &Block = match self.db.get_block(&self.best_block_hash) {
            Some(b) => b,
            None => {
                return Err(StorageError::BlockNotFound);
            },
        };
        let mut fuel: u128 = 2 * (self.db.block_count() as u128) + 2;
        proof {
            let r = fork_walk(m, *current, *main, fuel as nat);
            assert(prepend(r, a, d) == r) by {
                match r {
                    Ok(w) => {
                        assert(a + w.apply =~= w.apply);
                        assert(d + w.disconnect =~= w.disconnect);
                    },
                    Err(_) => {},
                }
            }
            assert(hash_views(to_apply@) =~= block_hashes(a));
            assert(hash_views(to_disconnect@) =~= block_hashes(d));
        }
        loop
            invariant
                m == self@.blocks(),
                hash_views(to_apply@) == block_hashes(a),
                hash_views(to_disconnect@) == block_hashes(d),
                self@.fork_plan(*new_tip) == prepend(
                    fork_walk(m, *current, *main, fuel as nat),
                    a,
                    d,
                ),
            decreases fuel,
        {
            if current.height == 0 || main.height == 0 || fuel == 0 {
                return Err(StorageError::InvalidChainReorganization);
            }
            if hash_eq(&current.hash, &main.hash) {
                proof {
                    assert(a + Seq::<Block>::empty() =~= a);
                    assert(d + Seq::<Block>::empty() =~= d);
                }
                return Ok(ReorgPlan { fork_point: current.hash, to_apply, to_disconnect });
            }
            let step_cur = current.height >= main.height;
            let step_main = main.height >= current.height;
            let ghost c0 = *current;
            let ghost m0 = *main;
            let ghost a_start = a;
            let ghost d_start = d;
            let ghost f0 = fuel;
            fuel = fuel - 1;
            if step_cur {
                let p = match self.parent_of(current) {
                    Ok(p) => p,
                    Err(e) => {
                        return Err(e);
                    },
                };
                if step_main {
                    match self.parent_of(main) {
                        Ok(_) => {},
                        Err(e) => {
                            return Err(e);
                        },
                    }
                }
                let ghost ta0 = to_apply@;
                let ghost a_old = a;
                to_apply.push(current.hash);
                proof {
                    a = a.push(c0);
                    assert(hash_views(ta0).len() == ta0.len());
                    assert(block_hashes(a_old).len() == a_old.len());
                    assert(to_apply@ == ta0.push(c0.hash));
                    assert forall|i: int| 0 <= i < a.len() implies hash_views(to_apply@)[i]
                        == block_hashes(a)[i] by {
                        if i < a_old.len() {
                            assert(hash_views(ta0)[i] == block_hashes(a_old)[i]);
                        }
                    }
                    assert(hash_views(to_apply@) =~= block_hashes(a));
                }
                current = p;
            }
            if step_main {
                let q = match self.parent_of(main) {
                    Ok(q) => q,
                    Err(e) => {
                        return Err(e);
                    },
                };
                let ghost td0 = to_disconnect@;
                let ghost d_old = d;
                to_disconnect.push(main.hash);
                proof {
                    d = d.push(m0);
                    assert(hash_views(td0).len() == td0.len());
                    assert(block_hashes(d_old).len() == d_old.len());
                    assert(to_disconnect@ == td0.push(m0.hash));
                    assert forall|i: int| 0 <= i < d.len() implies hash_views(to_disconnect@)[i]
                        == block_hashes(d)[i] by {
                        if i < d_old.len() {
                            assert(hash_views(td0)[i] == block_hashes(d_old)[i]);
                        }
                    }
                    assert(hash_views(to_disconnect@) =~= block_hashes(d));
                }
                main = q;
            }
            proof {
                assert(hash_views(to_apply@) =~= block_hashes(a));
                assert(hash_views(to_disconnect@) =~= block_hashes(d));
                let a0 = a_start;
                let d0 = d_start;
                assert(c0.hash@ != m0.hash@);
                match fork_walk(m, *current, *main, fuel as nat) {
                    Ok(w) => {
                        let w2 = ForkWalk {
                            fork_point: w.fork_point,
                            apply: if step_cur {
                                seq![c0] + w.apply
                            } else {
                                w.apply
                            },
                            disconnect: if step_main {
                                seq![m0] + w.disconnect
                            } else {
                                w.disconnect
                            },
                        };
                        assert(fork_walk(m, c0, m0, f0 as nat) == Ok::<ForkWalk, StorageError>(w2));
                        assert(a0 + w2.apply =~= a + w.apply);
                        assert(d0 + w2.disconnect =~= d + w.disconnect);
                    },
                    Err(e) => {
                        assert(fork_walk(m, c0, m0, f0 as nat) == Err::<ForkWalk, StorageError>(e));
                    },
                }
            }
        }
    }

    /// The summary of the latest reorganization, if any.
    pub fn get_last_reorganization(&self) -> (r: Option<ReorganizationEvent>)
        ensures
            r == self@.last_event,
    {
        self.last_event
    }

    /// Drops the fork points whose block is missing or whose timestamp is
    /// at least the retention window older than `now`.
    pub fn prune_fork_points(&mut self, now: u64)
        ensures
            final(self)@ == (ChainView {
                forks: retained(old(self)@.forks, old(self)@.blocks(), now),
                ..old(self)@
            }),
    {
        let ghost m = self@.blocks();
        let mut kept: Vec<[u8; 32]> = Vec::new();
        let mut i: usize = 0;
        assert(hash_views(self.fork_points@.subrange(0, 0)) =~= Seq::<Seq<u8>>::empty());
        assert(hash_views(kept@) =~= Seq::<Seq<u8>>::empty());
        while i < self.fork_points.len()
            invariant
                i <= self.fork_points@.len(),
                m == self@.blocks(),
                hash_views(kept@) == retained(hash_views(self.fork_points@.subrange(0, i as int)), m, now),
            decreases self.fork_points@.len() - i,
        {
            let h = self.fork_points[i];
            let keep = match self.db.get_block(&h) {
                Some(b) => now.saturating_sub(b.timestamp) < FORK_RETENTION_SECS,
                None => false,
            };
            let ghost before = kept@;
            if keep {
                kept.push(h);
            }
            proof {
                let s1 = hash_views(self.fork_points@.subrange(0, i + 1));
                assert(s1.drop_last() =~= hash_views(self.fork_points@.subrange(0, i as int)));
                assert(s1.last() == h@);
                if keep {
                    assert(hash_views(kept@) =~= hash_views(before).push(h@));
                }
            }
            i = i + 1;
        }
        assert(self.fork_points@.subrange(0, self.fork_points@.len() as int) =~= self.fork_points@);
        self.fork_points = kept;
    }

    /// Adds `h` to the fork points unless it is there already.
    fn add_fork_point(&mut self, h: [u8; 32])
        ensures
            final(self)@ == (ChainView { forks: add_fork(old(self)@.forks, h@), ..old(self)@ }),
    {
        let mut i: usize = 0;
        while i < self.fork_points.len()
            invariant
                i <= self.fork_points@.len(),
                forall|j: int| 0 <= j < i ==> hash_views(self.fork_points@)[j] != h@,
            decreases self.fork_points@.len() - i,
        {
            if hash_eq(&self.fork_points[i], &h) {
                assert(hash_views(self.fork_points@)[i as int] == h@);
                return;
            }
            i = i + 1;
        }
        let ghost before = self.fork_points@;
        self.fork_points.push(h);
        assert(hash_views(self.fork_points@) =~= hash_views(before).push(h@));
    }

    /// Records `w` as the cumulative work of the block with hash `h`.
    fn record_chain_work(&mut self, h: [u8; 32], w: u128)
        ensures
            final(self)@ == (ChainView { work: old(self)@.work.insert(h@, w), ..old(self)@ }),
    {
        let ghost before = self.chain_work@;
        self.chain_work.push(WorkEntry { hash: h, work: w });
        assert(self.chain_work@.drop_last() =~= before);
    }

    /// Persists the total difficulty.
    fn store_total_difficulty(&mut self, td: u64)
        ensures
            final(self)@ == (ChainView {
                db: DbView {
                    meta: old(self)@.db.meta.insert(MetaKey::TotalDifficulty, le64(td)),
                    ..old(self)@.db
                },
                ..old(self)@
            }),
    {
        self.db.store_metadata(MetaKey::TotalDifficulty, write_u64(td));
    }

    /// Moves the tip to the block `hash` at `height` and persists both.
    fn set_tip(&mut self, hash: [u8; 32], height: u64)
        ensures
            final(self)@ == (ChainView {
                db: DbView {
                    meta: old(self)@.db.meta.insert(MetaKey::Height, le64(height)).insert(
                        MetaKey::BestHash,
                        hash@,
                    ),
                    ..old(self)@.db
                },
                height,
                best: hash,
                ..old(self)@
            }),
    {
        self.current_height = height;
        self.best_block_hash = hash;
        self.db.store_metadata(MetaKey::Height, write_u64(height));
        let mut bytes: Vec<u8> = Vec::new();
        push_hash(&mut bytes, &hash);
        assert(bytes@ =~= hash@);
        self.db.store_metadata(MetaKey::BestHash, bytes);
    }

    /// The simple extension path: stores `block`, whose cumulative work is
    /// `w`, records that work, adds its contribution to the total
    /// difficulty and, where it is higher than the tip, connects it and
    /// makes it the tip. Returns whether it became the tip.
    fn store_block(&mut self, block: Block, w: u128) -> (r: bool)
        ensures
            r == (block.height > old(self)@.height),
            final(self)@ == old(self)@.extended(block, w),
    {
        let hash = block.hash;
        let height = block.height;
        let diff = difficulty_of_block(&block);
        let td = self.get_total_difficulty();
        self.db.insert_block(block);
        self.record_chain_work(hash, w);
        self.store_total_difficulty(td.saturating_add(diff));
        if self.current_height < height {
            self.db.connect_block_outputs(&hash);
            self.set_tip(hash, height);
            true
        } else {
            false
        }
    }

    /// Stores `block`, whose cumulative work is `w`, on a side branch and
    /// records its parent as a fork point.
    fn store_side_block(&mut self, block: Block, w: u128)
        ensures
            final(self)@ == old(self)@.side_stored(block, w),
    {
        let hash = block.hash;
        let prev = block.prev_hash;
        self.db.insert_block(block);
        self.record_chain_work(hash, w);
        self.add_fork_point(prev);
    }

    /// Moves the tip to `new_tip` along `plan`: disconnects the current
    /// chain's blocks tip first, connects the candidate's blocks fork point
    /// first, persists the new total difficulty, height and best hash, and
    /// prunes stale fork points. Every step is infallible, so the change
    /// happens as one unit.
    fn handle_chain_reorganization(&mut self, new_tip: Block, plan: &ReorgPlan, now: u64) -> (r:
        ReorganizationEvent)
        ensures
            final(self)@ == old(self)@.reorganized(
                new_tip,
                plan.fork_point,
                hash_views(plan.to_disconnect@),
                hash_views(plan.to_apply@),
                now,
            ),
            final(self)@.last_event == Some(r),
    {
        let ghost v = self@;
        let ghost d = hash_views(plan.to_disconnect@);
        let ghost a = hash_views(plan.to_apply@);
        let event = ReorganizationEvent {
            old_tip: self.best_block_hash,
            new_tip: new_tip.hash,
            fork_point: plan.fork_point,
            blocks_disconnected: plan.to_disconnect.len() as u64,
            blocks_connected: plan.to_apply.len() as u64,
            timestamp: now,
        };
        let tip_hash = new_tip.hash;
        let tip_height = new_tip.height;
        let mut td = self.get_total_difficulty();
        self.db.insert_block(new_tip);
        let ghost blocks = self@.db.blocks;
        let ghost mid = self@;
        let mut i: usize = 0;
        assert(d.subrange(0, d.len() as int) =~= d);
        while i < plan.to_disconnect.len()
            invariant
                i <= plan.to_disconnect@.len(),
                d == hash_views(plan.to_disconnect@),
                self@ == (ChainView { db: DbView { utxos: self@.db.utxos, ..mid.db }, ..mid }),
                blocks == mid.db.blocks,
                undo_hashes(v.db.utxos, d, blocks) == undo_hashes(
                    self@.db.utxos,
                    d.subrange(i as int, d.len() as int),
                    blocks,
                ),
                td_undo(v.total_difficulty(), d, blocks) == td_undo(
                    td,
                    d.subrange(i as int, d.len() as int),
                    blocks,
                ),
            decreases plan.to_disconnect@.len() - i,
        {
            let h = plan.to_disconnect[i];
            let diff = match self.db.get_block(&h) {
                Some(b) => difficulty_of_block(b),
                None => 0,
            };
            self.db.disconnect_block_outputs(&h);
            td = td.saturating_sub(diff);
            proof {
                let rest = d.subrange(i as int, d.len() as int);
                assert(rest[0] == h@);
                assert(rest.drop_first() =~= d.subrange(i + 1, d.len() as int));
            }
            i = i + 1;
        }
        let ghost mid2 = self@;
        let ghost td_mid = td;
        let mut j: usize = plan.to_apply.len();
        assert(a.subrange(0, a.len() as int) =~= a);
        while j > 0
            invariant
                j <= plan.to_apply@.len(),
                a == hash_views(plan.to_apply@),
                self@ == (ChainView {
                    db: DbView { utxos: self@.db.utxos, ..mid2.db },
                    work: self@.work,
                    ..mid2
                }),
                blocks == mid2.db.blocks,
                apply_hashes(mid2.db.utxos, a, blocks) == apply_hashes(
                    self@.db.utxos,
                    a.subrange(0, j as int),
                    blocks,
                ),
                td_apply(td_mid, a, blocks) == td_apply(td, a.subrange(0, j as int), blocks),
                record_work(mid2.work, a, blocks) == record_work(
                    self@.work,
                    a.subrange(0, j as int),
                    blocks,
                ),
            decreases j,
        {
            let h = plan.to_apply[j - 1];
            let (diff, cw) = match self.db.get_block(&h) {
                Some(b) => {
                    let cw = match self.calculate_chain_work(b) {
                        Ok(w) => Some(w),
                        Err(_) => None,
                    };
                    (difficulty_of_block(b), cw)
                },
                None => (0, None),
            };
            self.db.connect_block_outputs(&h);
            td = td.saturating_add(diff);
            match cw {
                Some(w) => self.record_chain_work(h, w),
                None => {},
            }
            proof {
                let pre = a.subrange(0, j as int);
                assert(pre.last() == h@);
                assert(pre.drop_last() =~= a.subrange(0, j - 1));
            }
            j = j - 1;
        }
        self.store_total_difficulty(td);
        self.set_tip(tip_hash, tip_height);
        self.last_reorg_time = now;
        self.reorg_count = self.reorg_count.saturating_add(1);
        self.prune_fork_points(now);
        self.last_event = Some(event);
        event
    }

    /// Admits `block`, received at time `now`: returns whether it became the
    /// new tip. A block already stored is a no-op. A block failing the
    /// structural or transaction checks is an `InvalidBlock` error; one beyond the fork-distance bound is declined. A block on the
    /// tip extends it. One elsewhere whose chain has strictly more
    /// cumulative work than the tip's, both walked through the store,
    /// triggers a reorganization, declined where it would disconnect more
    /// than the reorg-depth bound; otherwise it is kept on a side branch.
    /// Nothing changes on an error or a decline.
    pub fn process_block(&mut self, block: Block, now: u64) -> (r: Result<bool, StorageError>)
        ensures
            old(self)@.work_consistent() ==> final(self)@.work_consistent(),
            old(self)@.work_consistent() ==> forall|h: Seq<u8>|
                #[trigger] old(self)@.work.contains_key(h) ==> final(self)@.work.contains_key(h)
                    && final(self)@.work[h] == old(self)@.work[h],
            old(self)@.tip_consistent() ==> final(self)@.tip_consistent(),
            r == Ok::<bool, StorageError>(true) ==> final(self)@.tip_consistent(),
            old(self)@.hashes_unique() ==> final(self)@.hashes_unique(),
            ({
                let v = old(self)@;
                let b = block;
                if v.db.has_block(b.hash@) {
                    r == Ok::<bool, StorageError>(false) && final(self)@ == v
                } else if !b.well_formed() || (v.within_fork_distance(b)
                    && !v.transactions_valid(b)) {
                    r == Err::<bool, StorageError>(StorageError::InvalidBlock) && final(self)@ == v
                } else if !v.within_fork_distance(b) {
                    r == Ok::<bool, StorageError>(false) && final(self)@ == v
                } else {
                    match cum_work(v.db.blocks, b) {
                        None => r == Err::<bool, StorageError>(StorageError::BlockNotFound)
                            && final(self)@ == v,
                        Some(w) => if b.prev_hash@ == v.best@ {
                            r == Ok::<bool, StorageError>(b.height > v.height) && final(self)@
                                == v.extended(b, capped(w))
                        } else {
                            match v.tip_work() {
                                None => r == Err::<bool, StorageError>(StorageError::BlockNotFound)
                                    && final(self)@ == v,
                                Some(cw) => if capped(w) <= cw {
                                    r == Ok::<bool, StorageError>(false) && final(self)@
                                        == v.side_stored(b, capped(w))
                                } else {
                                    match v.fork_plan(b) {
                                        Err(e) => r == Err::<bool, StorageError>(e) && final(self)@
                                            == v,
                                        Ok(p) => if p.disconnect.len() > MAX_REORG_DEPTH {
                                            r == Ok::<bool, StorageError>(false) && final(self)@
                                                == v
                                        } else {
                                            r == Ok::<bool, StorageError>(true) && exists|
                                                fp: [u8; 32],
                                            |
                                                fp@ == p.fork_point && final(self)@
                                                    == v.reorganized(
                                                    b,
                                                    fp,
                                                    block_hashes(p.disconnect),
                                                    block_hashes(p.apply),
                                                    now,
                                                )
                                        },
                                    }
                                },
                            }
                        },
                    }
                }
            }),
    {
        if self.db.has_block(&block.hash) {
            return Ok(false);
        }
        if !block.validate() {
            return Err(StorageError::InvalidBlock);
        }
        if !self.within_fork_distance(&block) {
            return Ok(false);
        }
        if !self.validate_transactions(&block) {
            return Err(StorageError::InvalidBlock);
        }
        let new_work = match self.calculate_chain_work(&block) {
            Ok(w) => w,
            Err(e) => {
                return Err(e);
            },
        };
        let ghost v = self@;
        proof {
            if v.work_consistent() {
                lemma_admission_keeps_work_consistent(v, block);
                lemma_admission_keeps_work_entries(v, block);
            }
            lemma_admission_keeps_tip(v, block, capped(cum_work(v.db.blocks, block)->Some_0));
        }
        if hash_eq(&block.prev_hash, &self.best_block_hash) {
            let advanced = self.store_block(block, new_work);
            return Ok(advanced);
        }
        let current_work = match self.tip_work() {
            Ok(w) => w,
            Err(e) => {
                return Err(e);
            },
        };
        if new_work <= current_work {
            self.store_side_block(block, new_work);
            return Ok(false);
        }
        let plan = match self.find_fork_point(&block) {
            Ok(p) => p,
            Err(e) => {
                return Err(e);
            },
        };
        proof {
            let w = self@.fork_plan(block)->Ok_0;
            assert(hash_views(plan.to_disconnect@).len() == plan.to_disconnect@.len());
            assert(block_hashes(w.disconnect).len() == w.disconnect.len());
        }
        if plan.to_disconnect.len() as u64 > MAX_REORG_DEPTH {
            return Ok(false);
        }
        self.handle_chain_reorganization(block, &plan, now);
        Ok(true)
    }

    /// The canonical block at `height`, found by walking parent links back
    /// from the tip; `BlockNotFound` above the tip or where the walk leaves
    /// the store.
    pub fn get_block_at_height(&self, height: u64) -> (r: Result<&Block, StorageError>)
        ensures
            height > self@.height ==> r == Err::<&Block, StorageError>(StorageError::BlockNotFound),
            height <= self@.height ==> match ancestor_at(
                self@.blocks(),
                self@.best@,
                (self@.height - height) as nat,
            ) {
                Some(b) => r matches Ok(x) && *x == b,
                None => r == Err::<&Block, StorageError>(StorageError::BlockNotFound),
            },
    {
        if height > self.current_height {
            return Err(StorageError::BlockNotFound);
        }
        let ghost m = self@.blocks();
        let mut current_hash = self.best_block_hash;
        let mut current_height = self.current_height;
        while current_height > height
            invariant
                m == self@.blocks(),
                height <= current_height <= self@.height,
                ancestor_at(m, self@.best@, (self@.height - height) as nat) == ancestor_at(
                    m,
                    current_hash@,
                    (current_height - height) as nat,
                ),
            decreases current_height,
        {
            let block = match self.db.get_block(&current_hash) {
                Some(b) => b,
                None => {
                    return Err(StorageError::BlockNotFound);
                },
            };
            current_hash = block.prev_hash;
            current_height = current_height - 1;
        }
        match self.db.get_block(&current_hash) {
            Some(b) => Ok(b),
            None => Err(StorageError::BlockNotFound),
        }
    }

    /// The cumulative work of the current best block, from walking its
    /// ancestry; zero where no best block is stored yet.
    pub fn tip_work(&self) -> (r: Result<u128, StorageError>)
        ensures
            r is Ok <==> self@.tip_work() is Some,
            r matches Ok(w) ==> self@.tip_work() == Some(w),
            r matches Err(e) ==> e == StorageError::BlockNotFound,
    {
        match self.db.get_block(&self.best_block_hash) {
            Some(b) => self.calculate_chain_work(b),
            None => Ok(0),
        }
    }

    /// The whole ingestion gate: the structural check, the fork-distance
    /// bound, and the transaction checks. It changes nothing.
    pub fn validate_block(&self, block: &Block) -> (r: bool)
        ensures
            r == self@.admissible(*block),
    {
        block.validate() && self.within_fork_distance(block) && self.validate_transactions(block)
    }
}

fn hash_from_bytes(bytes: &Vec<u8>) -> (r: Option<[u8; 32]>)
    ensures
        r is Some <==> bytes@.len() == 32,
        r matches Some(h) ==> h@ == bytes@,
{
    if bytes.len() != 32 {
        return None;
    }
    let mut h = [0u8; 32];
    let mut i: usize = 0;
    while i < 32
        invariant
            bytes@.len() == 32,
            h@.len() == 32,
            i <= 32,
            forall|j: int| 0 <= j < i ==> h@[j] == bytes@[j],
        decreases 32 - i,
    {
        h.set(i, bytes[i]);
        i = i + 1;
    }
    assert(h@ =~= bytes@);
    Some(h)
}

fn collect_inputs(txs: &Vec<Transaction>) -> (r: Vec<TxInput>)
    ensures
        r@ == block_inputs(txs@),
{
    let mut out: Vec<TxInput> = Vec::new();
    let mut i: usize = 0;
    while i < txs.len()
        invariant
            i <= txs@.len(),
            out@ == block_inputs(txs@.subrange(0, i as int)),
        decreases txs@.len() - i,
    {
        let ins = &txs[i].inputs;
        let ghost base = out@;
        let mut j: usize = 0;
        while j < ins.len()
            invariant
                j <= ins@.len(),
                out@ == base + ins@.subrange(0, j as int),
            decreases ins@.len() - j,
        {
            out.push(ins[j]);
            assert(ins@.subrange(0, j + 1) =~= ins@.subrange(0, j as int).push(ins@[j as int]));
            j = j + 1;
        }
        assert(ins@.subrange(0, ins@.len() as int) =~= ins@);
        assert(txs@.subrange(0, i + 1).drop_last() =~= txs@.subrange(0, i as int));
        assert(out@ =~= block_inputs(txs@.subrange(0, i + 1)));
        i = i + 1;
    }
    assert(txs@.subrange(0, txs@.len() as int) =~= txs@);
    out
}

} // verus!
