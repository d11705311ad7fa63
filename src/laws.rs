//! Properties of block admission, stated over the chain-state view and
//! proved from the definitions the contracts use.
use crate::chain::{
    apply_hashes, capped, cum_work, has_parent, record_one, record_work, sat_add64, td_apply,
    td_undo, total_difficulty_of, undo_hashes, work_consistent_with, ChainView,
};
use crate::codec::lemma_le64_round_trip;
use crate::hashing::le64;
use crate::chain::{block_inputs, outpoint, walk_work, zero_hash_spec};
use crate::store::{apply_txs, block_map, MetaKey};
use crate::types::Block;
use crate::work::block_difficulty;
use vstd::prelude::*;

verus! {

/// A stored record written as `le64(x)` reads back as `x`.
proof fn lemma_total_difficulty_written(meta: Map<MetaKey, Seq<u8>>, x: u64)
    ensures
        total_difficulty_of(meta.insert(MetaKey::TotalDifficulty, le64(x))) == x,
{
    lemma_le64_round_trip(x);
}

/// Admitting a block whose parent is the tip and whose height is above it
/// makes it the tip, at its height, and adds its contribution to the total
/// difficulty.
pub proof fn lemma_extension_moves_tip(v: ChainView, b: Block, w: u128)
    requires
        b.prev_hash@ == v.best@,
        b.height > v.height,
    ensures
        v.extended(b, w).best == b.hash,
        v.extended(b, w).height == b.height,
        v.extended(b, w).total_difficulty() == sat_add64(
            v.total_difficulty(),
            block_difficulty(b.target),
        ),
        v.extended(b, w).db.utxos == apply_txs(v.db.utxos, b.transactions@),
{
    let x = sat_add64(v.total_difficulty(), block_difficulty(b.target));
    let m1 = v.db.meta.insert(MetaKey::TotalDifficulty, le64(x));
    lemma_total_difficulty_written(v.db.meta, x);
    let m2 = m1.insert(MetaKey::Height, le64(b.height)).insert(
        MetaKey::BestHash,
        b.hash@,
    );
    assert(m2[MetaKey::TotalDifficulty] == m1[MetaKey::TotalDifficulty]);
}

/// Every way of admitting a new block stores it, so a second submission of
/// the same block finds it stored.
pub proof fn lemma_admitted_block_is_stored(
    v: ChainView,
    b: Block,
    w: u128,
    fp: [u8; 32],
    d: Seq<Seq<u8>>,
    a: Seq<Seq<u8>>,
    now: u64,
)
    ensures
        v.extended(b, w).db.has_block(b.hash@),
        v.side_stored(b, w).db.has_block(b.hash@),
        v.reorganized(b, fp, d, a, now).db.has_block(b.hash@),
{
    let s = v.db.blocks.push(b);
    assert(s.drop_last() =~= v.db.blocks);
    assert(block_map(s).contains_key(b.hash@));
}

/// A reorganization leaves the candidate as the tip, at its height, with
/// the unspent set obtained by undoing the disconnected blocks and then
/// connecting the candidate's, and the total difficulty adjusted by their
/// contributions.
pub proof fn lemma_reorganization_moves_tip(
    v: ChainView,
    b: Block,
    fp: [u8; 32],
    d: Seq<Seq<u8>>,
    a: Seq<Seq<u8>>,
    now: u64,
)
    ensures
        v.reorganized(b, fp, d, a, now).best == b.hash,
        v.reorganized(b, fp, d, a, now).height == b.height,
        v.reorganized(b, fp, d, a, now).db.utxos == apply_hashes(
            undo_hashes(v.db.utxos, d, v.db.blocks.push(b)),
            a,
            v.db.blocks.push(b),
        ),
        v.reorganized(b, fp, d, a, now).total_difficulty() == td_apply(
            td_undo(v.total_difficulty(), d, v.db.blocks.push(b)),
            a,
            v.db.blocks.push(b),
        ),
{
    let blocks = v.db.blocks.push(b);
    let x = td_apply(td_undo(v.total_difficulty(), d, blocks), a, blocks);
    let m1 = v.db.meta.insert(MetaKey::TotalDifficulty, le64(x));
    lemma_total_difficulty_written(v.db.meta, x);
    let m2 = m1.insert(MetaKey::Height, le64(b.height)).insert(
        MetaKey::BestHash,
        b.hash@,
    );
    assert(m2[MetaKey::TotalDifficulty] == m1[MetaKey::TotalDifficulty]);
}

/// More lookups do not change a walk that already completed.
proof fn lemma_walk_fuel(m: Map<Seq<u8>, Block>, b: Block, n: nat, n2: nat)
    requires
        walk_work(m, b, n) is Some,
        n <= n2,
    ensures
        walk_work(m, b, n2) == walk_work(m, b, n),
    decreases n,
{
    if b.prev_hash@ != zero_hash_spec() {
        lemma_walk_fuel(m, m[b.prev_hash@], (n - 1) as nat, (n2 - 1) as nat);
    }
}

/// A walk that completed never looked up a hash absent from `m`, so adding
/// a block under such a hash leaves it as it was.
proof fn lemma_walk_frame(m: Map<Seq<u8>, Block>, k: Seq<u8>, nb: Block, x: Block, n: nat)
    requires
        !m.contains_key(k),
        walk_work(m, x, n) is Some,
    ensures
        walk_work(m.insert(k, nb), x, n) == walk_work(m, x, n),
    decreases n,
{
    if x.prev_hash@ != zero_hash_spec() {
        lemma_walk_frame(m, k, nb, m[x.prev_hash@], (n - 1) as nat);
    }
}

/// Storing a block under a new hash leaves every known cumulative work as
/// it was.
proof fn lemma_cum_work_frame(s: Seq<Block>, nb: Block, x: Block)
    requires
        !block_map(s).contains_key(nb.hash@),
        cum_work(s, x) is Some,
    ensures
        cum_work(s.push(nb), x) == cum_work(s, x),
{
    let s2 = s.push(nb);
    assert(s2.drop_last() =~= s);
    assert(block_map(s2) == block_map(s).insert(nb.hash@, nb));
    lemma_walk_fuel(block_map(s), x, s.len(), s2.len());
    lemma_walk_frame(block_map(s), nb.hash@, nb, x, s2.len());
}

/// Cumulative work never decreases from a block to its child: where the
/// child's chain work is known and its parent hash names a block, the
/// parent is stored, its chain work is known, and it is no larger; the same
/// holds of the capped values the chain-work table records.
pub proof fn lemma_chain_work_monotone(s: Seq<Block>, b: Block)
    requires
        b.prev_hash@ != zero_hash_spec(),
        cum_work(s, b) is Some,
    ensures
        has_parent(block_map(s), b),
        cum_work(s, block_map(s)[b.prev_hash@]) is Some,
        cum_work(s, block_map(s)[b.prev_hash@])->Some_0 <= cum_work(s, b)->Some_0,
        capped(cum_work(s, block_map(s)[b.prev_hash@])->Some_0) <= capped(
            cum_work(s, b)->Some_0,
        ),
{
    let m = block_map(s);
    let p = m[b.prev_hash@];
    lemma_walk_fuel(m, p, (s.len() - 1) as nat, s.len());
}

/// Cumulative work is never negative.
pub proof fn lemma_chain_work_nonnegative(m: Map<Seq<u8>, Block>, b: Block, n: nat)
    requires
        walk_work(m, b, n) is Some,
    ensures
        walk_work(m, b, n)->Some_0 >= 0,
    decreases n,
{
    if b.prev_hash@ != zero_hash_spec() {
        lemma_chain_work_nonnegative(m, m[b.prev_hash@], (n - 1) as nat);
    }
}

proof fn lemma_consistent_frame(w: Map<Seq<u8>, u128>, s: Seq<Block>, nb: Block)
    requires
        work_consistent_with(w, s),
        !block_map(s).contains_key(nb.hash@),
    ensures
        work_consistent_with(w, s.push(nb)),
{
    let s2 = s.push(nb);
    let m = block_map(s);
    assert(s2.drop_last() =~= s);
    assert(block_map(s2) == m.insert(nb.hash@, nb));
    assert forall|h: Seq<u8>| #[trigger] w.contains_key(h) implies {
        &&& block_map(s2).contains_key(h)
        &&& cum_work(s2, block_map(s2)[h]) is Some
        &&& w[h] == capped(cum_work(s2, block_map(s2)[h])->Some_0)
    } by {
        lemma_cum_work_frame(s, nb, m[h]);
    }
}

proof fn lemma_record_work_consistent(w: Map<Seq<u8>, u128>, hs: Seq<Seq<u8>>, blocks: Seq<Block>)
    requires
        work_consistent_with(w, blocks),
    ensures
        work_consistent_with(record_work(w, hs, blocks), blocks),
    decreases hs.len(),
{
    if hs.len() > 0 {
        let w1 = record_one(w, hs.last(), blocks);
        assert(work_consistent_with(w1, blocks));
        lemma_record_work_consistent(w1, hs.drop_last(), blocks);
    }
}

/// Admitting a new block, by any path, keeps the chain-work table in
/// agreement with the stored blocks.
pub proof fn lemma_admission_keeps_work_consistent(v: ChainView, b: Block)
    requires
        v.work_consistent(),
        !v.db.has_block(b.hash@),
        cum_work(v.db.blocks, b) is Some,
    ensures
        v.extended(b, capped(cum_work(v.db.blocks, b)->Some_0)).work_consistent(),
        v.side_stored(b, capped(cum_work(v.db.blocks, b)->Some_0)).work_consistent(),
        forall|fp: [u8; 32], d: Seq<Seq<u8>>, a: Seq<Seq<u8>>, now: u64|
            #[trigger] v.reorganized(b, fp, d, a, now).work_consistent(),
{
    let m = v.blocks();
    let s = v.db.blocks.push(b);
    assert(s.drop_last() =~= v.db.blocks);
    assert(block_map(s) == m.insert(b.hash@, b));
    lemma_consistent_frame(v.work, v.db.blocks, b);
    lemma_cum_work_frame(v.db.blocks, b, b);
    let w = capped(cum_work(v.db.blocks, b)->Some_0);
    assert(work_consistent_with(v.work.insert(b.hash@, w), s));
    assert forall|fp: [u8; 32], d: Seq<Seq<u8>>, a: Seq<Seq<u8>>, now: u64|
        #[trigger] v.reorganized(b, fp, d, a, now).work_consistent() by {
        lemma_record_work_consistent(v.work, a, s);
    }
}

/// Recording work into a consistent table rewrites no entry it had.
proof fn lemma_record_work_keeps(w: Map<Seq<u8>, u128>, hs: Seq<Seq<u8>>, blocks: Seq<Block>)
    requires
        work_consistent_with(w, blocks),
    ensures
        forall|h: Seq<u8>|
            #[trigger] w.contains_key(h) ==> record_work(w, hs, blocks).contains_key(h)
                && record_work(w, hs, blocks)[h] == w[h],
    decreases hs.len(),
{
    if hs.len() > 0 {
        let w1 = record_one(w, hs.last(), blocks);
        assert(work_consistent_with(w1, blocks));
        lemma_record_work_keeps(w1, hs.drop_last(), blocks);
        assert forall|h: Seq<u8>| #[trigger] w.contains_key(h) implies w1.contains_key(h) && w1[h]
            == w[h] by {}
    }
}

/// Admitting a new block, by any path, leaves every entry already in a
/// consistent chain-work table as it was: no recorded work decreases.
pub proof fn lemma_admission_keeps_work_entries(v: ChainView, b: Block)
    requires
        v.work_consistent(),
        !v.db.has_block(b.hash@),
        cum_work(v.db.blocks, b) is Some,
    ensures
        forall|h: Seq<u8>|
            #[trigger] v.work.contains_key(h) ==> {
                let w = capped(cum_work(v.db.blocks, b)->Some_0);
                &&& v.extended(b, w).work.contains_key(h)
                &&& v.extended(b, w).work[h] == v.work[h]
                &&& v.side_stored(b, w).work.contains_key(h)
                &&& v.side_stored(b, w).work[h] == v.work[h]
            },
        forall|fp: [u8; 32], d: Seq<Seq<u8>>, a: Seq<Seq<u8>>, now: u64, h: Seq<u8>|
            v.work.contains_key(h) ==> #[trigger] v.reorganized(b, fp, d, a, now).work.contains_key(
                h,
            ) && v.reorganized(b, fp, d, a, now).work[h] == v.work[h],
{
    let s = v.db.blocks.push(b);
    lemma_consistent_frame(v.work, v.db.blocks, b);
    assert forall|h: Seq<u8>| #[trigger] v.work.contains_key(h) implies h != b.hash@ by {}
    assert forall|fp: [u8; 32], d: Seq<Seq<u8>>, a: Seq<Seq<u8>>, now: u64, h: Seq<u8>|
        v.work.contains_key(h) implies #[trigger] v.reorganized(
        b,
        fp,
        d,
        a,
        now,
    ).work.contains_key(h) && v.reorganized(b, fp, d, a, now).work[h] == v.work[h] by {
        lemma_record_work_keeps(v.work, a, s);
    }
}

/// Along any parent link in a consistent chain-work table, the child's
/// recorded work is at least the parent's. (The all-zero hash names no
/// block: a block with that parent starts a chain.)
pub proof fn lemma_work_table_monotone(v: ChainView, child: Seq<u8>)
    requires
        v.work_consistent(),
        v.work.contains_key(child),
        v.work.contains_key(v.blocks()[child].prev_hash@),
        v.blocks()[child].prev_hash@ != zero_hash_spec(),
    ensures
        v.work[v.blocks()[child].prev_hash@] <= v.work[child],
{
    let b = v.blocks()[child];
    assert(v.work.contains_key(child));
    assert(v.work.contains_key(b.prev_hash@));
    lemma_chain_work_monotone(v.db.blocks, b);
}

/// Every stored block can be found by its hash.
proof fn lemma_stored_blocks_found(s: Seq<Block>, i: int)
    requires
        0 <= i < s.len(),
    ensures
        block_map(s).contains_key(s[i].hash@),
    decreases s.len(),
{
    if i < s.len() - 1 {
        lemma_stored_blocks_found(s.drop_last(), i);
    }
}

/// Admitting a new block, by any path, keeps the tip a stored block at the
/// current height, makes it one wherever the block becomes the tip, and
/// stores no hash twice.
pub proof fn lemma_admission_keeps_tip(v: ChainView, b: Block, w: u128)
    requires
        !v.db.has_block(b.hash@),
    ensures
        v.tip_consistent() ==> v.extended(b, w).tip_consistent(),
        b.height > v.height ==> v.extended(b, w).tip_consistent(),
        v.tip_consistent() ==> v.side_stored(b, w).tip_consistent(),
        forall|fp: [u8; 32], d: Seq<Seq<u8>>, a: Seq<Seq<u8>>, now: u64|
            #[trigger] v.reorganized(b, fp, d, a, now).tip_consistent(),
        v.hashes_unique() ==> v.extended(b, w).hashes_unique(),
        v.hashes_unique() ==> v.side_stored(b, w).hashes_unique(),
        v.hashes_unique() ==> forall|fp: [u8; 32], d: Seq<Seq<u8>>, a: Seq<Seq<u8>>, now: u64|
            #[trigger] v.reorganized(b, fp, d, a, now).hashes_unique(),
{
    let s = v.db.blocks.push(b);
    assert(s.drop_last() =~= v.db.blocks);
    assert(block_map(s) == v.blocks().insert(b.hash@, b));
    assert forall|i: int, j: int| 0 <= i < j < s.len() && v.hashes_unique() implies (
    #[trigger] s[i]).hash@ != (#[trigger] s[j]).hash@ by {
        if j == s.len() - 1 {
            lemma_stored_blocks_found(v.db.blocks, i);
        } else {
            assert(v.db.blocks[i] == s[i] && v.db.blocks[j] == s[j]);
        }
    }
    assert forall|fp: [u8; 32], d: Seq<Seq<u8>>, a: Seq<Seq<u8>>, now: u64|
        v.hashes_unique() implies #[trigger] v.reorganized(b, fp, d, a, now).hashes_unique() by {
        assert(v.reorganized(b, fp, d, a, now).db.blocks == s);
    }
    assert forall|fp: [u8; 32], d: Seq<Seq<u8>>, a: Seq<Seq<u8>>, now: u64|
        #[trigger] v.reorganized(b, fp, d, a, now).tip_consistent() by {
        assert(v.reorganized(b, fp, d, a, now).db.blocks == s);
    }
}

/// A block in which two inputs, in one transaction or in two, spend the
/// same output fails the ingestion gate.
pub proof fn lemma_double_spend_not_admissible(v: ChainView, b: Block, i: int, j: int)
    requires
        0 <= i < j < block_inputs(b.transactions@).len(),
        outpoint(block_inputs(b.transactions@)[i]) == outpoint(block_inputs(b.transactions@)[j]),
    ensures
        !v.transactions_valid(b),
        !v.admissible(b),
{
}

} // verus!
