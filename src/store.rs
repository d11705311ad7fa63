//! An in-memory block and output store: blocks by hash, transactions by
//! hash, the unspent-output set, and metadata records under fixed keys.
use crate::hashing::hash_eq;
use crate::types::{Block, Transaction, TxInput, TxOutput};
use vstd::prelude::*;

verus! {

/// An unspent output together with the outpoint that names it.
#[derive(Clone, Copy, Debug, PartialEq, Eq)]
pub struct Utxo {
    pub tx_hash: [u8; 32],
    pub index: u32,
    pub output: TxOutput,
}

/// The keys under which chain metadata is persisted.
#[derive(Clone, Copy, Debug, PartialEq, Eq, Structural)]
pub enum MetaKey {
    Height,
    BestHash,
    TotalDifficulty,
    GenesisHash,
}

/// The unspent-output set as a map from (transaction hash, output index) to
/// the output; a later entry for an outpoint overrides an earlier one.
pub open spec fn utxo_map(s: Seq<Utxo>) -> Map<(Seq<u8>, u32), TxOutput>
    decreases s.len(),
{
    if s.len() == 0 {
        Map::empty()
    } else {
        utxo_map(s.drop_last()).insert((s.last().tx_hash@, s.last().index), s.last().output)
    }
}

/// Stored blocks by hash; a later block with the same hash overrides.
pub open spec fn block_map(s: Seq<Block>) -> Map<Seq<u8>, Block>
    decreases s.len(),
{
    if s.len() == 0 {
        Map::empty()
    } else {
        block_map(s.drop_last()).insert(s.last().hash@, s.last())
    }
}

/// The last transaction with hash `h` in `txs`.
pub open spec fn find_tx_in(txs: Seq<Transaction>, h: Seq<u8>) -> Option<Transaction>
    decreases txs.len(),
{
    if txs.len() == 0 {
        None
    } else if txs.last().hash@ == h {
        Some(txs.last())
    } else {
        find_tx_in(txs.drop_last(), h)
    }
}

/// The transaction with hash `h` in the most recently stored block that holds one.
pub open spec fn find_tx(blocks: Seq<Block>, h: Seq<u8>) -> Option<Transaction>
    decreases blocks.len(),
{
    if blocks.len() == 0 {
        None
    } else {
        match find_tx_in(blocks.last().transactions@, h) {
            Some(t) => Some(t),
            None => find_tx(blocks.drop_last(), h),
        }
    }
}

/// What a store holds: the stored blocks in order of insertion, the
/// unspent-output set, and the metadata records.
pub struct DbView {
    pub blocks: Seq<Block>,
    pub utxos: Map<(Seq<u8>, u32), TxOutput>,
    pub meta: Map<MetaKey, Seq<u8>>,
}

impl DbView {
    pub open spec fn has_block(self, h: Seq<u8>) -> bool {
        block_map(self.blocks).contains_key(h)
    }

    pub open spec fn block(self, h: Seq<u8>) -> Block {
        block_map(self.blocks)[h]
    }
}

pub struct BlockchainDB {
    blocks: Vec<Block>,
    utxos: Vec<Utxo>,
    height: Option<Vec<u8>>,
    best_hash: Option<Vec<u8>>,
    total_difficulty: Option<Vec<u8>>,
    genesis_hash: Option<Vec<u8>>,
}

pub open spec fn opt_view(o: Option<Vec<u8>>) -> Option<Seq<u8>> {
    match o {
        Some(v) => Some(v@),
        None => None,
    }
}

pub open spec fn meta_of(key: MetaKey, m: Map<MetaKey, Seq<u8>>, v: Option<Seq<u8>>) -> Map<
    MetaKey,
    Seq<u8>,
> {
    match v {
        Some(b) => m.insert(key, b),
        None => m,
    }
}

impl View for BlockchainDB {
    type V = DbView;

    closed spec fn view(&self) -> DbView {
        DbView {
            blocks: self.blocks@,
            utxos: utxo_map(self.utxos@),
            meta: meta_of(
                MetaKey::GenesisHash,
                meta_of(
                    MetaKey::TotalDifficulty,
                    meta_of(
                        MetaKey::BestHash,
                        meta_of(MetaKey::Height, Map::empty(), opt_view(self.height)),
                        opt_view(self.best_hash),
                    ),
                    opt_view(self.total_difficulty),
                ),
                opt_view(self.genesis_hash),
            ),
        }
    }
}

impl BlockchainDB {
    pub fn new() -> (r: BlockchainDB)
        ensures
            r@.blocks.len() == 0,
            r@.utxos == Map::<(Seq<u8>, u32), TxOutput>::empty(),
            r@.meta == Map::<MetaKey, Seq<u8>>::empty(),
    {
        let r = BlockchainDB {
            blocks: Vec::new(),
            utxos: Vec::new(),
            height: None,
            best_hash: None,
            total_difficulty: None,
            genesis_hash: None,
        };
        assert(r@.utxos =~= Map::<(Seq<u8>, u32), TxOutput>::empty());
        assert(r@.meta =~= Map::<MetaKey, Seq<u8>>::empty());
        r
    }

    /// The stored block with the given hash.
    pub fn get_block(&self, hash: &[u8; 32]) -> (r: Option<&Block>)
        ensures
            r is Some <==> self@.has_block(hash@),
            r matches Some(b) ==> *b == self@.block(hash@),
    {
        match find_block_index(&self.blocks, hash) {
            Some(i) => Some(&self.blocks[i]),
            None => None,
        }
    }

    /// The number of blocks stored.
    pub fn block_count(&self) -> (r: usize)
        ensures
            r == self@.blocks.len(),
    {
        self.blocks.len()
    }

    pub fn has_block(&self, hash: &[u8; 32]) -> (r: bool)
        ensures
            r == self@.has_block(hash@),
    {
        self.get_block(hash).is_some()
    }

    /// Adds a block; looking it up by its hash afterwards finds it.
    pub fn insert_block(&mut self, block: Block)
        ensures
            final(self)@ == (DbView { blocks: old(self)@.blocks.push(block), ..old(self)@ }),
    {
        self.blocks.push(block);
    }

    /// The transaction with the given hash among the stored blocks.
    pub fn get_transaction(&self, hash: &[u8; 32]) -> (r: Option<&Transaction>)
        ensures
            r is None <==> find_tx(self@.blocks, hash@) is None,
            r matches Some(t) ==> find_tx(self@.blocks, hash@) == Some(*t),
    {
        find_tx_ref(&self.blocks, hash)
    }

    /// The unspent output at the given outpoint.
    pub fn get_utxo(&self, tx_hash: &[u8; 32], index: u32) -> (r: Option<TxOutput>)
        ensures
            r is Some <==> self@.utxos.contains_key((tx_hash@, index)),
            r matches Some(o) ==> o == self@.utxos[(tx_hash@, index)],
    {
        let mut i = self.utxos.len();
        assert(self.utxos@.subrange(0, i as int) =~= self.utxos@);
        while i > 0
            invariant
                i <= self.utxos@.len(),
                utxo_map(self.utxos@).contains_key((tx_hash@, index)) == utxo_map(
                    self.utxos@.subrange(0, i as int),
                ).contains_key((tx_hash@, index)),
                utxo_map(self.utxos@).contains_key((tx_hash@, index)) ==> utxo_map(self.utxos@)[(
                tx_hash@,
                index,
                )] == utxo_map(self.utxos@.subrange(0, i as int))[(tx_hash@, index)],
            decreases i,
        {
            proof {
                assert(self.utxos@.subrange(0, i as int).drop_last() =~= self.utxos@.subrange(0, i - 1));
            }
            let u = self.utxos[i - 1];
            if u.index == index && hash_eq(&u.tx_hash, tx_hash) {
                return Some(u.output);
            }
            i = i - 1;
        }
        assert(self.utxos@.subrange(0, 0) =~= Seq::<Utxo>::empty());
        None
    }

    /// Removes the output at the given outpoint from the unspent set.
    pub fn remove_utxo(&mut self, tx_hash: &[u8; 32], index: u32)
        ensures
            final(self)@ == (DbView {
                utxos: old(self)@.utxos.remove((tx_hash@, index)),
                ..old(self)@
            }),
    {
        utxo_remove(&mut self.utxos, tx_hash, index);
    }

    /// Puts an output into the unspent set, replacing what the outpoint held.
    pub fn store_utxo(&mut self, tx_hash: &[u8; 32], index: u32, output: TxOutput)
        ensures
            final(self)@ == (DbView {
                utxos: old(self)@.utxos.insert((tx_hash@, index), output),
                ..old(self)@
            }),
    {
        utxo_insert(&mut self.utxos, tx_hash, index, output);
    }

    /// Applies the transactions of the stored block with hash `h` to the
    /// unspent set; does nothing where no such block is stored.
    pub fn connect_block_outputs(&mut self, h: &[u8; 32])
        ensures
            final(self)@ == (DbView {
                utxos: apply_one(old(self)@.utxos, h@, old(self)@.blocks),
                ..old(self)@
            }),
    {
        match find_block_index(&self.blocks, h) {
            Some(i) => {
                let txs = &self.blocks[i].transactions;
                apply_txs_to(&mut self.utxos, txs);
            },
            None => {},
        }
    }

    /// Undoes the transactions of the stored block with hash `h`, last
    /// first: removes the outputs each created and restores the outputs it
    /// spent from the transactions that created them; does nothing where no
    /// such block is stored.
    pub fn disconnect_block_outputs(&mut self, h: &[u8; 32])
        ensures
            final(self)@ == (DbView {
                utxos: undo_one(old(self)@.utxos, h@, old(self)@.blocks),
                ..old(self)@
            }),
    {
        match find_block_index(&self.blocks, h) {
            Some(i) => {
                let blocks = &self.blocks;
                undo_txs_in(&mut self.utxos, &blocks[i].transactions, blocks);
            },
            None => {},
        }
    }

    /// The metadata record under `key`.
    pub fn get_metadata(&self, key: MetaKey) -> (r: Option<&Vec<u8>>)
        ensures
            r is Some <==> self@.meta.contains_key(key),
            r matches Some(v) ==> v@ == self@.meta[key],
    {
        match key {
            MetaKey::Height => self.height.as_ref(),
            MetaKey::BestHash => self.best_hash.as_ref(),
            MetaKey::TotalDifficulty => self.total_difficulty.as_ref(),
            MetaKey::GenesisHash => self.genesis_hash.as_ref(),
        }
    }

    /// Writes the metadata record under `key`.
    pub fn store_metadata(&mut self, key: MetaKey, value: Vec<u8>)
        ensures
            final(self)@ == (DbView { meta: old(self)@.meta.insert(key, value@), ..old(self)@ }),
    {
        match key {
            MetaKey::Height => self.height = Some(value),
            MetaKey::BestHash => self.best_hash = Some(value),
            MetaKey::TotalDifficulty => self.total_difficulty = Some(value),
            MetaKey::GenesisHash => self.genesis_hash = Some(value),
        }
        assert(self@.meta =~= old(self)@.meta.insert(key, value@));
    }
}

pub open spec fn spend_inputs(u: Map<(Seq<u8>, u32), TxOutput>, ins: Seq<TxInput>) -> Map<
    (Seq<u8>, u32),
    TxOutput,
>
    decreases ins.len(),
{
    if ins.len() == 0 {
        u
    } else {
        spend_inputs(u, ins.drop_last()).remove(
            (ins.last().prev_tx_hash@, ins.last().prev_output_index),
        )
    }
}

pub open spec fn add_outputs(
    u: Map<(Seq<u8>, u32), TxOutput>,
    txh: Seq<u8>,
    outs: Seq<TxOutput>,
) -> Map<(Seq<u8>, u32), TxOutput>
    decreases outs.len(),
{
    if outs.len() == 0 {
        u
    } else {
        add_outputs(u, txh, outs.drop_last()).insert((txh, (outs.len() - 1) as u32), outs.last())
    }
}

/// Connecting a transaction: its inputs leave the unspent set, then its
/// outputs enter it.
pub open spec fn apply_tx(u: Map<(Seq<u8>, u32), TxOutput>, tx: Transaction) -> Map<
    (Seq<u8>, u32),
    TxOutput,
> {
    add_outputs(spend_inputs(u, tx.inputs@), tx.hash@, tx.outputs@)
}

pub open spec fn apply_txs(u: Map<(Seq<u8>, u32), TxOutput>, txs: Seq<Transaction>) -> Map<
    (Seq<u8>, u32),
    TxOutput,
>
    decreases txs.len(),
{
    if txs.len() == 0 {
        u
    } else {
        apply_tx(apply_txs(u, txs.drop_last()), txs.last())
    }
}

pub open spec fn remove_outputs(u: Map<(Seq<u8>, u32), TxOutput>, txh: Seq<u8>, n: nat) -> Map<
    (Seq<u8>, u32),
    TxOutput,
>
    decreases n,
{
    if n == 0 {
        u
    } else {
        remove_outputs(u, txh, (n - 1) as nat).remove((txh, (n - 1) as u32))
    }
}

/// The output an input spent, recovered from the stored transaction that
/// created it.
pub open spec fn spent_output(i: TxInput, blocks: Seq<Block>) -> Option<TxOutput> {
    match find_tx(blocks, i.prev_tx_hash@) {
        Some(t) => if (i.prev_output_index as int) < t.outputs@.len() {
            Some(t.outputs@[i.prev_output_index as int])
        } else {
            None
        },
        None => None,
    }
}

pub open spec fn restore_inputs(
    u: Map<(Seq<u8>, u32), TxOutput>,
    ins: Seq<TxInput>,
    blocks: Seq<Block>,
) -> Map<(Seq<u8>, u32), TxOutput>
    decreases ins.len(),
{
    if ins.len() == 0 {
        u
    } else {
        let r = restore_inputs(u, ins.drop_last(), blocks);
        match spent_output(ins.last(), blocks) {
            Some(o) => r.insert((ins.last().prev_tx_hash@, ins.last().prev_output_index), o),
            None => r,
        }
    }
}

/// Undoing a transaction: its outputs leave the unspent set, then the
/// outputs it spent come back.
pub open spec fn undo_tx(u: Map<(Seq<u8>, u32), TxOutput>, tx: Transaction, blocks: Seq<Block>) -> Map<
    (Seq<u8>, u32),
    TxOutput,
> {
    restore_inputs(remove_outputs(u, tx.hash@, tx.outputs@.len()), tx.inputs@, blocks)
}

/// Undoing transactions last first.
pub open spec fn undo_txs(
    u: Map<(Seq<u8>, u32), TxOutput>,
    txs: Seq<Transaction>,
    blocks: Seq<Block>,
) -> Map<(Seq<u8>, u32), TxOutput>
    decreases txs.len(),
{
    if txs.len() == 0 {
        u
    } else {
        undo_txs(undo_tx(u, txs.last(), blocks), txs.drop_last(), blocks)
    }
}

/// Connecting the stored block with hash `h`, if there is one.
pub open spec fn apply_one(u: Map<(Seq<u8>, u32), TxOutput>, h: Seq<u8>, blocks: Seq<Block>) -> Map<
    (Seq<u8>, u32),
    TxOutput,
> {
    if block_map(blocks).contains_key(h) {
        apply_txs(u, block_map(blocks)[h].transactions@)
    } else {
        u
    }
}

/// Undoing the stored block with hash `h`, if there is one.
pub open spec fn undo_one(u: Map<(Seq<u8>, u32), TxOutput>, h: Seq<u8>, blocks: Seq<Block>) -> Map<
    (Seq<u8>, u32),
    TxOutput,
> {
    if block_map(blocks).contains_key(h) {
        undo_txs(u, block_map(blocks)[h].transactions@, blocks)
    } else {
        u
    }
}

fn utxo_remove(v: &mut Vec<Utxo>, tx_hash: &[u8; 32], index: u32)
    ensures
        utxo_map(final(v)@) == utxo_map(old(v)@).remove((tx_hash@, index)),
{
    let ghost key = (tx_hash@, index);
    assert(old(v)@.subrange(0, 0) =~= Seq::<Utxo>::empty());
    assert(utxo_map(Seq::<Utxo>::empty()).remove(key) =~= utxo_map(Seq::<Utxo>::empty()));
    let mut kept: Vec<Utxo> = Vec::new();
    let mut i: usize = 0;
    while i < v.len()
        invariant
            i <= v@.len(),
            v@ == old(v)@,
            utxo_map(kept@) == utxo_map(v@.subrange(0, i as int)).remove(key),
            key == (tx_hash@, index),
        decreases v@.len() - i,
    {
        let u = v[i];
        proof {
            assert(v@.subrange(0, i + 1).drop_last() =~= v@.subrange(0, i as int));
        }
        if u.index == index && hash_eq(&u.tx_hash, tx_hash) {
            assert(utxo_map(kept@) =~= utxo_map(v@.subrange(0, i + 1)).remove(key));
        } else {
            let ghost before = kept@;
            kept.push(u);
            assert(kept@.drop_last() =~= before);
            assert(utxo_map(kept@) =~= utxo_map(v@.subrange(0, i + 1)).remove(key));
        }
        i = i + 1;
    }
    assert(v@.subrange(0, v@.len() as int) =~= v@);
    *v = kept;
}

fn utxo_insert(v: &mut Vec<Utxo>, tx_hash: &[u8; 32], index: u32, output: TxOutput)
    ensures
        utxo_map(final(v)@) == utxo_map(old(v)@).insert((tx_hash@, index), output),
{
    utxo_remove(v, tx_hash, index);
    let ghost mid = v@;
    v.push(Utxo { tx_hash: *tx_hash, index, output });
    assert(v@.drop_last() =~= mid);
    assert(utxo_map(v@) =~= utxo_map(old(v)@).insert((tx_hash@, index), output));
}

fn find_block_index(blocks: &Vec<Block>, hash: &[u8; 32]) -> (r: Option<usize>)
    ensures
        r is Some <==> block_map(blocks@).contains_key(hash@),
        r matches Some(i) ==> i < blocks@.len() && blocks@[i as int] == block_map(blocks@)[hash@],
{
    let mut i = blocks.len();
    assert(blocks@.subrange(0, i as int) =~= blocks@);
    while i > 0
        invariant
            i <= blocks@.len(),
            block_map(blocks@).contains_key(hash@) == block_map(
                blocks@.subrange(0, i as int),
            ).contains_key(hash@),
            block_map(blocks@).contains_key(hash@) ==> block_map(blocks@)[hash@] == block_map(
                blocks@.subrange(0, i as int),
            )[hash@],
        decreases i,
    {
        proof {
            assert(blocks@.subrange(0, i as int).drop_last() =~= blocks@.subrange(0, i - 1));
        }
        if hash_eq(&blocks[i - 1].hash, hash) {
            return Some(i - 1);
        }
        i = i - 1;
    }
    assert(blocks@.subrange(0, 0) =~= Seq::<Block>::empty());
    None
}

fn find_tx_ref<'a>(blocks: &'a Vec<Block>, hash: &[u8; 32]) -> (r: Option<&'a Transaction>)
    ensures
        r is None <==> find_tx(blocks@, hash@) is None,
        r matches Some(t) ==> find_tx(blocks@, hash@) == Some(*t),
{
    let mut i = blocks.len();
    assert(blocks@.subrange(0, i as int) =~= blocks@);
    while i > 0
        invariant
            i <= blocks@.len(),
            find_tx(blocks@, hash@) == find_tx(blocks@.subrange(0, i as int), hash@),
        decreases i,
    {
        let txs = &blocks[i - 1].transactions;
        proof {
            assert(blocks@.subrange(0, i as int).drop_last() =~= blocks@.subrange(0, i - 1));
        }
        let mut j = txs.len();
        assert(txs@.subrange(0, j as int) =~= txs@);
        while j > 0
            invariant
                j <= txs@.len(),
                0 < i <= blocks@.len(),
                txs@ == blocks@[i - 1].transactions@,
                blocks@.subrange(0, i as int).last() == blocks@[i - 1],
                blocks@.subrange(0, i as int).drop_last() == blocks@.subrange(0, i - 1),
                find_tx(blocks@, hash@) == find_tx(blocks@.subrange(0, i as int), hash@),
                find_tx_in(txs@, hash@) == find_tx_in(txs@.subrange(0, j as int), hash@),
            decreases j,
        {
            proof {
                assert(txs@.subrange(0, j as int).drop_last() =~= txs@.subrange(0, j - 1));
            }
            if hash_eq(&txs[j - 1].hash, hash) {
                return Some(&txs[j - 1]);
            }
            j = j - 1;
        }
        assert(txs@.subrange(0, 0) =~= Seq::<Transaction>::empty());
        i = i - 1;
    }
    None
}

fn apply_txs_to(v: &mut Vec<Utxo>, txs: &Vec<Transaction>)
    ensures
        utxo_map(final(v)@) == apply_txs(utxo_map(old(v)@), txs@),
{
    let ghost u0 = utxo_map(v@);
    let mut i: usize = 0;
    assert(txs@.subrange(0, 0) =~= Seq::<Transaction>::empty());
    while i < txs.len()
        invariant
            i <= txs@.len(),
            u0 == utxo_map(old(v)@),
            utxo_map(v@) == apply_txs(u0, txs@.subrange(0, i as int)),
        decreases txs@.len() - i,
    {
        let tx = &txs[i];
        let ghost base = utxo_map(v@);
        let mut j: usize = 0;
        assert(tx.inputs@.subrange(0, 0) =~= Seq::<TxInput>::empty());
        while j < tx.inputs.len()
            invariant
                j <= tx.inputs@.len(),
                utxo_map(v@) == spend_inputs(base, tx.inputs@.subrange(0, j as int)),
            decreases tx.inputs@.len() - j,
        {
            let inp = tx.inputs[j];
            utxo_remove(v, &inp.prev_tx_hash, inp.prev_output_index);
            assert(tx.inputs@.subrange(0, j + 1).drop_last() =~= tx.inputs@.subrange(0, j as int));
            j = j + 1;
        }
        assert(tx.inputs@.subrange(0, tx.inputs@.len() as int) =~= tx.inputs@);
        let ghost spent = utxo_map(v@);
        let mut k: usize = 0;
        assert(tx.outputs@.subrange(0, 0) =~= Seq::<TxOutput>::empty());
        while k < tx.outputs.len()
            invariant
                k <= tx.outputs@.len(),
                utxo_map(v@) == add_outputs(spent, tx.hash@, tx.outputs@.subrange(0, k as int)),
            decreases tx.outputs@.len() - k,
        {
            utxo_insert(v, &tx.hash, k as u32, tx.outputs[k]);
            assert(tx.outputs@.subrange(0, k + 1).drop_last() =~= tx.outputs@.subrange(0, k as int));
            k = k + 1;
        }
        assert(tx.outputs@.subrange(0, tx.outputs@.len() as int) =~= tx.outputs@);
        assert(txs@.subrange(0, i + 1).drop_last() =~= txs@.subrange(0, i as int));
        i = i + 1;
    }
    assert(txs@.subrange(0, txs@.len() as int) =~= txs@);
}

fn undo_txs_in(v: &mut Vec<Utxo>, txs: &Vec<Transaction>, blocks: &Vec<Block>)
    ensures
        utxo_map(final(v)@) == undo_txs(utxo_map(old(v)@), txs@, blocks@),
{
    let mut i = txs.len();
    assert(txs@.subrange(0, i as int) =~= txs@);
    while i > 0
        invariant
            i <= txs@.len(),
            undo_txs(utxo_map(old(v)@), txs@, blocks@) == undo_txs(
                utxo_map(v@),
                txs@.subrange(0, i as int),
                blocks@,
            ),
        decreases i,
    {
        let tx = &txs[i - 1];
        proof {
            assert(txs@.subrange(0, i as int).drop_last() =~= txs@.subrange(0, i - 1));
        }
        let ghost start = utxo_map(v@);
        let mut k: usize = 0;
        while k < tx.outputs.len()
            invariant
                k <= tx.outputs@.len(),
                utxo_map(v@) == remove_outputs(start, tx.hash@, k as nat),
            decreases tx.outputs@.len() - k,
        {
            utxo_remove(v, &tx.hash, k as u32);
            k = k + 1;
        }
        let ghost removed = utxo_map(v@);
        let mut j: usize = 0;
        assert(tx.inputs@.subrange(0, 0) =~= Seq::<TxInput>::empty());
        while j < tx.inputs.len()
            invariant
                j <= tx.inputs@.len(),
                utxo_map(v@) == restore_inputs(removed, tx.inputs@.subrange(0, j as int), blocks@),
            decreases tx.inputs@.len() - j,
        {
            let inp = tx.inputs[j];
            assert(tx.inputs@.subrange(0, j + 1).drop_last() =~= tx.inputs@.subrange(0, j as int));
            assert(tx.inputs@.subrange(0, j + 1).last() == inp);
            match find_tx_ref(blocks, &inp.prev_tx_hash) {
                Some(prev) => {
                    let idx = inp.prev_output_index as usize;
                    if idx < prev.outputs.len() {
                        utxo_insert(v, &inp.prev_tx_hash, inp.prev_output_index, prev.outputs[idx]);
                    }
                },
                None => {},
            }
            j = j + 1;
        }
        assert(tx.inputs@.subrange(0, tx.inputs@.len() as int) =~= tx.inputs@);
        i = i - 1;
    }
    assert(txs@.subrange(0, 0) =~= Seq::<Transaction>::empty());
}

} // verus!
