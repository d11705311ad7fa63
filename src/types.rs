//! Blocks and transactions, with their content hashes.
use crate::hashing::{hash_eq, le32, le64, push_hash, push_le32, push_le64, sha256, sha256_of};
use vstd::prelude::*;

verus! {

/// A reference to an output of an earlier transaction.
#[derive(Clone, Copy, Debug, PartialEq, Eq)]
pub struct TxInput {
    pub prev_tx_hash: [u8; 32],
    pub prev_output_index: u32,
}

/// A spendable amount together with its locking condition.
#[derive(Clone, Copy, Debug, PartialEq, Eq)]
pub struct TxOutput {
    pub amount: u64,
    pub lock: [u8; 32],
}

/// A transaction: inputs spending earlier outputs, new outputs, and the hash
/// of that content.
#[derive(Clone, Debug)]
pub struct Transaction {
    pub inputs: Vec<TxInput>,
    pub outputs: Vec<TxOutput>,
    pub hash: [u8; 32],
}

/// A block: its height, its parent's hash, its transactions, its compact
/// difficulty target, its timestamp (seconds since the epoch) and the hash of
/// that content.
#[derive(Clone, Debug)]
pub struct Block {
    pub height: u64,
    pub prev_hash: [u8; 32],
    pub transactions: Vec<Transaction>,
    pub target: u32,
    pub timestamp: u64,
    pub hash: [u8; 32],
}

pub open spec fn input_bytes(i: TxInput) -> Seq<u8> {
    i.prev_tx_hash@ + le32(i.prev_output_index)
}

pub open spec fn output_bytes(o: TxOutput) -> Seq<u8> {
    le64(o.amount) + o.lock@
}

pub open spec fn inputs_bytes(s: Seq<TxInput>) -> Seq<u8>
    decreases s.len(),
{
    if s.len() == 0 {
        Seq::empty()
    } else {
        inputs_bytes(s.drop_last()) + input_bytes(s.last())
    }
}

pub open spec fn outputs_bytes(s: Seq<TxOutput>) -> Seq<u8>
    decreases s.len(),
{
    if s.len() == 0 {
        Seq::empty()
    } else {
        outputs_bytes(s.drop_last()) + output_bytes(s.last())
    }
}

/// The bytes a transaction's hash is taken over.
pub open spec fn tx_preimage(inputs: Seq<TxInput>, outputs: Seq<TxOutput>) -> Seq<u8> {
    inputs_bytes(inputs) + outputs_bytes(outputs)
}

pub open spec fn tx_hashes_bytes(s: Seq<Transaction>) -> Seq<u8>
    decreases s.len(),
{
    if s.len() == 0 {
        Seq::empty()
    } else {
        tx_hashes_bytes(s.drop_last()) + s.last().hash@
    }
}

/// The bytes a block's hash is taken over.
pub open spec fn block_preimage(
    height: u64,
    prev_hash: Seq<u8>,
    txs: Seq<Transaction>,
    target: u32,
    timestamp: u64,
) -> Seq<u8> {
    le64(height) + prev_hash + le32(target) + le64(timestamp) + tx_hashes_bytes(txs)
}

impl Transaction {
    /// The transaction's hash agrees with its content and it creates at least
    /// one output.
    pub open spec fn well_formed(&self) -> bool {
        &&& self.hash@ == sha256_of(tx_preimage(self.inputs@, self.outputs@))
        &&& self.outputs@.len() > 0
    }

    pub fn new(inputs: Vec<TxInput>, outputs: Vec<TxOutput>) -> (r: Transaction)
        ensures
            r.inputs@ == inputs@,
            r.outputs@ == outputs@,
            r.hash@ == sha256_of(tx_preimage(inputs@, outputs@)),
    {
        let hash = tx_content_hash(&inputs, &outputs);
        Transaction { inputs, outputs, hash }
    }

    pub fn hash(&self) -> (r: [u8; 32])
        ensures
            r == self.hash,
    {
        self.hash
    }

    pub fn inputs(&self) -> (r: &Vec<TxInput>)
        ensures
            r == &self.inputs,
    {
        &self.inputs
    }

    pub fn outputs(&self) -> (r: &Vec<TxOutput>)
        ensures
            r == &self.outputs,
    {
        &self.outputs
    }

    /// Checks that the hash agrees with the content and that there is at
    /// least one output.
    pub fn validate(&self) -> (r: bool)
        ensures
            r == self.well_formed(),
    {
        if self.outputs.len() == 0 {
            return false;
        }
        let h = tx_content_hash(&self.inputs, &self.outputs);
        hash_eq(&h, &self.hash)
    }
}

fn tx_content_hash(inputs: &Vec<TxInput>, outputs: &Vec<TxOutput>) -> (r: [u8; 32])
    ensures
        r@ == sha256_of(tx_preimage(inputs@, outputs@)),
{
    let mut buf: Vec<u8> = Vec::new();
    let mut i: usize = 0;
    while i < inputs.len()
        invariant
            0 <= i <= inputs@.len(),
            buf@ == inputs_bytes(inputs@.subrange(0, i as int)),
        decreases inputs@.len() - i,
    {
        let inp = inputs[i];
        push_hash(&mut buf, &inp.prev_tx_hash);
        push_le32(&mut buf, inp.prev_output_index);
        assert(inputs@.subrange(0, i + 1).drop_last() =~= inputs@.subrange(0, i as int));
        assert(buf@ =~= inputs_bytes(inputs@.subrange(0, i + 1)));
        i = i + 1;
    }
    assert(inputs@.subrange(0, inputs@.len() as int) =~= inputs@);
    let ghost mid = buf@;
    let mut j: usize = 0;
    while j < outputs.len()
        invariant
            0 <= j <= outputs@.len(),
            mid == inputs_bytes(inputs@),
            buf@ == mid + outputs_bytes(outputs@.subrange(0, j as int)),
        decreases outputs@.len() - j,
    {
        let out = outputs[j];
        push_le64(&mut buf, out.amount);
        push_hash(&mut buf, &out.lock);
        assert(outputs@.subrange(0, j + 1).drop_last() =~= outputs@.subrange(0, j as int));
        assert(buf@ =~= mid + outputs_bytes(outputs@.subrange(0, j + 1)));
        j = j + 1;
    }
    assert(outputs@.subrange(0, outputs@.len() as int) =~= outputs@);
    sha256(&buf)
}

fn block_content_hash(
    height: u64,
    prev_hash: &[u8; 32],
    txs: &Vec<Transaction>,
    target: u32,
    timestamp: u64,
) -> (r: [u8; 32])
    ensures
        r@ == sha256_of(block_preimage(height, prev_hash@, txs@, target, timestamp)),
{
    let mut buf: Vec<u8> = Vec::new();
    push_le64(&mut buf, height);
    push_hash(&mut buf, prev_hash);
    push_le32(&mut buf, target);
    push_le64(&mut buf, timestamp);
    let ghost head = buf@;
    let mut i: usize = 0;
    while i < txs.len()
        invariant
            0 <= i <= txs@.len(),
            head == le64(height) + prev_hash@ + le32(target) + le64(timestamp),
            buf@ == head + tx_hashes_bytes(txs@.subrange(0, i as int)),
        decreases txs@.len() - i,
    {
        push_hash(&mut buf, &txs[i].hash);
        assert(txs@.subrange(0, i + 1).drop_last() =~= txs@.subrange(0, i as int));
        assert(buf@ =~= head + tx_hashes_bytes(txs@.subrange(0, i + 1)));
        i = i + 1;
    }
    assert(txs@.subrange(0, txs@.len() as int) =~= txs@);
    sha256(&buf)
}

impl Block {
    /// The block's hash agrees with its content and so does every
    /// transaction's.
    pub open spec fn well_formed(&self) -> bool {
        &&& self.hash@ == sha256_of(
            block_preimage(
                self.height,
                self.prev_hash@,
                self.transactions@,
                self.target,
                self.timestamp,
            ),
        )
        &&& forall|i: int|
            0 <= i < self.transactions@.len() ==> (#[trigger] self.transactions@[i]).well_formed()
    }

    /// A block with timestamp zero.
    pub fn new(height: u64, prev_hash: [u8; 32], transactions: Vec<Transaction>, target: u32) -> (r:
        Block)
        ensures
            r.height == height,
            r.prev_hash == prev_hash,
            r.transactions@ == transactions@,
            r.target == target,
            r.timestamp == 0,
            r.hash@ == sha256_of(block_preimage(height, prev_hash@, transactions@, target, 0)),
    {
        Block::new_at(height, prev_hash, transactions, target, 0)
    }

    pub fn new_at(
        height: u64,
        prev_hash: [u8; 32],
        transactions: Vec<Transaction>,
        target: u32,
        timestamp: u64,
    ) -> (r: Block)
        ensures
            r.height == height,
            r.prev_hash == prev_hash,
            r.transactions@ == transactions@,
            r.target == target,
            r.timestamp == timestamp,
            r.hash@ == sha256_of(
                block_preimage(height, prev_hash@, transactions@, target, timestamp),
            ),
    {
        let hash = block_content_hash(height, &prev_hash, &transactions, target, timestamp);
        Block { height, prev_hash, transactions, target, timestamp, hash }
    }

    pub fn hash(&self) -> (r: [u8; 32])
        ensures
            r == self.hash,
    {
        self.hash
    }

    pub fn prev_block_hash(&self) -> (r: [u8; 32])
        ensures
            r == self.prev_hash,
    {
        self.prev_hash
    }

    pub fn height(&self) -> (r: u64)
        ensures
            r == self.height,
    {
        self.height
    }

    pub fn transactions(&self) -> (r: &Vec<Transaction>)
        ensures
            r == &self.transactions,
    {
        &self.transactions
    }

    /// The structural self-consistency check: every hash agrees with the
    /// content it covers and every transaction creates an output.
    pub fn validate(&self) -> (r: bool)
        ensures
            r == self.well_formed(),
    {
        let mut i: usize = 0;
        while i < self.transactions.len()
            invariant
                0 <= i <= self.transactions@.len(),
                forall|j: int| 0 <= j < i ==> (#[trigger] self.transactions@[j]).well_formed(),
            decreases self.transactions@.len() - i,
        {
            if !self.transactions[i].validate() {
                return false;
            }
            i = i + 1;
        }
        let h = block_content_hash(
            self.height,
            &self.prev_hash,
            &self.transactions,
            self.target,
            self.timestamp,
        );
        hash_eq(&h, &self.hash)
    }
}

} // verus!
