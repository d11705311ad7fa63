use chainstate::chain::{ChainState, StorageError, MAX_FORK_DISTANCE, MAX_REORG_DEPTH};
use chainstate::store::{BlockchainDB, MetaKey};
use chainstate::types::{Block, Transaction, TxInput, TxOutput};
use chainstate::work::calculate_block_work;

fn fresh() -> ChainState {
    ChainState::new(BlockchainDB::new(), 1_000).unwrap()
}

fn diff(target: u32) -> u64 {
    u64::try_from(calculate_block_work(target)).unwrap_or(u64::MAX)
}

fn coinbase(amount: u64, tag: u8) -> Transaction {
    Transaction::new(vec![], vec![TxOutput { amount, lock: [tag; 32] }])
}

fn spend(prev: [u8; 32], index: u32, amount: u64, tag: u8) -> Transaction {
    Transaction::new(
        vec![TxInput { prev_tx_hash: prev, prev_output_index: index }],
        vec![TxOutput { amount, lock: [tag; 32] }],
    )
}

#[test]
fn test_chain_reorganization() {
    let mut chain_state = fresh();

    let genesis = Block::new(1, [0u8; 32], Vec::new(), u32::MAX);
    assert!(chain_state.process_block(genesis.clone(), 1_000).unwrap());
    let successor = Block::new(2, genesis.hash(), Vec::new(), u32::MAX);
    assert!(chain_state.process_block(successor.clone(), 1_000).unwrap());

    // A competing block with a lower target carries more work.
    let fork_block = Block::new(2, genesis.hash(), Vec::new(), u32::MAX / 2);
    let reorg_successful = chain_state.process_block(fork_block.clone(), 1_000).unwrap();
    assert!(reorg_successful);
    assert_eq!(chain_state.get_best_block_hash(), fork_block.hash());

    let mut deep_fork = fork_block.clone();
    for _ in 0..MAX_REORG_DEPTH + 1 {
        let prev_hash = deep_fork.hash();
        deep_fork = Block::new(deep_fork.height() + 1, prev_hash, Vec::new(), u32::MAX / 2);
    }
    let reorg_failed = !chain_state.process_block(deep_fork, 1_000).unwrap();
    assert!(reorg_failed);
    assert_eq!(chain_state.get_best_block_hash(), fork_block.hash());
}

#[test]
fn test_fork_validation() {
    let mut chain_state = fresh();

    let genesis = Block::new(1, [0u8; 32], Vec::new(), u32::MAX);
    chain_state.process_block(genesis.clone(), 1_000).unwrap();

    let valid_fork = Block::new(2, genesis.hash(), Vec::new(), u32::MAX / 2);
    assert!(chain_state.validate_block(&valid_fork));

    let mut invalid_fork = genesis.clone();
    for _ in 0..MAX_FORK_DISTANCE + 1 {
        invalid_fork =
            Block::new(invalid_fork.height() + 1, invalid_fork.hash(), Vec::new(), u32::MAX / 2);
    }
    assert!(!chain_state.validate_block(&invalid_fork));
}

#[test]
fn test_total_difficulty() {
    let mut chain_state = fresh();
    assert_eq!(chain_state.get_total_difficulty(), 0);

    let genesis = Block::new(1, [0u8; 32], Vec::new(), u32::MAX);
    chain_state.process_block(genesis.clone(), 1_000).unwrap();
    assert!(chain_state.get_total_difficulty() > 0);
}

#[test]
fn genesis_total_difficulty_is_its_work() {
    let mut cs = fresh();
    let g = Block::new(1, [0u8; 32], Vec::new(), u32::MAX);
    assert!(cs.process_block(g.clone(), 1_000).unwrap());
    assert_eq!(cs.get_total_difficulty(), diff(u32::MAX));
    assert_eq!(cs.get_total_difficulty(), u64::MAX);
    assert_eq!(cs.get_height(), 1);
    assert_eq!(cs.get_best_block_hash(), g.hash());
    assert_eq!(cs.get_chain_work(&g.hash()), Some(79228162532711081671548469));
}

#[test]
fn extension_moves_tip_and_adds_difficulty() {
    let mut cs = fresh();
    let g = Block::new(1, [0u8; 32], Vec::new(), u32::MAX);
    cs.process_block(g.clone(), 1_000).unwrap();
    let before = cs.get_total_difficulty();
    let b = Block::new(2, g.hash(), Vec::new(), 1000);
    assert!(cs.process_block(b.clone(), 1_000).unwrap());
    assert_eq!(cs.get_best_block_hash(), b.hash());
    assert_eq!(cs.get_height(), 2);
    assert_eq!(cs.get_total_difficulty(), before.saturating_add(diff(1000)));
    let work_g = calculate_block_work(u32::MAX);
    assert_eq!(cs.get_chain_work(&b.hash()), Some(work_g + calculate_block_work(1000)));
}

#[test]
fn readmission_is_a_no_op() {
    let mut cs = fresh();
    let g = Block::new(1, [0u8; 32], vec![coinbase(50, 1)], u32::MAX);
    assert!(cs.process_block(g.clone(), 1_000).unwrap());
    let (h, best, td) = (cs.get_height(), cs.get_best_block_hash(), cs.get_total_difficulty());
    assert!(!cs.process_block(g.clone(), 1_000).unwrap());
    assert_eq!(cs.get_height(), h);
    assert_eq!(cs.get_best_block_hash(), best);
    assert_eq!(cs.get_total_difficulty(), td);
}

#[test]
fn reorganization_replaces_outputs() {
    let mut cs = fresh();
    let cb = coinbase(50, 1);
    let g = Block::new(1, [0u8; 32], vec![cb.clone()], u32::MAX);
    cs.process_block(g.clone(), 1_000).unwrap();
    let pay = spend(cb.hash(), 0, 40, 2);
    let s = Block::new(2, g.hash(), vec![pay.clone()], u32::MAX);
    assert!(cs.process_block(s.clone(), 1_000).unwrap());
    assert!(cs.get_db().get_utxo(&cb.hash(), 0).is_none());
    assert!(cs.get_db().get_utxo(&pay.hash(), 0).is_some());
    let td_s = cs.get_total_difficulty();

    let cb2 = coinbase(25, 3);
    let f = Block::new(2, g.hash(), vec![cb2.clone()], u32::MAX / 2);
    assert!(cs.process_block(f.clone(), 1_000).unwrap());
    assert_eq!(cs.get_best_block_hash(), f.hash());
    assert_eq!(cs.get_height(), 2);
    assert_eq!(cs.get_reorg_count(), 1);
    // The spent output is back, the abandoned block's output is gone, and
    // the winning block's output is there.
    assert_eq!(cs.get_db().get_utxo(&cb.hash(), 0), Some(TxOutput { amount: 50, lock: [1; 32] }));
    assert!(cs.get_db().get_utxo(&pay.hash(), 0).is_none());
    assert_eq!(cs.get_db().get_utxo(&cb2.hash(), 0), Some(TxOutput { amount: 25, lock: [3; 32] }));
    assert_eq!(
        cs.get_total_difficulty(),
        td_s.saturating_sub(diff(u32::MAX)).saturating_add(diff(u32::MAX / 2))
    );
    let ev = cs.get_last_reorganization().unwrap();
    assert_eq!(ev.old_tip, s.hash());
    assert_eq!(ev.new_tip, f.hash());
    assert_eq!(ev.fork_point, g.hash());
    assert_eq!(ev.blocks_disconnected, 1);
    assert_eq!(ev.blocks_connected, 1);
    assert_eq!(ev.timestamp, 1_000);
    assert_eq!(cs.get_chain_work(&f.hash()), Some(
        calculate_block_work(u32::MAX) + calculate_block_work(u32::MAX / 2)
    ));
}

#[test]
fn lesser_work_fork_is_kept_aside() {
    let mut cs = fresh();
    let g = Block::new(1, [0u8; 32], Vec::new(), u32::MAX);
    cs.process_block(g.clone(), 1_000).unwrap();
    let s = Block::new(2, g.hash(), Vec::new(), u32::MAX / 2);
    cs.process_block(s.clone(), 1_000).unwrap();
    let td = cs.get_total_difficulty();
    let weaker = Block::new(2, g.hash(), Vec::new(), u32::MAX);
    assert!(!cs.process_block(weaker.clone(), 1_000).unwrap());
    assert_eq!(cs.get_best_block_hash(), s.hash());
    assert_eq!(cs.get_total_difficulty(), td);
    assert_eq!(cs.get_fork_points(), vec![g.hash()]);
    assert!(cs.get_db().has_block(&weaker.hash()));
}

#[test]
fn equal_work_fork_does_not_reorganize() {
    let mut cs = fresh();
    let g = Block::new(1, [0u8; 32], Vec::new(), u32::MAX);
    cs.process_block(g.clone(), 1_000).unwrap();
    let s = Block::new(2, g.hash(), Vec::new(), 500);
    cs.process_block(s.clone(), 1_000).unwrap();
    let twin = Block::new_at(2, g.hash(), Vec::new(), 500, 7);
    assert!(!cs.process_block(twin, 1_000).unwrap());
    assert_eq!(cs.get_best_block_hash(), s.hash());
}

#[test]
fn deep_reorganization_is_declined() {
    let mut cs = fresh();
    let g = Block::new(1, [0u8; 32], Vec::new(), u32::MAX);
    cs.process_block(g.clone(), 1_000).unwrap();
    let mut tip = g.clone();
    for _ in 0..MAX_REORG_DEPTH + 1 {
        tip = Block::new(tip.height() + 1, tip.hash(), Vec::new(), u32::MAX);
        assert!(cs.process_block(tip.clone(), 1_000).unwrap());
    }
    let mut side = g.clone();
    for _ in 0..MAX_REORG_DEPTH + 1 {
        side = Block::new_at(side.height() + 1, side.hash(), Vec::new(), u32::MAX, 1);
        assert!(!cs.process_block(side.clone(), 1_000).unwrap());
    }
    let (h, td) = (cs.get_height(), cs.get_total_difficulty());
    let heavier = Block::new_at(side.height() + 1, side.hash(), Vec::new(), u32::MAX, 1);
    assert!(!cs.process_block(heavier.clone(), 1_000).unwrap());
    assert_eq!(cs.get_best_block_hash(), tip.hash());
    assert_eq!(cs.get_height(), h);
    assert_eq!(cs.get_total_difficulty(), td);
    assert!(!cs.get_db().has_block(&heavier.hash()));
}

#[test]
fn distant_fork_is_declined_before_any_work() {
    let mut cs = fresh();
    let g = Block::new(1, [0u8; 32], Vec::new(), u32::MAX);
    cs.process_block(g.clone(), 1_000).unwrap();
    let orphan = Block::new(9, [5u8; 32], Vec::new(), 1);
    assert!(!cs.process_block(orphan.clone(), 1_000).unwrap());
    assert_eq!(cs.get_best_block_hash(), g.hash());
    assert!(!cs.get_db().has_block(&orphan.hash()));
    assert_eq!(cs.calculate_fork_distance(&orphan), None);
    let child = Block::new(5, g.hash(), Vec::new(), 1);
    assert_eq!(cs.calculate_fork_distance(&child), Some(0));
}

#[test]
fn double_spend_in_one_block_is_rejected() {
    let mut cs = fresh();
    let cb = coinbase(50, 1);
    let g = Block::new(1, [0u8; 32], vec![cb.clone()], u32::MAX);
    cs.process_block(g.clone(), 1_000).unwrap();
    let a = spend(cb.hash(), 0, 20, 2);
    let b = spend(cb.hash(), 0, 30, 3);
    let block = Block::new(2, g.hash(), vec![a, b], u32::MAX);
    assert_eq!(cs.process_block(block.clone(), 1_000), Err(StorageError::InvalidBlock));
    assert!(!cs.get_db().has_block(&block.hash()));
    assert_eq!(cs.get_height(), 1);
    assert!(cs.get_db().get_utxo(&cb.hash(), 0).is_some());
}

#[test]
fn unknown_output_is_rejected() {
    let mut cs = fresh();
    let g = Block::new(1, [0u8; 32], Vec::new(), u32::MAX);
    cs.process_block(g.clone(), 1_000).unwrap();
    let block = Block::new(2, g.hash(), vec![spend([4u8; 32], 0, 1, 1)], u32::MAX);
    assert!(!cs.validate_transactions(&block));
    assert_eq!(cs.process_block(block, 1_000), Err(StorageError::InvalidBlock));
}

#[test]
fn tampered_block_is_rejected() {
    let mut cs = fresh();
    let mut g = Block::new(1, [0u8; 32], Vec::new(), u32::MAX);
    g.target = 77;
    assert!(!g.validate());
    assert_eq!(cs.process_block(g, 1_000), Err(StorageError::InvalidBlock));
    assert_eq!(cs.get_height(), 0);
}

#[test]
fn missing_ancestor_is_reported() {
    let mut cs = fresh();
    let g = Block::new(1, [0u8; 32], Vec::new(), u32::MAX);
    cs.process_block(g.clone(), 1_000).unwrap();
    let stray = Block::new(2, [8u8; 32], Vec::new(), u32::MAX);
    assert_eq!(cs.calculate_chain_work(&stray), Err(StorageError::BlockNotFound));
    assert_eq!(cs.process_block(stray, 1_000), Err(StorageError::BlockNotFound));
    assert_eq!(cs.get_best_block_hash(), g.hash());
}

#[test]
fn disjoint_histories_have_no_fork_point() {
    let mut cs = fresh();
    let g = Block::new(1, [0u8; 32], Vec::new(), u32::MAX);
    cs.process_block(g.clone(), 1_000).unwrap();
    let other = Block::new_at(1, [0u8; 32], Vec::new(), 2, 9);
    assert_eq!(
        cs.find_fork_point(&other).err(),
        Some(StorageError::InvalidChainReorganization)
    );
}

#[test]
fn fork_point_search_lists_both_sides() {
    let mut cs = fresh();
    let g = Block::new(1, [0u8; 32], Vec::new(), u32::MAX);
    cs.process_block(g.clone(), 1_000).unwrap();
    let s2 = Block::new(2, g.hash(), Vec::new(), u32::MAX);
    cs.process_block(s2.clone(), 1_000).unwrap();
    let s3 = Block::new(3, s2.hash(), Vec::new(), u32::MAX);
    cs.process_block(s3.clone(), 1_000).unwrap();
    let f2 = Block::new_at(2, g.hash(), Vec::new(), u32::MAX, 3);
    cs.process_block(f2.clone(), 1_000).unwrap();
    let f3 = Block::new_at(3, f2.hash(), Vec::new(), u32::MAX, 3);
    cs.process_block(f3.clone(), 1_000).unwrap();
    let f4 = Block::new_at(4, f3.hash(), Vec::new(), u32::MAX, 3);
    let plan = cs.find_fork_point(&f4).unwrap();
    assert_eq!(plan.fork_point, g.hash());
    assert_eq!(plan.to_apply, vec![f4.hash(), f3.hash(), f2.hash()]);
    assert_eq!(plan.to_disconnect, vec![s3.hash(), s2.hash()]);
    assert!(cs.process_block(f4.clone(), 1_000).unwrap());
    assert_eq!(cs.get_best_block_hash(), f4.hash());
    assert_eq!(cs.get_height(), 4);
}

#[test]
fn chain_work_grows_along_the_chain() {
    let mut cs = fresh();
    let mut prev = Block::new(1, [0u8; 32], Vec::new(), 3_000_000_000);
    cs.process_block(prev.clone(), 1_000).unwrap();
    for (i, t) in [5u32, 900, 17, 4_000_000, 2, 1].iter().enumerate() {
        let b = Block::new(i as u64 + 2, prev.hash(), Vec::new(), *t);
        cs.process_block(b.clone(), 1_000).unwrap();
        let wp = cs.get_chain_work(&prev.hash()).unwrap();
        let wb = cs.get_chain_work(&b.hash()).unwrap();
        assert!(wp <= wb);
        prev = b;
    }
}

#[test]
fn stale_fork_points_are_pruned() {
    let mut cs = fresh();
    let g = Block::new_at(1, [0u8; 32], Vec::new(), u32::MAX, 100);
    cs.process_block(g.clone(), 100).unwrap();
    let s = Block::new(2, g.hash(), Vec::new(), u32::MAX / 2);
    cs.process_block(s.clone(), 100).unwrap();
    let weaker = Block::new(2, g.hash(), Vec::new(), u32::MAX);
    cs.process_block(weaker, 100).unwrap();
    assert_eq!(cs.get_fork_points(), vec![g.hash()]);
    cs.prune_fork_points(100 + 86_399);
    assert_eq!(cs.get_fork_points(), vec![g.hash()]);
    cs.prune_fork_points(100 + 86_400);
    assert!(cs.get_fork_points().is_empty());
}

#[test]
fn state_resumes_from_metadata() {
    let mut db = BlockchainDB::new();
    db.store_metadata(MetaKey::Height, vec![5, 0, 0, 0, 0, 0, 0, 0]);
    db.store_metadata(MetaKey::BestHash, vec![3u8; 32]);
    db.store_metadata(MetaKey::TotalDifficulty, vec![0, 1, 0, 0, 0, 0, 0, 0, 9]);
    db.store_metadata(MetaKey::GenesisHash, vec![6u8; 32]);
    let cs = ChainState::new(db, 0).unwrap();
    assert_eq!(cs.get_height(), 5);
    assert_eq!(cs.get_best_block_hash(), [3u8; 32]);
    assert_eq!(cs.get_total_difficulty(), 256);
    assert_eq!(cs.get_genesis_hash(), [6u8; 32]);
}

#[test]
fn persisted_height_is_little_endian() {
    let mut cs = fresh();
    let g = Block::new(1, [0u8; 32], Vec::new(), u32::MAX);
    cs.process_block(g.clone(), 1_000).unwrap();
    assert_eq!(cs.get_db().get_metadata(MetaKey::Height), Some(&vec![1, 0, 0, 0, 0, 0, 0, 0]));
    assert_eq!(cs.get_db().get_metadata(MetaKey::BestHash), Some(&g.hash().to_vec()));
}

#[test]
fn corrupt_metadata_is_a_serialization_error() {
    let mut db = BlockchainDB::new();
    db.store_metadata(MetaKey::Height, vec![1, 2, 3]);
    assert_eq!(ChainState::new(db, 0).err(), Some(StorageError::Serialization));
    let mut db = BlockchainDB::new();
    db.store_metadata(MetaKey::BestHash, vec![1, 2, 3]);
    assert_eq!(ChainState::new(db, 0).err(), Some(StorageError::Serialization));
}

#[test]
fn genesis_hash_falls_back_to_zero() {
    let mut db = BlockchainDB::new();
    db.store_metadata(MetaKey::GenesisHash, vec![1, 2]);
    let cs = ChainState::new(db, 0).unwrap();
    assert_eq!(cs.get_genesis_hash(), [0u8; 32]);
    assert_eq!(cs.get_total_difficulty(), 0);
    assert_eq!(cs.get_height(), 0);
    assert_eq!(cs.get_best_block_hash(), [0u8; 32]);
}

#[test]
fn block_at_height_walks_back_from_tip() {
    let mut cs = fresh();
    let g = Block::new(1, [0u8; 32], Vec::new(), u32::MAX);
    cs.process_block(g.clone(), 1_000).unwrap();
    let b2 = Block::new(2, g.hash(), Vec::new(), u32::MAX);
    cs.process_block(b2.clone(), 1_000).unwrap();
    let b3 = Block::new(3, b2.hash(), Vec::new(), u32::MAX);
    cs.process_block(b3.clone(), 1_000).unwrap();
    assert_eq!(cs.get_block_at_height(3).unwrap().hash(), b3.hash());
    assert_eq!(cs.get_block_at_height(2).unwrap().hash(), b2.hash());
    assert_eq!(cs.get_block_at_height(1).unwrap().hash(), g.hash());
    assert_eq!(cs.get_block_at_height(4).err(), Some(StorageError::BlockNotFound));
    assert_eq!(cs.get_block_at_height(0).err(), Some(StorageError::BlockNotFound));
}

#[test]
fn child_of_tip_at_any_height_is_admitted() {
    let mut cs = fresh();
    let g = Block::new(1, [0u8; 32], Vec::new(), 1000);
    cs.process_block(g.clone(), 1_000).unwrap();
    let s = Block::new(2, g.hash(), Vec::new(), 1000);
    cs.process_block(s.clone(), 1_000).unwrap();

    let high = Block::new(4, s.hash(), Vec::new(), 1000);
    assert!(cs.validate_block(&high));
    let td = cs.get_total_difficulty();
    assert!(cs.process_block(high.clone(), 1_000).unwrap());
    assert_eq!(cs.get_best_block_hash(), high.hash());
    assert_eq!(cs.get_height(), 4);
    assert_eq!(cs.get_total_difficulty(), td.saturating_add(diff(1000)));
    assert_eq!(cs.get_chain_work(&high.hash()), Some(3 * calculate_block_work(1000)));

    let low = Block::new(1, high.hash(), Vec::new(), u32::MAX);
    assert!(cs.validate_block(&low));
    assert!(!cs.process_block(low.clone(), 1_000).unwrap());
    assert_eq!(cs.get_best_block_hash(), high.hash());
    assert_eq!(cs.get_height(), 4);
    assert!(cs.get_db().has_block(&low.hash()));
    assert_eq!(
        cs.get_chain_work(&low.hash()),
        Some(3 * calculate_block_work(1000) + calculate_block_work(u32::MAX))
    );
}

#[test]
fn lighter_fork_after_restart_does_not_reorganize() {
    let mut cs = fresh();
    let g = Block::new(1, [0u8; 32], Vec::new(), u32::MAX);
    cs.process_block(g.clone(), 1_000).unwrap();
    let s = Block::new(2, g.hash(), Vec::new(), 1000);
    cs.process_block(s.clone(), 1_000).unwrap();
    let db = cs.into_db();
    let mut restarted = ChainState::new(db, 2_000).unwrap();
    assert_eq!(restarted.get_best_block_hash(), s.hash());
    assert_eq!(restarted.get_chain_work(&s.hash()), None);
    assert_eq!(
        restarted.tip_work(),
        Ok(calculate_block_work(u32::MAX) + calculate_block_work(1000))
    );
    let lighter = Block::new(2, g.hash(), Vec::new(), u32::MAX);
    assert!(!restarted.process_block(lighter.clone(), 2_000).unwrap());
    assert_eq!(restarted.get_best_block_hash(), s.hash());
    assert_eq!(restarted.get_height(), 2);
    assert_eq!(restarted.get_reorg_count(), 0);
    assert_eq!(restarted.get_fork_points(), vec![g.hash()]);
}

#[test]
fn tip_work_of_empty_chain_is_zero() {
    let cs = fresh();
    assert_eq!(cs.tip_work(), Ok(0));
}
