use chainstate::store::BlockchainDB;
use chainstate::types::{Block, Transaction, TxInput, TxOutput};
use chainstate::work::{calculate_block_work, extract_target_from_block, MAX_BLOCK_WORK};

#[test]
fn block_hash_is_sha256_of_header() {
    let g = Block::new(1, [0u8; 32], Vec::new(), u32::MAX);
    assert_eq!(
        g.hash(),
        [
            196, 114, 188, 19, 201, 65, 26, 202, 218, 32, 157, 130, 222, 34, 104, 29, 120, 116,
            234, 196, 164, 113, 16, 114, 123, 90, 167, 170, 22, 255, 233, 244
        ]
    );
    assert!(g.validate());
}

#[test]
fn transaction_hash_is_sha256_of_content() {
    let tx = Transaction::new(
        vec![TxInput { prev_tx_hash: [7u8; 32], prev_output_index: 3 }],
        vec![TxOutput { amount: 50, lock: [9u8; 32] }],
    );
    assert_eq!(
        tx.hash(),
        [
            210, 133, 112, 94, 152, 156, 88, 217, 98, 248, 25, 190, 103, 59, 44, 247, 238, 45,
            117, 121, 50, 46, 17, 128, 30, 206, 141, 201, 97, 217, 130, 163
        ]
    );
    assert!(tx.validate());
}

#[test]
fn transaction_without_outputs_is_malformed() {
    let tx = Transaction::new(vec![], vec![]);
    assert!(!tx.validate());
    let b = Block::new(1, [0u8; 32], vec![tx], 5);
    assert!(!b.validate());
}

#[test]
fn block_work_formula() {
    assert_eq!(MAX_BLOCK_WORK, u128::MAX / 1000);
    assert_eq!(calculate_block_work(0), MAX_BLOCK_WORK);
    assert_eq!(calculate_block_work(1), MAX_BLOCK_WORK);
    assert_eq!(calculate_block_work(2), MAX_BLOCK_WORK / 2);
    assert_eq!(calculate_block_work(u32::MAX), 79228162532711081671548469);
    assert_eq!(calculate_block_work(u32::MAX / 2), 158456325102315651516285845);
}

#[test]
fn target_comes_from_the_block() {
    let b = Block::new(3, [1u8; 32], Vec::new(), 0x1d00ffff);
    assert_eq!(extract_target_from_block(&b), 0x1d00ffff);
}

#[test]
fn utxo_store_and_remove() {
    let mut db = BlockchainDB::new();
    let out = TxOutput { amount: 9, lock: [2u8; 32] };
    db.store_utxo(&[1u8; 32], 4, out);
    assert_eq!(db.get_utxo(&[1u8; 32], 4), Some(out));
    assert_eq!(db.get_utxo(&[1u8; 32], 5), None);
    let out2 = TxOutput { amount: 10, lock: [3u8; 32] };
    db.store_utxo(&[1u8; 32], 4, out2);
    assert_eq!(db.get_utxo(&[1u8; 32], 4), Some(out2));
    db.remove_utxo(&[1u8; 32], 4);
    assert_eq!(db.get_utxo(&[1u8; 32], 4), None);
}

#[test]
fn stored_transactions_are_found() {
    let mut db = BlockchainDB::new();
    let tx = Transaction::new(vec![], vec![TxOutput { amount: 1, lock: [0u8; 32] }]);
    let b = Block::new(1, [0u8; 32], vec![tx.clone()], 5);
    assert!(db.get_block(&b.hash()).is_none());
    db.insert_block(b.clone());
    assert_eq!(db.get_block(&b.hash()).map(|x| x.hash()), Some(b.hash()));
    assert_eq!(db.get_transaction(&tx.hash()).map(|t| t.hash()), Some(tx.hash()));
    assert!(db.get_transaction(&[9u8; 32]).is_none());
}
