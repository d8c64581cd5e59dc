use erdfa::blockchain::{matches_predicate, FeeSchedule, MinerReward, SemanticBlockchain, SemanticTransaction};
use erdfa::crypto::{ChannelMatrix, ExtractionWitness};

fn tx(data: &[u8], fee: u64) -> SemanticTransaction {
    SemanticTransaction {
        rdfa_data: data.to_vec(),
        witness: ExtractionWitness::generate(data, &[0, 1, 2]),
        channel_matrix: ChannelMatrix::new(8),
        fee,
        timestamp: 0,
        signature: Vec::new(),
    }
}

#[test]
fn test_blockchain_creation() {
    let blockchain = SemanticBlockchain::new();
    assert_eq!(blockchain.get_block_count(), 1);
}

#[test]
fn test_fee_calculation() {
    let schedule = FeeSchedule { base_fee: 10, per_byte_fee: 1, per_channel_fee: 5, verification_fee: 20 };
    let tx = SemanticTransaction {
        rdfa_data: vec![0; 100],
        witness: ExtractionWitness::generate(&[0; 100], &[0, 1, 2]),
        channel_matrix: ChannelMatrix::new(8),
        fee: 0,
        timestamp: 0,
        signature: Vec::new(),
    };
    let fee = schedule.calculate_fee(&tx);
    assert_eq!(fee, 10 + 100 + 40 + 20);
}

#[test]
fn validation_checks_fee_and_witness() {
    let chain = SemanticBlockchain::new();
    let data = b"<div property=\"name\">Test</div>";
    // 31 bytes: 10 + 31 + 8 * 5 + 20 = 101
    assert!(!chain.validate_transaction(&tx(data, 100)));
    assert!(chain.validate_transaction(&tx(data, 101)));
    let mut forged = tx(data, 500);
    forged.rdfa_data[0] = b'X';
    assert!(!chain.validate_transaction(&forged));
}

#[test]
fn mining_moves_pool_into_block() {
    let mut chain = SemanticBlockchain::new();
    assert!(chain.mine_block(vec![1]).is_none());
    assert!(chain.add_transaction(tx(b"<div property=\"name\">Alice</div>", 200)));
    assert!(!chain.add_transaction(tx(b"cheap", 1)));
    assert!(chain.add_transaction(tx(b"ab", 150)));
    let block = chain.mine_block_at(vec![1, 2, 3, 4], 42).unwrap();
    assert_eq!(chain.get_block_count(), 2);
    assert_eq!(chain.get_total_transactions(), 2);
    assert!(chain.mempool.is_empty());
    assert_eq!(block.reward, 50 + 200 + 150);
    assert_eq!(block.header.timestamp, 42);
    assert_eq!(block.header.previous_hash, [0u8; 32]);
    assert_eq!(block.miner_address, vec![1, 2, 3, 4]);
    let mut want = [0u8; 32];
    for (i, b) in b"<div property=\"name\">Alice</div>".iter().enumerate() {
        want[i % 32] ^= b;
    }
    want[0] ^= b'a';
    want[1] ^= b'b';
    assert_eq!(block.merkle_root, want);
    assert_eq!(chain.chain[1].merkle_root, want);
}

#[test]
fn query_finds_mined_data() {
    let mut chain = SemanticBlockchain::new();
    chain.add_transaction(tx(b"<div property=\"foaf:name\">Bob</div>", 200));
    chain.add_transaction(tx(b"<div property=\"name\">Eve</div>", 200));
    assert!(chain.mine_block(vec![1, 2, 3, 4]).is_some());
    let results = chain.query_rdfa("foaf:name");
    assert_eq!(results.len(), 1);
    assert!(results[0].contains("Bob"));
    assert_eq!(chain.query_rdfa("property").len(), 2);
    assert_eq!(chain.query_rdfa("nothing").len(), 0);
}

#[test]
fn query_reads_invalid_utf8_lossily() {
    let mut chain = SemanticBlockchain::new();
    chain.add_transaction(tx(&[0xFF, b'o', b'k'], 200));
    chain.mine_block_at(vec![], 1);
    let results = chain.query_rdfa("ok");
    assert_eq!(results, vec!["\u{FFFD}ok".to_string()]);
}

#[test]
fn matches_predicate_substrings() {
    assert!(matches_predicate("abc", ""));
    assert!(matches_predicate("abc", "bc"));
    assert!(!matches_predicate("abc", "abcd"));
    assert!(!matches_predicate("abc", "ac"));
}

#[test]
fn miner_reward_total() {
    let r = MinerReward { block_reward: 50, transaction_fees: 7, storage_bonus: 3, verification_bonus: 1 };
    assert_eq!(r.total(), 61);
}
