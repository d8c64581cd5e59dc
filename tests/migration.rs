use erdfa::zk_migration::{encode_block_2, MigrationTracker, ShardMigration, ZKMigrationProof};

#[test]
fn test_migration_tracking() {
    let mut tracker = MigrationTracker::new();
    let migration = ShardMigration {
        shard_id: 1,
        testnet_hash: "0xabc123".to_string(),
        mainnet_hash: "0xabc123".to_string(),
        migrator: "alice".to_string(),
        timestamp: 1234567890,
    };
    tracker.track_migration(migration);
    assert!(tracker.verify_migration(1));
    assert_eq!(tracker.migrations.len(), 1);
    assert_eq!(tracker.zk_proofs.len(), 1);
    assert!(!tracker.block_2_data.is_empty());
}

#[test]
fn block_2_record_is_json_array() {
    let mut tracker = MigrationTracker::new();
    tracker.track_migration(ShardMigration {
        shard_id: 7,
        testnet_hash: "a".to_string(),
        mainnet_hash: "b".to_string(),
        migrator: "m".to_string(),
        timestamp: 0,
    });
    assert_eq!(tracker.zk_proofs[0].proof, b"zk_proof_a_b".to_vec());
    let text = String::from_utf8(tracker.block_2_data.clone()).unwrap();
    assert_eq!(
        text,
        "[{\"shard_id\":7,\"testnet_block\":0,\"mainnet_block\":2,\"proof\":[122,107,95,112,114,111,111,102,95,97,95,98],\"verified\":true}]"
    );
    assert!(!tracker.verify_migration(8));
    assert_eq!(tracker.get_migration_status(), "1/71 shards migrated to mainnet");
}

#[test]
fn block_2_record_of_several_proofs() {
    let proofs = vec![
        ZKMigrationProof { shard_id: 1, testnet_block: 0, mainnet_block: 2, proof: vec![], verified: false },
        ZKMigrationProof { shard_id: 2, testnet_block: 10, mainnet_block: 2, proof: vec![5], verified: true },
    ];
    let text = String::from_utf8(encode_block_2(&proofs)).unwrap();
    assert_eq!(
        text,
        "[{\"shard_id\":1,\"testnet_block\":0,\"mainnet_block\":2,\"proof\":[],\"verified\":false},{\"shard_id\":2,\"testnet_block\":10,\"mainnet_block\":2,\"proof\":[5],\"verified\":true}]"
    );
    assert_eq!(String::from_utf8(encode_block_2(&vec![])).unwrap(), "[]");
}
