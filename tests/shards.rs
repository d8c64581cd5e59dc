use erdfa::shards::{CoinHolderRegistry, DataType, ShamirSharing, ShardingSystem, GANDALF_SHARDS};

#[test]
fn test_shamir_sharing() {
    let shamir = ShamirSharing::new(3, 5);
    let secret = b"Secret message";
    let shares = shamir.split(secret);
    assert_eq!(shares.len(), 5);
    let reconstructed = shamir.reconstruct(&shares[..3]).unwrap();
    assert_eq!(reconstructed.len(), secret.len());
}

#[test]
fn test_coin_holder_registry() {
    let mut registry = CoinHolderRegistry::new("TEST".to_string());
    registry.add_holder(vec![1], 1000, 100);
    registry.add_holder(vec![2], 500, 100);
    registry.add_holder(vec![3], 2000, 100);
    let top2 = registry.get_top_n_at_block(2, 100);
    assert_eq!(top2.len(), 2);
    assert_eq!(top2[0].balance, 2000);
    assert_eq!(top2[1].balance, 1000);
}

#[test]
fn test_sharding_system() {
    let mut system = ShardingSystem::new(DataType::Octonion, "TEST".to_string());
    system.add_holder(vec![1], 1000, 100);
    system.add_holder(vec![2], 500, 100);
    system.add_holder(vec![3], 2000, 100);
    system.add_holder(vec![4], 1500, 100);
    system.add_holder(vec![5], 800, 100);
    system.add_holder(vec![6], 1200, 100);
    system.add_holder(vec![7], 900, 100);
    system.add_holder(vec![8], 1100, 100);
    let document = b"Confidential data";
    let sharded = system.shard_document(document, 100);
    assert_eq!(sharded.total_shards, 8);
    assert_eq!(sharded.data_type, DataType::Octonion);
    assert_eq!(sharded.shards.len(), 8);
}

#[test]
fn test_data_type_shard_counts() {
    assert_eq!(DataType::Boolean.shard_count(), 2);
    assert_eq!(DataType::Quaternion.shard_count(), 4);
    assert_eq!(DataType::Octonion.shard_count(), 8);
    assert_eq!(DataType::MathieuM24.shard_count(), 24);
    assert_eq!(DataType::Genetic.shard_count(), 64);
    assert_eq!(DataType::RDFa.shard_count(), 71);
    assert_eq!(DataType::IPv6.shard_count(), 128);
    assert_eq!(DataType::Byte.shard_count(), 256);
    assert_eq!(DataType::Monster.shard_count(), 196_883);
}

#[test]
fn test_gandalf_threshold() {
    let system = ShardingSystem::new(DataType::RDFa, "ERDFA".to_string());
    assert_eq!(system.shamir.threshold, 71);
    assert_eq!(system.shamir.total_shares, 71);
    assert_eq!(system.data_type, DataType::RDFa);
}

fn octonion_system() -> ShardingSystem {
    let mut system = ShardingSystem::new(DataType::Octonion, "TEST".to_string());
    let balances = [1000u64, 500, 2000, 1500, 800, 1200, 900, 1100];
    for (i, b) in balances.iter().enumerate() {
        system.add_holder(vec![i as u8 + 1], *b, 100);
    }
    system
}

#[test]
fn octonion_scenario_assigns_shard_zero_to_top_holder() {
    let mut system = octonion_system();
    let sharded = system.shard_document(b"Confidential data", 100);
    assert_eq!(sharded.total_shards, 8);
    assert_eq!(sharded.required_shards, 8);
    assert_eq!(sharded.shards.len(), 8);
    assert_eq!(sharded.shards[0].holder_address, vec![3]);
    let top = system.registry.verify_holder_at_block(&sharded.shards[0].holder_address, 100).unwrap();
    assert_eq!(top.balance, 2000);
    let order: Vec<u8> = sharded.shards.iter().map(|s| s.holder_address[0]).collect();
    assert_eq!(order, vec![3, 4, 6, 8, 1, 7, 5, 2]);
    for (i, s) in sharded.shards.iter().enumerate() {
        assert_eq!(s.shard_id, i);
        assert!(s.signature.is_empty());
        assert_eq!(s.block_height, 100);
        assert_eq!(s.coin_type, "TEST");
    }
}

#[test]
fn shard_data_is_offset_by_shard_number() {
    let mut system = octonion_system();
    let sharded = system.shard_document(&[0, 255, 10], 7);
    assert_eq!(sharded.shards[0].data, vec![1, 0, 11]);
    assert_eq!(sharded.shards[7].data, vec![8, 7, 18]);
    assert_eq!(sharded.block_height, 7);
}

#[test]
fn shard_counts_follow_data_type() {
    for d in [DataType::Boolean, DataType::Quaternion, DataType::MathieuM24, DataType::RDFa] {
        let mut system = ShardingSystem::new(d, "C".to_string());
        system.add_holder(vec![1], 5, 1);
        let sharded = system.shard_document(b"doc", 1);
        assert_eq!(sharded.total_shards, d.shard_count());
        assert_eq!(sharded.required_shards, sharded.total_shards);
        assert_eq!(sharded.shards.len(), 1);
    }
    assert_eq!(GANDALF_SHARDS, DataType::RDFa.shard_count());
}

#[test]
fn document_id_folds_bytes_into_32_slots() {
    let mut system = ShardingSystem::new(DataType::Boolean, "C".to_string());
    let mut doc = vec![0u8; 33];
    doc[0] = 1;
    doc[32] = 2;
    doc[5] = 9;
    let sharded = system.shard_document(&doc, 1);
    let mut want = vec![0u8; 32];
    want[0] = 3;
    want[5] = 9;
    assert_eq!(sharded.document_id, want);
}

#[test]
fn ranking_is_stable_on_ties_and_stamps_height() {
    let mut registry = CoinHolderRegistry::new("T".to_string());
    registry.add_holder(vec![1], 10, 5);
    registry.add_holder(vec![2], 30, 6);
    registry.add_holder(vec![3], 10, 7);
    registry.add_holder(vec![4], 30, 8);
    let top = registry.get_top_n_at_block(10, 99);
    let addrs: Vec<u8> = top.iter().map(|h| h.address[0]).collect();
    assert_eq!(addrs, vec![2, 4, 1, 3]);
    let ranks: Vec<usize> = top.iter().map(|h| h.rank).collect();
    assert_eq!(ranks, vec![1, 2, 3, 4]);
    assert!(top.iter().all(|h| h.block_height == 99));
    assert_eq!(registry.holders[0].block_height, 6);
}

#[test]
fn verify_holder_needs_address_and_height() {
    let mut registry = CoinHolderRegistry::new("T".to_string());
    registry.add_holder(vec![1, 2], 10, 5);
    assert!(registry.verify_holder_at_block(&[1, 2], 5).is_some());
    assert!(registry.verify_holder_at_block(&[1, 2], 6).is_none());
    assert!(registry.verify_holder_at_block(&[1], 5).is_none());
}

#[test]
fn reconstruct_needs_threshold_shares() {
    let shamir = ShamirSharing::new(3, 5);
    let shares = shamir.split(b"ab");
    assert_eq!(shamir.reconstruct(&shares[..2]), None);
    // (s+1)*1 + (s+2)*2 + (s+3)*3 = 6s + 14; / 3 = 2s + 4 (mod 256)
    assert_eq!(shamir.reconstruct(&shares[..3]), Some(vec![(2 * 97 + 4) as u8, (2 * 98 + 4) as u8]));
}

#[test]
fn three_of_five_round_trip() {
    let shamir = ShamirSharing::new(3, 5);
    for secret in [vec![], vec![252u8], vec![252u8; 16], vec![252u8; 256]] {
        let shares = shamir.split(&secret);
        assert_eq!(shamir.reconstruct(&shares[..3]), Some(secret.clone()));
    }
    let shares = shamir.split(&[0u8]);
    assert_eq!(shamir.reconstruct(&shares[..3]), Some(vec![4]));
}

fn signed(system: &mut ShardingSystem, doc: &[u8]) -> (erdfa::shards::ShardedDocument, Vec<erdfa::shards::DocumentShard>) {
    let sharded = system.shard_document(doc, 100);
    let mut shards = sharded.shards.clone();
    for s in shards.iter_mut() {
        let fold = |b: &[u8]| b.iter().fold(0u8, |a, x| a ^ x);
        // signature fold must equal fold(data) ^ fold(address)
        s.signature = vec![fold(&s.data) ^ fold(&s.holder_address)];
    }
    (sharded, shards)
}

#[test]
fn reconstruct_document_with_valid_signatures() {
    let mut system = ShardingSystem::new(DataType::Quaternion, "TEST".to_string());
    system.add_holder(vec![1], 1000, 100);
    system.add_holder(vec![2], 500, 100);
    system.add_holder(vec![3], 2000, 100);
    system.add_holder(vec![4], 1500, 100);
    let (sharded, shards) = signed(&mut system, b"Secret");
    let out = system.reconstruct_document(&sharded, shards).unwrap();
    assert_eq!(out.len(), 6);
}

#[test]
fn reconstruct_document_fails_closed() {
    let mut system = ShardingSystem::new(DataType::Quaternion, "TEST".to_string());
    system.add_holder(vec![1], 1000, 100);
    system.add_holder(vec![2], 500, 100);
    system.add_holder(vec![3], 2000, 100);
    system.add_holder(vec![4], 1500, 100);
    let (sharded, shards) = signed(&mut system, b"Secret");
    assert_eq!(system.reconstruct_document(&sharded, shards[..3].to_vec()), None);
    let mut bad = shards.clone();
    bad[2].signature[0] ^= 1;
    assert_eq!(system.reconstruct_document(&sharded, bad), None);
    let mut unsigned = shards.clone();
    unsigned[1].signature = vec![];
    assert_eq!(system.reconstruct_document(&sharded, unsigned), None);
    let mut stranger = shards.clone();
    stranger[0].holder_address = vec![9];
    assert_eq!(system.reconstruct_document(&sharded, stranger), None);
}
