use erdfa::homomorphic_mixer::{TransactionPool, UserTransaction};

fn user(id: &str, data: Vec<u8>, shard: Option<u8>) -> UserTransaction {
    UserTransaction { user_id: id.to_string(), payment_data: data, shard_id: shard }
}

#[test]
fn test_transaction_pooling() {
    let mut pool = TransactionPool::new();
    pool.add_transaction(user("alice", vec![1, 2, 3], Some(1)));
    pool.add_transaction(user("bob", vec![4, 5, 6], Some(2)));
    pool.add_transaction(user("carol", vec![7, 8, 9], Some(3)));
    assert_eq!(pool.mixed.len(), 1);
    assert_eq!(pool.credits.len(), 3);
    assert_eq!(pool.get_user_credits("alice"), 100);
}

#[test]
fn mixing_combines_batch_of_three() {
    let mut pool = TransactionPool::new();
    pool.add_transaction(user("a", vec![1], None));
    pool.add_transaction(user("b", vec![2, 3], Some(9)));
    assert_eq!(pool.pending.len(), 2);
    assert!(pool.mixed.is_empty());
    pool.add_transaction(user("c", vec![], Some(4)));
    assert!(pool.pending.is_empty());
    let m = &pool.mixed[0];
    assert_eq!(m.users, vec!["a".to_string(), "b".to_string(), "c".to_string()]);
    assert_eq!(m.shards, vec![9, 4]);
    assert_eq!(m.combined_data, vec![1, 2, 3]);
    assert_eq!(m.homomorphic_proof, b"homomorphic_proof_3".to_vec());
    // shards pair with users in order, so "a" is credited for shard 9
    assert_eq!(pool.credits.len(), 2);
    assert_eq!(pool.credits[0].user_id, "a");
    assert_eq!(pool.credits[0].shard_id, 9);
    assert_eq!(pool.get_user_credits("a"), 100);
    assert_eq!(pool.get_user_credits("c"), 0);
    let ready = pool.ready_for_bitcoin();
    assert_eq!(ready.len(), 1);
    assert_eq!(ready[0].combined_data, vec![1, 2, 3]);
}
