use erdfa::zkreach::{ZKReachProof, ZKReachTracker};

fn claim(shard: u8, target: &str, reacher: &str) -> ZKReachProof {
    ZKReachProof {
        shard_id: shard,
        source_platform: "Solana_Testnet".to_string(),
        target_platform: target.to_string(),
        source_hash: "0xabc".to_string(),
        target_hash: "0xabc".to_string(),
        reacher: reacher.to_string(),
        proof: vec![],
        timestamp: 1234567890,
    }
}

#[test]
fn test_zkreach() {
    let mut tracker = ZKReachTracker::new();
    let proof = ZKReachProof {
        shard_id: 1,
        source_platform: "Solana_Testnet".to_string(),
        target_platform: "Ethereum_Mainnet".to_string(),
        source_hash: "0xabc".to_string(),
        target_hash: "0xabc".to_string(),
        reacher: "alice".to_string(),
        proof: vec![],
        timestamp: 1234567890,
    };
    let reward = tracker.submit_reach(proof);
    assert_eq!(reward.reward_amount, 100);
    assert_eq!(reward.reach_score, 1);
    let (total_rewards, total_reach) = tracker.get_reacher_stats("alice");
    assert_eq!(total_rewards, 100);
    assert_eq!(total_reach, 1);
}

#[test]
fn repeated_platform_scores_nothing() {
    let mut tracker = ZKReachTracker::new();
    assert_eq!(tracker.submit_reach(claim(1, "Eth", "alice")).reach_score, 1);
    let again = tracker.submit_reach(claim(1, "Eth", "bob"));
    assert_eq!(again.reach_score, 0);
    assert_eq!(again.reward_amount, 0);
    assert_eq!(tracker.submit_reach(claim(2, "Eth", "bob")).reach_score, 1);
    assert_eq!(tracker.total_reach, 2);
    assert_eq!(tracker.get_reacher_stats("bob"), (100, 1));
}

#[test]
fn leaderboard_sorted_by_rewards() {
    let mut tracker = ZKReachTracker::new();
    tracker.submit_reach(claim(1, "A", "carol"));
    tracker.submit_reach(claim(1, "B", "dave"));
    tracker.submit_reach(claim(2, "B", "dave"));
    tracker.submit_reach(claim(1, "A", "erin"));
    tracker.submit_reach(claim(3, "C", "carol"));
    tracker.submit_reach(claim(4, "C", "erin"));
    let board = tracker.leaderboard();
    assert_eq!(
        board,
        vec![("carol".to_string(), 200, 2), ("dave".to_string(), 200, 2), ("erin".to_string(), 100, 1)]
    );
}
