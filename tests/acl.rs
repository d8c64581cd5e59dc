use erdfa::acl::{AccessLevel, LayeredACL, LayeredSemanticTransaction, NestedEncryption};

#[test]
fn test_acl_creation() {
    let acl = LayeredACL::new(vec![1, 2, 3]);
    assert_eq!(acl.layer_count(), 1);
}

#[test]
fn test_add_layers() {
    let mut acl = LayeredACL::new(vec![1, 2, 3]);
    acl.add_layer(AccessLevel::Authenticated, vec![vec![4, 5, 6]], 1, vec![7, 8, 9]);
    assert_eq!(acl.layer_count(), 2);
}

#[test]
fn test_access_control() {
    let mut acl = LayeredACL::new(vec![1, 2, 3]);
    let auth_key = vec![4, 5, 6];
    acl.add_layer(AccessLevel::Authenticated, vec![auth_key.clone()], 1, vec![7, 8, 9]);
    assert!(acl.can_access(0, &[]));
    assert!(!acl.can_access(1, &[]));
    assert!(acl.can_access(1, &[auth_key]));
}

#[test]
fn test_nested_encryption() {
    let mut acl = LayeredACL::new(vec![1, 2, 3]);
    acl.add_layer(AccessLevel::Authenticated, vec![vec![4, 5, 6]], 1, vec![10, 20, 30]);
    let data = "Secret message";
    let nested = NestedEncryption::encrypt_nested(data, &acl);
    assert_eq!(nested.layers.len(), 2);
}

#[test]
fn test_threshold_access() {
    let mut acl = LayeredACL::new(vec![1, 2, 3]);
    let key1 = vec![4, 5, 6];
    let key2 = vec![7, 8, 9];
    let key3 = vec![10, 11, 12];
    acl.add_layer(AccessLevel::Secret, vec![key1.clone(), key2.clone(), key3.clone()], 2, vec![13, 14, 15]);
    assert!(!acl.can_access(1, &[key1.clone()]));
    assert!(acl.can_access(1, &[key1.clone(), key2.clone()]));
    assert!(acl.can_access(1, &[key1, key2, key3]));
}

#[test]
fn public_tier_open_to_any_keys() {
    let mut acl = LayeredACL::new(vec![9]);
    acl.add_layer(AccessLevel::Private, vec![vec![1]], 1, vec![2]);
    assert!(acl.can_access(0, &[]));
    assert!(acl.can_access(0, &[vec![7, 7], vec![1]]));
}

#[test]
fn out_of_range_tier_is_closed() {
    let acl = LayeredACL::new(vec![9]);
    assert!(!acl.can_access(1, &[]));
    assert!(!acl.can_access(5, &[vec![1]]));
}

#[test]
fn access_counts_presented_keys_in_required_set() {
    let mut acl = LayeredACL::new(vec![]);
    let a = vec![1u8];
    let b = vec![2u8];
    acl.add_layer(AccessLevel::Subscriber, vec![a.clone(), b.clone()], 2, vec![5]);
    assert!(!acl.can_access(1, &[a.clone(), vec![3]]));
    assert!(acl.can_access(1, &[b.clone(), vec![3], a.clone()]));
    // a threshold above the key set size can never be met
    acl.add_layer(AccessLevel::Secret, vec![a.clone()], 2, vec![6]);
    assert!(!acl.can_access(2, &[a.clone(), b.clone()]));
}

#[test]
fn add_layer_returns_index_and_links_parent() {
    let mut acl = LayeredACL::new(vec![]);
    assert_eq!(acl.add_layer(AccessLevel::Authenticated, vec![], 0, vec![1]), 1);
    assert_eq!(acl.add_layer(AccessLevel::Secret, vec![], 0, vec![2]), 2);
    assert_eq!(acl.layers[0].parent_layer, None);
    assert_eq!(acl.layers[1].parent_layer, Some(0));
    assert_eq!(acl.layers[2].parent_layer, Some(1));
}

#[test]
fn blobs_compose_deeper_tier_masks() {
    let mut acl = LayeredACL::new(vec![]);
    acl.add_layer(AccessLevel::Authenticated, vec![], 0, vec![1]);
    acl.add_layer(AccessLevel::Secret, vec![], 0, vec![2, 4]);
    let nested = NestedEncryption::encrypt_nested("ab", &acl);
    // 'a' = 97, 'b' = 98
    assert_eq!(nested.layers[2], vec![97 ^ 2, 98 ^ 4]);
    assert_eq!(nested.layers[1], vec![97 ^ 2 ^ 1, 98 ^ 4 ^ 1]);
    assert_eq!(nested.layers[0], vec![97 ^ 2 ^ 1, 98 ^ 4 ^ 1]);
}

#[test]
fn two_tier_round_trip_recovers_plaintext() {
    let mut acl = LayeredACL::new(vec![1]);
    let k = vec![10u8, 20, 30];
    acl.add_layer(AccessLevel::Authenticated, vec![vec![4]], 1, k.clone());
    let nested = NestedEncryption::encrypt_nested("Layered data", &acl);
    assert_ne!(nested.layers[0], b"Layered data".to_vec());
    let plain = nested.decrypt_to_layer(1, &[vec![], k]).unwrap();
    assert_eq!(plain, b"Layered data".to_vec());
}

#[test]
fn decrypt_to_layer_needs_target_plus_one_keys() {
    let mut acl = LayeredACL::new(vec![1]);
    acl.add_layer(AccessLevel::Authenticated, vec![], 0, vec![3]);
    let nested = NestedEncryption::encrypt_nested("x", &acl);
    assert_eq!(nested.decrypt_to_layer(2, &[vec![], vec![3], vec![]]), None);
    assert_eq!(nested.decrypt_to_layer(1, &[vec![]]), None);
    assert_eq!(nested.decrypt_to_layer(0, &[]), None);
    assert_eq!(nested.decrypt_to_layer(0, &[vec![9]]), Some(nested.layers[0].clone()));
}

#[test]
fn decrypt_layer_with_empty_key_is_identity() {
    let mut acl = LayeredACL::new(vec![1]);
    acl.add_layer(AccessLevel::Authenticated, vec![], 0, vec![3]);
    let nested = NestedEncryption::encrypt_nested("hi", &acl);
    assert_eq!(nested.decrypt_layer(1, &[]), Some(nested.layers[1].clone()));
    assert_eq!(nested.decrypt_layer(1, &[3]), Some(b"hi".to_vec()));
    assert_eq!(nested.decrypt_layer(2, &[3]), None);
}

#[test]
fn transaction_gates_layers_by_keys() {
    let mut acl = LayeredACL::new(vec![1, 2, 3]);
    let key1 = vec![4, 5, 6];
    let enc_key1 = vec![10, 20, 30];
    acl.add_layer(AccessLevel::Authenticated, vec![key1.clone()], 1, enc_key1.clone());
    let tx = LayeredSemanticTransaction::new("Layered data", acl);
    assert_eq!(tx.access_layer(1, &[vec![], enc_key1.clone()]), None);
    assert_eq!(tx.access_layer(1, &[key1.clone()]), None);
    assert_eq!(tx.access_layer(1, &[key1.clone(), enc_key1.clone()]), Some(b"Layered data".to_vec()));
    assert_eq!(tx.access_layer(0, &[vec![]]), Some(tx.rdfa_data.clone()));
    assert!(tx.verify_layer(0));
    assert!(tx.verify_layer(1));
    assert!(!tx.verify_layer(2));
    assert_eq!(tx.witnesses[1].channels_used, vec![1]);
}
