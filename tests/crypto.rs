use erdfa::crypto::{ChannelMatrix, CryptoStegoSystem, ExtractionWitness, LatticeEncoder, ReedSolomonEncoder};

#[test]
fn test_channel_matrix() {
    let mut matrix = ChannelMatrix::new(8);
    let data = vec![1, 2, 3, 4, 5, 6, 7, 8];
    matrix.distribute(&data);
    assert_eq!(matrix.total_capacity(), 256);
    let extracted = matrix.extract(&[0, 1, 2, 3]);
    assert!(!extracted.is_empty());
}

#[test]
fn test_witness_verification() {
    let data = b"Test data";
    let channels = vec![0, 1, 2, 3];
    let witness = ExtractionWitness::generate(data, &channels);
    assert!(witness.verify(data));
    assert!(!witness.verify(b"Wrong data"));
}

#[test]
fn witness_commitment_and_proof() {
    let w = ExtractionWitness::generate(&[1, 2, 3], &[7, 7]);
    let mut want = [0u8; 32];
    want[0] = 1;
    want[1] = 2;
    want[2] = 3;
    assert_eq!(w.commitment, want);
    assert_eq!(w.proof, vec![1 ^ 7, 2 ^ 7]);
    assert_eq!(w.channels_used, vec![7, 7]);
    assert!(w.verify(&[1, 2, 3]));
    // a permutation within distinct slots changes the digest
    assert!(!w.verify(&[2, 1, 3]));
}

#[test]
fn reed_solomon_appends_rotated_parity() {
    let rs = ReedSolomonEncoder::new(4, 2);
    let encoded = rs.encode(&[0b1000_0001, 0b0000_0010]);
    assert_eq!(encoded.len(), 4);
    assert_eq!(encoded[..2], [0b1000_0001, 0b0000_0010]);
    assert_eq!(encoded[2], 0b1000_0011);
    assert_eq!(encoded[3], 0b0000_0011 ^ 0b0000_0100);
    assert_eq!(rs.decode(&encoded), Some(vec![0b1000_0001, 0b0000_0010]));
    assert_eq!(rs.decode(&[1]), None);
    assert!(rs.can_recover(2));
    assert!(!rs.can_recover(1));
}

#[test]
fn lattice_encode_and_decode_values() {
    let lattice = LatticeEncoder::new(2, 256);
    // b = 5: (5 + 0) * 3 + (5 + 1) * 4 + 5 % 3 = 41
    assert_eq!(lattice.encode(&[5], &[3, 4]), vec![41]);
    // (41 - 7) mod 256 = 34
    assert_eq!(lattice.decode(&[41], &[3, 4]), vec![34]);
    assert_eq!(lattice.decode(&[2], &[3, 4]), vec![251]);
    let negative = LatticeEncoder::new(1, 7);
    // (b + 0) * -2 + b % 3 = -20 + 1 = -19, and -19 % 7 = -5
    assert_eq!(negative.encode(&[10], &[-2]), vec![-5]);
}

#[test]
fn channel_matrix_round_robin() {
    let mut matrix = ChannelMatrix::new(3);
    matrix.distribute(&[1, 2, 3, 4, 5, 6, 7]);
    assert_eq!(matrix.data, vec![vec![1, 4, 7], vec![2, 5], vec![3, 6]]);
    assert_eq!(matrix.extract(&[2, 9, 0]), vec![3, 6, 1, 4, 7]);
    assert_eq!(matrix.total_capacity(), 8);
}

#[test]
fn stego_system_encode_shapes() {
    let system = CryptoStegoSystem::new(16, 8, 4, 8);
    let (matrix, witness) = system.encode(b"RDFa data", &[1, 2, 3, 4]);
    assert_eq!(system.channel_capacity(), 256);
    assert_eq!(matrix.channels, 8);
    let total: usize = matrix.data.iter().map(|c| c.len()).sum();
    assert_eq!(total, 9 + 8);
    assert_eq!(witness.channels_used, vec![0, 1, 2, 3, 4, 5, 6, 7]);
    assert!(witness.verify(b"RDFa data"));
    // the channels come back in channel order, not symbol order, so the witness rejects them
    assert_eq!(system.decode(&matrix, &[1, 2, 3, 4], &witness), None);
}
