use merkle_vcs::digest::{Digest, DIGEST_SIZE};
use merkle_vcs::errors::Error;
use merkle_vcs::folding::fold_digests_vector_inplace;
use merkle_vcs::hashing::{Compressor, LeafHasher, MixingCompression, MixingLeafHasher};
use merkle_vcs::scheme::BinaryMerkleTreeScheme;
use merkle_vcs::transcript::TranscriptReader;

fn digest_from_seed(seed: u8) -> Digest {
    let bytes: Vec<u8> = (0..DIGEST_SIZE as u8).map(|i| i.wrapping_mul(7).wrapping_add(seed)).collect();
    Digest::from_bytes(bytes).expect("seeded digest bytes have the right length")
}

fn flip_bit(d: &Digest, byte: usize, bit: u32) -> Digest {
    let mut bytes = d.as_bytes().clone();
    bytes[byte] ^= 1u8 << bit;
    Digest::from_bytes(bytes).expect("flipping a bit keeps the length")
}

fn scheme() -> BinaryMerkleTreeScheme<MixingLeafHasher, MixingCompression> {
    BinaryMerkleTreeScheme::new(MixingLeafHasher, MixingCompression)
}

fn leaf_digests(data: &[u128], batch_size: usize) -> Vec<Digest> {
    data.chunks(batch_size).map(|chunk| MixingLeafHasher.hash_leaf(chunk)).collect()
}

/// Builds every layer of the tree, leaves first; the last layer is the root alone.
fn tree_layers(leaves: Vec<Digest>) -> Vec<Vec<Digest>> {
    let mut layers = vec![leaves];
    while layers.last().unwrap().len() > 1 {
        let prev = layers.last().unwrap();
        let next: Vec<Digest> = (0..prev.len() / 2)
            .map(|i| MixingCompression.compress(&prev[2 * i], &prev[2 * i + 1]))
            .collect();
        layers.push(next);
    }
    layers
}

fn root_of(data: &[u128], batch_size: usize) -> Digest {
    let mut digests = leaf_digests(data, batch_size);
    fold_digests_vector_inplace(&MixingCompression, &mut digests).expect("power-of-two leaf count");
    digests[0].clone()
}

fn sample_data(len: usize) -> Vec<u128> {
    (0..len as u128).map(|i| i * i + 11).collect()
}

#[test]
fn fold_is_deterministic() {
    let digests: Vec<Digest> = (0..4).map(digest_from_seed).collect();
    let mut first = digests.clone();
    let mut second = digests.clone();
    fold_digests_vector_inplace(&MixingCompression, &mut first).unwrap();
    fold_digests_vector_inplace(&MixingCompression, &mut second).unwrap();
    assert_eq!(first[0], second[0]);
}

#[test]
fn fold_matches_pairwise_compression() {
    let d: Vec<Digest> = (0..4).map(digest_from_seed).collect();
    let n01 = MixingCompression.compress(&d[0], &d[1]);
    let n23 = MixingCompression.compress(&d[2], &d[3]);
    let expected = MixingCompression.compress(&n01, &n23);
    let mut work = d.clone();
    fold_digests_vector_inplace(&MixingCompression, &mut work).unwrap();
    assert_eq!(work[0], expected);
}

#[test]
fn fold_is_order_sensitive() {
    let a = digest_from_seed(1);
    let b = digest_from_seed(2);
    let mut ab = vec![a.clone(), b.clone()];
    let mut ba = vec![b, a];
    fold_digests_vector_inplace(&MixingCompression, &mut ab).unwrap();
    fold_digests_vector_inplace(&MixingCompression, &mut ba).unwrap();
    assert_ne!(ab[0], ba[0]);
}

#[test]
fn fold_rejects_non_power_of_two_lengths() {
    let mut three: Vec<Digest> = (0..3).map(digest_from_seed).collect();
    assert_eq!(
        fold_digests_vector_inplace(&MixingCompression, &mut three),
        Err(Error::PowerOfTwoLengthRequired)
    );
    assert_eq!(three.len(), 3);
    let mut empty: Vec<Digest> = Vec::new();
    assert_eq!(
        fold_digests_vector_inplace(&MixingCompression, &mut empty),
        Err(Error::PowerOfTwoLengthRequired)
    );
}

#[test]
fn vector_verification_round_trip() {
    let data = sample_data(8);
    let root = root_of(&data, 2);
    assert_eq!(scheme().verify_vector(&root, &data, 2), Ok(()));
}

#[test]
fn vector_verification_rejects_changed_element() {
    let data = sample_data(8);
    let root = root_of(&data, 2);
    for i in 0..data.len() {
        let mut tampered = data.clone();
        tampered[i] ^= 1;
        assert_eq!(scheme().verify_vector(&root, &tampered, 2), Err(Error::InvalidProof));
    }
}

#[test]
fn vector_verification_rejects_wrong_root() {
    let data = sample_data(8);
    let wrong_root = flip_bit(&root_of(&data, 2), 17, 3);
    assert_eq!(scheme().verify_vector(&wrong_root, &data, 2), Err(Error::InvalidProof));
}

#[test]
fn vector_verification_rejects_bad_batch_size() {
    let data = sample_data(8);
    let root = root_of(&data, 2);
    assert_eq!(scheme().verify_vector(&root, &data, 3), Err(Error::IncorrectBatchSize));
    assert_eq!(scheme().verify_vector(&root, &data, 0), Err(Error::IncorrectBatchSize));
}

#[test]
fn vector_verification_rejects_non_power_of_two_leaf_count() {
    let data = sample_data(6);
    let root = digest_from_seed(9);
    assert_eq!(scheme().verify_vector(&root, &data, 2), Err(Error::PowerOfTwoLengthRequired));
    assert_eq!(scheme().verify_vector(&root, &[], 1), Err(Error::PowerOfTwoLengthRequired));
}

#[test]
fn single_leaf_tree_round_trip() {
    let data = sample_data(4);
    let root = root_of(&data, 4);
    assert_eq!(scheme().verify_vector(&root, &data, 4), Ok(()));
    assert_eq!(scheme().verify_layer(&root, 0, &[root.clone()]), Ok(()));
    let mut reader = TranscriptReader::new(Vec::new());
    assert_eq!(scheme().verify_opening(0, &data, 0, 0, &[root.clone()], &mut reader), Ok(()));
}

#[test]
fn layer_verification_accepts_every_true_layer() {
    let data = sample_data(8);
    let root = root_of(&data, 2);
    let layers = tree_layers(leaf_digests(&data, 2));
    let tree_depth = layers.len() - 1;
    for layer_depth in 0..=tree_depth {
        let layer = &layers[tree_depth - layer_depth];
        assert_eq!(scheme().verify_layer(&root, layer_depth, layer), Ok(()));
    }
}

#[test]
fn layer_verification_rejects_wrong_length() {
    let root = digest_from_seed(3);
    let layer = vec![digest_from_seed(4)];
    assert_eq!(scheme().verify_layer(&root, 1, &layer), Err(Error::IncorrectVectorLength));
}

#[test]
fn layer_verification_rejects_tampered_layer() {
    let data = sample_data(8);
    let root = root_of(&data, 2);
    let layers = tree_layers(leaf_digests(&data, 2));
    let mut layer = layers[1].clone();
    layer[1] = flip_bit(&layer[1], 0, 0);
    assert_eq!(scheme().verify_layer(&root, 1, &layer), Err(Error::InvalidProof));
}

/// The authentic sibling digests for `index`, leaf-ward first, down to the
/// layer `layer_depth` levels below the root.
fn auth_path(layers: &[Vec<Digest>], index: usize, layer_depth: usize) -> Vec<Digest> {
    let tree_depth = layers.len() - 1;
    (0..tree_depth - layer_depth).map(|k| layers[k][(index >> k) ^ 1].clone()).collect()
}

#[test]
fn opening_verification_accepts_every_true_path() {
    let data = sample_data(8);
    let batch_size = 2;
    let layers = tree_layers(leaf_digests(&data, batch_size));
    let tree_depth = layers.len() - 1;
    for layer_depth in 0..=tree_depth {
        let layer = &layers[tree_depth - layer_depth];
        for index in 0..layers[0].len() {
            let values = &data[index * batch_size..(index + 1) * batch_size];
            let mut reader = TranscriptReader::new(auth_path(&layers, index, layer_depth));
            assert_eq!(
                scheme().verify_opening(index, values, layer_depth, tree_depth, layer, &mut reader),
                Ok(())
            );
            assert_eq!(reader.remaining(), 0);
        }
    }
}

#[test]
fn opening_verification_degenerates_at_the_leaf_layer() {
    let data = sample_data(8);
    let layers = tree_layers(leaf_digests(&data, 2));
    let tree_depth = layers.len() - 1;
    let mut reader = TranscriptReader::new(Vec::new());
    assert_eq!(
        scheme().verify_opening(1, &data[2..4], tree_depth, tree_depth, &layers[0], &mut reader),
        Ok(())
    );
}

#[test]
fn opening_verification_rejects_any_flipped_sibling_bit() {
    let data = sample_data(8);
    let layers = tree_layers(leaf_digests(&data, 2));
    let tree_depth = layers.len() - 1;
    let root_layer = &layers[tree_depth];
    let index = 2;
    let path = auth_path(&layers, index, 0);
    for level in 0..path.len() {
        for byte in [0usize, 13, DIGEST_SIZE - 1] {
            for bit in [0u32, 4, 7] {
                let mut tampered = path.clone();
                tampered[level] = flip_bit(&tampered[level], byte, bit);
                let mut reader = TranscriptReader::new(tampered);
                assert_eq!(
                    scheme().verify_opening(index, &data[4..6], 0, tree_depth, root_layer, &mut reader),
                    Err(Error::InvalidProof)
                );
            }
        }
    }
}

#[test]
fn opening_verification_rejects_changed_values() {
    let data = sample_data(8);
    let layers = tree_layers(leaf_digests(&data, 2));
    let tree_depth = layers.len() - 1;
    let mut reader = TranscriptReader::new(auth_path(&layers, 0, 0));
    let wrong_values = [data[0] ^ 1, data[1]];
    assert_eq!(
        scheme().verify_opening(0, &wrong_values, 0, tree_depth, &layers[tree_depth], &mut reader),
        Err(Error::InvalidProof)
    );
}

#[test]
fn opening_verification_rejects_wrong_index() {
    let data = sample_data(8);
    let layers = tree_layers(leaf_digests(&data, 2));
    let tree_depth = layers.len() - 1;
    let mut reader = TranscriptReader::new(auth_path(&layers, 0, 0));
    assert_eq!(
        scheme().verify_opening(1, &data[0..2], 0, tree_depth, &layers[tree_depth], &mut reader),
        Err(Error::InvalidProof)
    );
}

#[test]
fn opening_verification_reports_out_of_range_index() {
    let data = sample_data(8);
    let layers = tree_layers(leaf_digests(&data, 2));
    let tree_depth = layers.len() - 1;
    for index in [4usize, 5, 1000] {
        let mut reader = TranscriptReader::new(auth_path(&layers, 0, 0));
        assert_eq!(
            scheme().verify_opening(index, &data[0..2], 0, tree_depth, &layers[tree_depth], &mut reader),
            Err(Error::IndexOutOfRange { max: 3 })
        );
        assert_eq!(reader.remaining(), 2);
    }
}

#[test]
fn opening_verification_reports_transcript_underrun() {
    let data = sample_data(8);
    let layers = tree_layers(leaf_digests(&data, 2));
    let tree_depth = layers.len() - 1;
    let mut short = auth_path(&layers, 0, 0);
    short.pop();
    let mut reader = TranscriptReader::new(short);
    assert_eq!(
        scheme().verify_opening(0, &data[0..2], 0, tree_depth, &layers[tree_depth], &mut reader),
        Err(Error::TranscriptUnderrun)
    );
    assert_eq!(reader.remaining(), 1);
}

#[test]
fn proof_size_matches_the_formula() {
    assert_eq!(scheme().proof_size(16, 5, 1), Ok(((4 - 1 - 1) * 5 + 2) * 32));
    assert_eq!(scheme().proof_size(16, 5, 1), Ok(384));
    assert_eq!(scheme().proof_size(16, 1, 0), Ok(((4 - 0 - 1) * 1 + 1) * 32));
    assert_eq!(scheme().proof_size(2, 7, 0), Ok(((1 - 0 - 1) * 7 + 1) * 32));
}

#[test]
fn proof_size_reports_shape_errors() {
    assert_eq!(scheme().proof_size(10, 5, 1), Err(Error::PowerOfTwoLengthRequired));
    assert_eq!(scheme().proof_size(0, 5, 1), Err(Error::PowerOfTwoLengthRequired));
    assert_eq!(scheme().proof_size(16, 5, 5), Err(Error::IncorrectLayerDepth));
}

#[test]
fn optimal_verify_layer_follows_the_heuristic() {
    assert_eq!(scheme().optimal_verify_layer(5, 10), 3);
    assert_eq!(scheme().optimal_verify_layer(2000, 8), 8);
    assert_eq!(scheme().optimal_verify_layer(1, 10), 0);
    assert_eq!(scheme().optimal_verify_layer(2, 10), 1);
    assert_eq!(scheme().optimal_verify_layer(16, 10), 4);
}

#[test]
fn digest_construction_checks_length() {
    assert!(Digest::from_bytes(vec![0u8; DIGEST_SIZE - 1]).is_none());
    assert!(Digest::from_bytes(vec![0u8; DIGEST_SIZE + 1]).is_none());
    let bytes: Vec<u8> = (0..DIGEST_SIZE as u8).collect();
    let d = Digest::from_bytes(bytes.clone()).unwrap();
    assert_eq!(d.as_bytes(), &bytes);
    assert_eq!(d, d.clone());
    assert_ne!(d, Digest::default());
    assert_eq!(Digest::default().as_bytes(), &vec![0u8; DIGEST_SIZE]);
}

#[test]
fn leaf_hashing_depends_on_every_element_and_on_length() {
    let a = MixingLeafHasher.hash_leaf(&[1, 2]);
    assert_eq!(a, MixingLeafHasher.hash_leaf(&[1, 2]));
    assert_ne!(a, MixingLeafHasher.hash_leaf(&[1, 3]));
    assert_ne!(a, MixingLeafHasher.hash_leaf(&[2, 2]));
    assert_ne!(a, MixingLeafHasher.hash_leaf(&[2, 1]));
    assert_ne!(a, MixingLeafHasher.hash_leaf(&[1, 2, 0]));
    assert_ne!(MixingLeafHasher.hash_leaf(&[]), MixingLeafHasher.hash_leaf(&[0]));
}

#[test]
fn compression_is_not_the_identity() {
    let a = digest_from_seed(1);
    let b = digest_from_seed(2);
    let c = MixingCompression.compress(&a, &b);
    assert_ne!(c, a);
    assert_ne!(c, b);
}

#[test]
fn transcript_reader_reads_in_order() {
    let digests: Vec<Digest> = (0..5).map(digest_from_seed).collect();
    let mut reader = TranscriptReader::new(digests.clone());
    assert_eq!(reader.remaining(), 5);
    let first = reader.read_vec(2).unwrap();
    assert_eq!(first, digests[0..2].to_vec());
    assert_eq!(reader.remaining(), 3);
    let second = reader.read_vec(3).unwrap();
    assert_eq!(second, digests[2..5].to_vec());
    assert_eq!(reader.remaining(), 0);
    assert_eq!(reader.read_vec(1), Err(Error::TranscriptUnderrun));
    assert_eq!(reader.read_vec(0), Ok(Vec::new()));
}

#[test]
fn transcript_underrun_leaves_the_cursor_in_place() {
    let digests: Vec<Digest> = (0..3).map(digest_from_seed).collect();
    let mut reader = TranscriptReader::new(digests.clone());
    assert_eq!(reader.read_vec(4), Err(Error::TranscriptUnderrun));
    assert_eq!(reader.remaining(), 3);
    assert_eq!(reader.read_vec(3).unwrap(), digests);
}
