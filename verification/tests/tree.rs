use crypto::digest::Digest;
use crypto::sha2::Sha256;
use tree_hash::tree::{build, hash_range, merge, BlockNode, TreeHashError};

const MIB: u64 = 1048576;

fn make_source(n: usize) -> Vec<u8> {
    let mut v = Vec::with_capacity(n);
    for i in 0..n {
        v.push((i % 251) as u8);
    }
    v
}

fn sha256_hex_direct(data: &[u8]) -> String {
    let mut sha = Sha256::new();
    sha.input(data);
    sha.result_str()
}

fn sum_leaf_sizes(n: &BlockNode) -> u64 {
    if n.children.is_empty() {
        n.size
    } else {
        n.children.iter().map(sum_leaf_sizes).sum()
    }
}

#[test]
fn test_single_leaf_build() {
    let src = make_source(424);
    let root = build(&src, 424, 0).unwrap();
    let chunk = hash_range(&src, 0, 424);
    assert_eq!(root.digest, chunk);
    assert_eq!(root.leaf_digests, vec![chunk]);
    assert!(root.children.is_empty());
    assert_eq!(root.size, 424);
    assert_eq!(root.offset, 0);
}

#[test]
fn test_leaf_sizes_sum_to_root_size() {
    for &n in &[424u64, MIB, 1500000, 2097152, 3000000, 5000000] {
        let src = make_source(n as usize);
        let root = build(&src, n, 0).unwrap();
        assert_eq!(sum_leaf_sizes(&root), n);
        assert_eq!(root.size, n);
    }
}

#[test]
fn test_leaf_digest_count() {
    for &(n, want) in &[
        (424u64, 1usize),
        (MIB, 1),
        (MIB + 1, 2),
        (1500000, 2),
        (2097152, 2),
        (3000000, 3),
        (5000000, 5),
    ] {
        let src = make_source(n as usize);
        let root = build(&src, n, 0).unwrap();
        assert_eq!(root.leaf_digests.len(), want, "size {}", n);
    }
}

#[test]
fn test_determinism() {
    let src = make_source(3000000);
    let a = build(&src, 3000000, 0).unwrap();
    let b = build(&src, 3000000, 0).unwrap();
    assert_eq!(a.digest, b.digest);
    assert_eq!(a.leaf_digests, b.leaf_digests);
}

#[test]
fn test_merge_is_order_sensitive() {
    let a = sha256_hex_direct(b"left");
    let b = sha256_hex_direct(b"right");
    let ab = merge(a.clone(), b.clone());
    let ba = merge(b.clone(), a.clone());
    assert_ne!(ab, ba);
}

#[test]
fn test_merge_digests_concatenated_text() {
    let a = sha256_hex_direct(b"left");
    let b = sha256_hex_direct(b"right");
    let m = merge(a.clone(), b.clone());
    let mut cat = a.clone();
    cat.push_str(&b);
    assert_eq!(m, sha256_hex_direct(cat.as_bytes()));
    assert_ne!(m, a);
    assert_ne!(m, b);
}

#[test]
fn test_two_mebibyte_split() {
    let n = 2097152u64;
    let src = make_source(n as usize);
    let root = build(&src, n, 0).unwrap();
    assert_eq!(root.children.len(), 2);
    assert_eq!(root.children[0].size, MIB);
    assert_eq!(root.children[0].offset, 0);
    assert_eq!(root.children[1].size, MIB);
    assert_eq!(root.children[1].offset, MIB);
    let merged = merge(
        root.children[0].digest.clone(),
        root.children[1].digest.clone(),
    );
    assert_eq!(root.digest, merged);
}

#[test]
fn test_small_internal_split() {
    let n = 1500000u64;
    let src = make_source(n as usize);
    let root = build(&src, n, 0).unwrap();
    assert_eq!(root.children.len(), 2);
    assert_eq!(root.children[0].offset, 0);
    assert_eq!(root.children[0].size, 1048576);
    assert_eq!(root.children[1].offset, 1048576);
    assert_eq!(root.children[1].size, 451424);
    assert_eq!(
        root.leaf_digests,
        vec![
            root.children[0].digest.clone(),
            root.children[1].digest.clone()
        ]
    );
}

#[test]
fn test_large_tail_split() {
    let n = 3000000u64;
    let src = make_source(n as usize);
    let root = build(&src, n, 0).unwrap();
    assert_eq!(root.children.len(), 2);
    assert_eq!(root.children[0].offset, 0);
    assert_eq!(root.children[0].size, 2097152);
    assert_eq!(root.children[1].offset, 2097152);
    assert_eq!(root.children[1].size, 902848);
    // With a top-level offset of zero the tail child's absolute offset
    // rule coincides with the correct position, so the tail subtree
    // equals a build over that subrange alone.
    let tail = build(&src, 902848, 2097152).unwrap();
    assert_eq!(root.children[1].digest, tail.digest);
    let merged = merge(root.children[0].digest.clone(), tail.digest.clone());
    assert_eq!(root.digest, merged);
}

#[test]
fn test_leaf_is_zero_padded() {
    let src = make_source(424);
    let leaf = hash_range(&src, 0, 424);
    // The digest is over the whole one-mebibyte zero-initialized buffer,
    // not over the 424 real bytes alone.
    assert_ne!(leaf, sha256_hex_direct(&src));
    let mut padded = vec![0u8; MIB as usize];
    padded[..424].copy_from_slice(&src);
    assert_eq!(leaf, sha256_hex_direct(&padded));
}

#[test]
fn test_hash_range_mid_file() {
    let src = make_source(3000000);
    let d = hash_range(&src, 2097152, 902848);
    let mut padded = vec![0u8; MIB as usize];
    padded[..902848].copy_from_slice(&src[2097152..3000000]);
    assert_eq!(d, sha256_hex_direct(&padded));
    assert_eq!(d.len(), 64);
}

#[test]
fn test_leaf_digests_are_aligned_chunk_digests() {
    let n = 3000000u64;
    let src = make_source(n as usize);
    let root = build(&src, n, 0).unwrap();
    assert_eq!(
        root.leaf_digests,
        vec![
            hash_range(&src, 0, MIB),
            hash_range(&src, MIB, MIB),
            hash_range(&src, 2 * MIB, n - 2 * MIB),
        ]
    );
}

fn expect_invalid_range(r: Result<BlockNode, TreeHashError>, offset: u64, length: u64) {
    match r {
        Ok(_) => panic!("expected an InvalidRange error"),
        Err(e) => assert_eq!(e, TreeHashError::InvalidRange { offset, length }),
    }
}

#[test]
fn test_invalid_ranges() {
    let src = make_source(1000);
    expect_invalid_range(build(&src, 0, 0), 0, 0);
    expect_invalid_range(build(&src, 1001, 0), 0, 1001);
    expect_invalid_range(build(&src, 1000, 1), 1, 1000);
    assert!(build(&src, 1000, 0).is_ok());
}
