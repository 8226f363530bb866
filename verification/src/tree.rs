//! The tree hash: a byte range is recursively partitioned into sub-ranges
//! by a fixed splitting policy, leaf chunks are digested over a
//! zero-padded one-mebibyte buffer, and child digests are folded into
//! parent digests by re-digesting the concatenation of their hexadecimal
//! renderings.

use vstd::prelude::*;
use vstd::arithmetic::div_mod::{
    lemma_fundamental_div_mod, lemma_div_multiples_vanish, lemma_div_multiples_vanish_fancy,
};
use crate::digest::{sha256_hex, sha256_hex_str, sha256_bytes_hex, sha256_text_hex};

verus! {

/// The fixed leaf-chunk size: one mebibyte. No range longer than this is
/// ever handed to the chunk hasher.
pub const LEAF_SIZE: u64 = 1048576;

/// Twice the leaf size: the threshold of the large splitting case.
pub const PAIR_SIZE: u64 = 2097152;

/// The exact input of a leaf-chunk digest: a one-mebibyte buffer whose
/// prefix holds the range's bytes and whose remainder keeps its initial
/// zero value. The zero padding is part of the digested input even for a
/// short final chunk.
pub open spec fn padded_chunk(source: Seq<u8>, offset: int, length: int) -> Seq<u8>
    recommends
        0 <= offset,
        0 < length <= LEAF_SIZE,
        offset + length <= source.len(),
{
    source.subrange(offset, offset + length) + Seq::new((LEAF_SIZE - length) as nat, |i: int| 0u8)
}

/// What the chunk hasher returns for a range: the digest of the whole
/// zero-padded buffer, not of the range's bytes alone.
pub open spec fn spec_chunk_digest(source: Seq<u8>, offset: int, length: int) -> Seq<char> {
    sha256_hex(padded_chunk(source, offset, length))
}

/// What the digest merger returns: the digest of the text `a` followed by
/// the text `b`. The order of the arguments matters.
pub open spec fn spec_merge(a: Seq<char>, b: Seq<char>) -> Seq<char> {
    sha256_hex_str(a + b)
}

/// The splitting policy for a range larger than one leaf, as
/// `(left_size, left_offset, right_size, right_offset)`:
/// - below two leaves, split off one full leaf at the front;
/// - at or above two leaves with a remainder modulo `PAIR_SIZE`, split
///   into the aligned head and the remainder tail, the tail placed at the
///   absolute offset `head` (not `offset + head`; this is only the same
///   position when `offset` is zero, and is preserved deliberately);
/// - at or above two leaves with no remainder, split exactly in half.
pub open spec fn spec_split(size: int, offset: int) -> (int, int, int, int)
    recommends
        size > LEAF_SIZE,
{
    if size < PAIR_SIZE {
        (LEAF_SIZE as int, offset, size - LEAF_SIZE, offset + LEAF_SIZE)
    } else {
        let tail = size % (PAIR_SIZE as int);
        let head = size - tail;
        if tail > 0 {
            (head, offset, tail, head)
        } else {
            (head / 2, offset, head / 2, offset + head / 2)
        }
    }
}

/// The root digest of a range: the leaf-chunk digest for a range of at
/// most one leaf, else the merge of the two sub-ranges' root digests in
/// left-to-right order.
pub open spec fn spec_root_digest(source: Seq<u8>, size: int, offset: int) -> Seq<char>
    recommends
        0 < size,
    decreases size,
{
    if size <= LEAF_SIZE {
        spec_chunk_digest(source, offset, size)
    } else {
        let (a_size, a_off, b_size, b_off) = spec_split(size, offset);
        spec_merge(
            spec_root_digest(source, a_size, a_off),
            spec_root_digest(source, b_size, b_off),
        )
    }
}

/// The ordered, flattened sequence of all leaf-chunk digests of a range,
/// in byte order.
pub open spec fn spec_leaf_digests(source: Seq<u8>, size: int, offset: int) -> Seq<Seq<char>>
    recommends
        0 < size,
    decreases size,
{
    if size <= LEAF_SIZE {
        seq![spec_chunk_digest(source, offset, size)]
    } else {
        let (a_size, a_off, b_size, b_off) = spec_split(size, offset);
        spec_leaf_digests(source, a_size, a_off) + spec_leaf_digests(source, b_size, b_off)
    }
}

/// Digests a single range of the source: the range's bytes are copied
/// into a one-mebibyte zero-initialized buffer and the whole buffer is
/// digested, padding included.
pub fn hash_range(source: &[u8], offset: u64, length: u64) -> (r: String)
    requires
        0 < length <= LEAF_SIZE,
        offset + length <= source@.len(),
    ensures
        r@ == spec_chunk_digest(source@, offset as int, length as int),
{
    let src_len: usize = source.len();
    assert(offset <= src_len && length <= src_len);
    let off: usize = offset as usize;
    let len: usize = length as usize;
    let cap: usize = LEAF_SIZE as usize;
    let mut buf: Vec<u8> = Vec::new();
    let mut i: usize = 0;
    while i < cap
        invariant
            i <= cap,
            cap == LEAF_SIZE,
            off as int == offset as int,
            len as int == length as int,
            0 < length <= LEAF_SIZE,
            offset + length <= source@.len(),
            source@.len() <= usize::MAX,
            buf@.len() == i,
            forall|k: int| 0 <= k < i && k < length ==> buf@[k] == source@[offset + k],
            forall|k: int| length <= k < i ==> buf@[k] == 0u8,
        decreases cap - i,
    {
        if i < len {
            buf.push(source[off + i]);
        } else {
            buf.push(0u8);
        }
        i += 1;
    }
    assert(buf@ =~= padded_chunk(source@, offset as int, length as int));
    sha256_bytes_hex(buf.as_slice())
}

/// Merges two digests: their hexadecimal texts are concatenated, `a`
/// first, and the concatenation is digested again.
pub fn merge(a: String, b: String) -> (r: String)
    ensures
        r@ == spec_merge(a@, b@),
{
    let m = a.concat(b.as_str());
    sha256_text_hex(m.as_str())
}

/// Why a build was rejected: the source could not be read, or the
/// requested range is empty or reaches past the end of the source.
#[derive(Clone, Copy, Debug, PartialEq, Eq, Structural)]
pub enum TreeHashError {
    IoError,
    InvalidRange { offset: u64, length: u64 },
}

/// A node of the tree built for one byte range.
///
/// `children` is the recursive split structure, in left-to-right byte
/// order; it is empty exactly at leaves. `leaf_digests` is the flattened,
/// ordered list of all leaf-chunk digests under this node, the value that
/// per-part checksum verification consumes.
pub struct BlockNode {
    pub digest: String,
    pub size: u64,
    pub offset: u64,
    pub children: Vec<BlockNode>,
    pub leaf_digests: Vec<String>,
}

/// The texts of a sequence of digest strings.
pub open spec fn digest_views(s: Seq<String>) -> Seq<Seq<char>> {
    s.map_values(|d: String| d@)
}

/// What a correctly built node for the range `(offset, size)` of `source`
/// holds: its own range, the range's root digest and flattened leaf
/// digests, and, below one leaf, no children, else exactly the two nodes
/// of the splitting policy, each correctly built in turn.
pub open spec fn node_ok(source: Seq<u8>, n: BlockNode, size: int, offset: int) -> bool
    recommends
        0 < size,
    decreases size,
{
    &&& n.size as int == size
    &&& n.offset as int == offset
    &&& n.digest@ == spec_root_digest(source, size, offset)
    &&& digest_views(n.leaf_digests@) == spec_leaf_digests(source, size, offset)
    &&& if size <= LEAF_SIZE {
        n.children@.len() == 0
    } else {
        let (a_size, a_off, b_size, b_off) = spec_split(size, offset);
        &&& n.children@.len() == 2
        &&& node_ok(source, n.children@[0], a_size, a_off)
        &&& node_ok(source, n.children@[1], b_size, b_off)
    }
}

/// Copies a list of digest strings.
fn clone_digests(v: &Vec<String>) -> (r: Vec<String>)
    ensures
        digest_views(r@) == digest_views(v@),
{
    let mut r: Vec<String> = Vec::new();
    let mut i: usize = 0;
    while i < v.len()
        invariant
            i <= v@.len(),
            r@.len() == i,
            forall|k: int| 0 <= k < i ==> r@[k]@ == v@[k]@,
        decreases v@.len() - i,
    {
        r.push(v[i].clone());
        i += 1;
    }
    proof {
        assert(digest_views(r@) =~= digest_views(v@));
    }
    r
}

/// Appends copies of `src`'s digest strings to `dst`, keeping order.
fn append_digests(dst: &mut Vec<String>, src: &Vec<String>)
    ensures
        digest_views(final(dst)@) == digest_views(old(dst)@) + digest_views(src@),
{
    let mut i: usize = 0;
    while i < src.len()
        invariant
            i <= src@.len(),
            dst@.len() == old(dst)@.len() + i,
            forall|k: int| 0 <= k < old(dst)@.len() ==> dst@[k] == old(dst)@[k],
            forall|k: int| 0 <= k < i ==> dst@[old(dst)@.len() + k]@ == src@[k]@,
        decreases src@.len() - i,
    {
        dst.push(src[i].clone());
        i += 1;
    }
    proof {
        assert(digest_views(dst@) =~= digest_views(old(dst)@) + digest_views(src@));
    }
}

/// Builds the tree for a range already known to lie inside the source.
/// Each internal node's two children cover the sub-ranges of the
/// splitting policy and are merged in left-to-right order.
fn build_tree(source: &[u8], size: u64, offset: u64) -> (r: BlockNode)
    requires
        0 < size,
        offset + size <= source@.len(),
    ensures
        node_ok(source@, r, size as int, offset as int),
    decreases size,
{
    let src_len: usize = source.len();
    assert(size <= src_len && offset <= src_len);
    if size <= LEAF_SIZE {
        let d = hash_range(source, offset, size);
        let mut leaf_digests: Vec<String> = Vec::new();
        leaf_digests.push(d.clone());
        let node = BlockNode {
            digest: d,
            size,
            offset,
            children: Vec::new(),
            leaf_digests,
        };
        proof {
            assert(digest_views(node.leaf_digests@) =~= spec_leaf_digests(
                source@,
                size as int,
                offset as int,
            ));
        }
        node
    } else {
        let (a_size, a_off, b_size, b_off): (u64, u64, u64, u64) = if size < PAIR_SIZE {
            (LEAF_SIZE, offset, size - LEAF_SIZE, offset + LEAF_SIZE)
        } else {
            let tail = size % PAIR_SIZE;
            let head = size - tail;
            if tail > 0 {
                (head, offset, tail, head)
            } else {
                (head / 2, offset, head / 2, offset + head / 2)
            }
        };
        proof {
            assert((a_size as int, a_off as int, b_size as int, b_off as int) == spec_split(
                size as int,
                offset as int,
            ));
        }
        let a = build_tree(source, a_size, a_off);
        let b = build_tree(source, b_size, b_off);
        let digest = merge(a.digest.clone(), b.digest.clone());
        let mut leaf_digests = clone_digests(&a.leaf_digests);
        append_digests(&mut leaf_digests, &b.leaf_digests);
        let mut children: Vec<BlockNode> = Vec::new();
        children.push(a);
        children.push(b);
        let node = BlockNode {
            digest,
            size,
            offset,
            children,
            leaf_digests,
        };
        node
    }
}

/// Builds the whole tree for the range `(offset, size)` of the source:
/// the entry point, called with the total length and offset zero. An
/// empty range, or one that reaches past the end of the source, is
/// rejected with `InvalidRange`.
pub fn build(source: &[u8], size: u64, offset: u64) -> (r: Result<BlockNode, TreeHashError>)
    ensures
        match r {
            Ok(node) => {
                &&& 0 < size
                &&& offset + size <= source@.len()
                &&& node_ok(source@, node, size as int, offset as int)
            },
            Err(e) => {
                &&& (size == 0 || offset + size > source@.len())
                &&& e == (TreeHashError::InvalidRange { offset, length: size })
            },
        },
{
    let src_len: u64 = source.len() as u64;
    if size == 0 || size > src_len || offset > src_len - size {
        Err(TreeHashError::InvalidRange { offset, length: size })
    } else {
        Ok(build_tree(source, size, offset))
    }
}

/// The total number of bytes covered by the leaf nodes of a subtree: the
/// node's own size at a leaf, else the sum over its two children.
pub open spec fn subtree_leaf_size_sum(n: BlockNode) -> int
    decreases n,
{
    if n.children@.len() != 2 {
        n.size as int
    } else {
        subtree_leaf_size_sum(n.children@[0]) + subtree_leaf_size_sum(n.children@[1])
    }
}

/// Law: a range at most one leaf long builds a single leaf node, whose
/// digest and sole leaf digest are both the chunk digest of the range.
pub proof fn lemma_single_leaf(source: Seq<u8>, n: BlockNode, size: int)
    requires
        0 < size <= LEAF_SIZE,
        node_ok(source, n, size, 0),
    ensures
        n.digest@ == spec_chunk_digest(source, 0, size),
        digest_views(n.leaf_digests@) == seq![spec_chunk_digest(source, 0, size)],
{
}

/// Law: over one source, any two correctly built trees for the same range
/// carry the same root digest and the same leaf-digest texts.
pub proof fn lemma_build_deterministic(
    source: Seq<u8>,
    n1: BlockNode,
    n2: BlockNode,
    size: int,
    offset: int,
)
    requires
        node_ok(source, n1, size, offset),
        node_ok(source, n2, size, offset),
    ensures
        n1.digest@ == n2.digest@,
        digest_views(n1.leaf_digests@) == digest_views(n2.leaf_digests@),
{
}

/// Law: the sizes of a tree's leaf nodes sum to the size of its root.
pub proof fn lemma_leaf_sizes_sum(source: Seq<u8>, n: BlockNode, size: int, offset: int)
    requires
        0 < size,
        node_ok(source, n, size, offset),
    ensures
        subtree_leaf_size_sum(n) == size,
    decreases size,
{
    if size <= LEAF_SIZE {
    } else {
        let (a_size, a_off, b_size, b_off) = spec_split(size, offset);
        lemma_leaf_sizes_sum(source, n.children@[0], a_size, a_off);
        lemma_leaf_sizes_sum(source, n.children@[1], b_size, b_off);
        if size >= PAIR_SIZE && size % (PAIR_SIZE as int) == 0 {
            let k = size / (PAIR_SIZE as int);
            lemma_fundamental_div_mod(size, PAIR_SIZE as int);
            assert(size == 2 * ((LEAF_SIZE as int) * k));
            lemma_div_multiples_vanish((LEAF_SIZE as int) * k, 2);
            assert(a_size + b_size == size);
        }
    }
}

/// Law: merging is order-sensitive at the digested input: two distinct
/// digest texts of equal length concatenate to different texts in the
/// two orders, so `merge(a, b)` and `merge(b, a)` digest different
/// inputs. (Nothing relates the outer digests themselves: the digest
/// function is not interpreted here.)
pub proof fn lemma_merge_order_matters(a: Seq<char>, b: Seq<char>)
    requires
        a.len() == b.len(),
        a != b,
    ensures
        a + b != b + a,
{
    if a + b == b + a {
        assert forall|i: int| 0 <= i < a.len() implies a[i] == b[i] by {
            assert((a + b)[i] == a[i]);
            assert((b + a)[i] == b[i]);
        }
        assert(a =~= b);
    }
}

/// Law: at every internal node of a correctly built tree there are
/// exactly two children; they cover the parent's bytes between them; the
/// parent's leaf digests are the children's, left then right; and the
/// parent's digest merges the children's digests in that same order.
pub proof fn lemma_internal_node_invariant(
    source: Seq<u8>,
    n: BlockNode,
    size: int,
    offset: int,
)
    requires
        size > LEAF_SIZE,
        node_ok(source, n, size, offset),
    ensures
        n.children@.len() == 2,
        n.children@[0].size + n.children@[1].size == size,
        digest_views(n.leaf_digests@) == digest_views(n.children@[0].leaf_digests@)
            + digest_views(n.children@[1].leaf_digests@),
        n.digest@ == spec_merge(n.children@[0].digest@, n.children@[1].digest@),
{
    let (a_size, a_off, b_size, b_off) = spec_split(size, offset);
    assert(node_ok(source, n.children@[0], a_size, a_off));
    assert(node_ok(source, n.children@[1], b_size, b_off));
    assert(spec_root_digest(source, size, offset) == spec_merge(
        spec_root_digest(source, a_size, a_off),
        spec_root_digest(source, b_size, b_off),
    ));
    assert(spec_leaf_digests(source, size, offset) == spec_leaf_digests(source, a_size, a_off)
        + spec_leaf_digests(source, b_size, b_off));
    if size >= PAIR_SIZE && size % (PAIR_SIZE as int) == 0 {
        let k = size / (PAIR_SIZE as int);
        lemma_fundamental_div_mod(size, PAIR_SIZE as int);
        assert(size == 2 * ((LEAF_SIZE as int) * k));
        lemma_div_multiples_vanish((LEAF_SIZE as int) * k, 2);
    }
}

/// Law: a range of `size` bytes yields exactly `ceil(size / LEAF_SIZE)`
/// leaf digests.
pub proof fn lemma_leaf_digest_count(source: Seq<u8>, size: int, offset: int)
    requires
        0 < size,
    ensures
        spec_leaf_digests(source, size, offset).len() == (size + LEAF_SIZE - 1) / (
        LEAF_SIZE as int),
    decreases size,
{
    let l = LEAF_SIZE as int;
    if size <= l {
        assert((size + l - 1) / l == 1) by {
            lemma_div_multiples_vanish_fancy(1, size - 1, l);
            assert(size + l - 1 == l * 1 + (size - 1));
        }
    } else {
        let (a_size, a_off, b_size, b_off) = spec_split(size, offset);
        lemma_leaf_digest_count(source, a_size, a_off);
        lemma_leaf_digest_count(source, b_size, b_off);
        if size < PAIR_SIZE {
            assert((a_size + l - 1) / l == 1) by {
                lemma_div_multiples_vanish_fancy(1, l - 1, l);
                assert(a_size + l - 1 == l * 1 + (l - 1));
            }
            assert((b_size + l - 1) / l == 1) by {
                lemma_div_multiples_vanish_fancy(1, b_size - 1, l);
                assert(b_size + l - 1 == l * 1 + (b_size - 1));
            }
            assert((size + l - 1) / l == 2) by {
                lemma_div_multiples_vanish_fancy(2, size - l - 1, l);
                assert(size + l - 1 == l * 2 + (size - l - 1));
            }
        } else {
            let tail = size % (PAIR_SIZE as int);
            let k = size / (PAIR_SIZE as int);
            lemma_fundamental_div_mod(size, PAIR_SIZE as int);
            assert(size == (PAIR_SIZE as int) * k + tail);
            if tail > 0 {
                assert(a_size == size - tail && a_size == (PAIR_SIZE as int) * k);
                assert((a_size + l - 1) / l == 2 * k) by {
                    lemma_div_multiples_vanish_fancy(2 * k, l - 1, l);
                    assert(a_size + l - 1 == l * (2 * k) + (l - 1));
                }
                if tail <= l {
                    assert((tail + l - 1) / l == 1) by {
                        lemma_div_multiples_vanish_fancy(1, tail - 1, l);
                        assert(tail + l - 1 == l * 1 + (tail - 1));
                    }
                    assert((size + l - 1) / l == 2 * k + 1) by {
                        lemma_div_multiples_vanish_fancy(2 * k + 1, tail - 1, l);
                        assert(size + l - 1 == l * (2 * k + 1) + (tail - 1));
                    }
                } else {
                    assert((tail + l - 1) / l == 2) by {
                        lemma_div_multiples_vanish_fancy(2, tail - l - 1, l);
                        assert(tail + l - 1 == l * 2 + (tail - l - 1));
                    }
                    assert((size + l - 1) / l == 2 * k + 2) by {
                        lemma_div_multiples_vanish_fancy(2 * k + 2, tail - l - 1, l);
                        assert(size + l - 1 == l * (2 * k + 2) + (tail - l - 1));
                    }
                }
            } else {
                assert(size == 2 * (l * k));
                lemma_div_multiples_vanish(l * k, 2);
                assert(a_size == l * k && b_size == l * k);
                assert((l * k + l - 1) / l == k) by {
                    lemma_div_multiples_vanish_fancy(k, l - 1, l);
                }
                assert((size + l - 1) / l == 2 * k) by {
                    lemma_div_multiples_vanish_fancy(2 * k, l - 1, l);
                    assert(size + l - 1 == l * (2 * k) + (l - 1));
                }
            }
        }
    }
}

/// Law: the number of entries in a correctly built root's `leaf_digests`
/// equals `ceil(size / LEAF_SIZE)`.
pub proof fn lemma_root_leaf_count(source: Seq<u8>, n: BlockNode, size: int, offset: int)
    requires
        0 < size,
        node_ok(source, n, size, offset),
    ensures
        n.leaf_digests@.len() == (size + LEAF_SIZE - 1) / (LEAF_SIZE as int),
{
    lemma_leaf_digest_count(source, size, offset);
    assert(digest_views(n.leaf_digests@).len() == n.leaf_digests@.len());
}

} // verus!
