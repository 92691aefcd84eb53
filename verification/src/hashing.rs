//! The two hash constructions of a bundle: the binding hash that ties a
//! sealed decision to its exchange transaction, and the binary SHA-256
//! Merkle root over an anchor's leaves.

use crate::codec::{
    hex_byte_value, hex_decode, hex_decoded, hex_digit, hex_encode, hex_lower, is_hex_byte,
    is_hex_text, sha256, sha256_of,
};
use crate::text::append_bytes;
use vstd::prelude::*;
use vstd::utf8::encode_utf8;

verus! {

/// The bytes hashed into a binding proof: the two texts' UTF-8 bytes with
/// the separator `||` between them.
pub open spec fn binding_preimage(reasoning_hash: Seq<char>, exchange_tx_id: Seq<char>) -> Seq<u8> {
    encode_utf8(reasoning_hash) + seq![124u8, 124u8] + encode_utf8(exchange_tx_id)
}

/// The binding proof: lower-case hex of the SHA-256 of the binding preimage.
pub open spec fn final_proof_of(reasoning_hash: Seq<char>, exchange_tx_id: Seq<char>) -> Seq<char> {
    hex_lower(sha256_of(binding_preimage(reasoning_hash, exchange_tx_id)))
}

/// The bytes hashed into the binding proof of `reasoning_hash` and
/// `exchange_tx_id`.
pub fn binding_preimage_bytes(reasoning_hash: &str, exchange_tx_id: &str) -> (preimage: Vec<u8>)
    ensures
        preimage@ == binding_preimage(reasoning_hash@, exchange_tx_id@),
        preimage@ == encode_utf8(reasoning_hash@) + seq![0x7Cu8, 0x7Cu8] + encode_utf8(exchange_tx_id@),
{
    let mut preimage: Vec<u8> = Vec::new();
    append_bytes(&mut preimage, reasoning_hash.as_bytes());
    preimage.push(124u8);
    preimage.push(124u8);
    append_bytes(&mut preimage, exchange_tx_id.as_bytes());
    assert(preimage@ =~= binding_preimage(reasoning_hash@, exchange_tx_id@));
    preimage
}

/// `final_proof = lower-hex SHA-256(reasoning_hash_ascii || "||" || exchange_tx_id_ascii)`
pub fn compute_final_proof(reasoning_hash: &str, exchange_tx_id: &str) -> (proof: String)
    ensures
        proof@ == final_proof_of(reasoning_hash@, exchange_tx_id@),
        proof@ == hex_lower(
            sha256_of(encode_utf8(reasoning_hash@) + seq![0x7Cu8, 0x7Cu8] + encode_utf8(exchange_tx_id@)),
        ),
        proof@.len() == 64,
{
    let preimage = binding_preimage_bytes(reasoning_hash, exchange_tx_id);
    let digest = sha256(preimage.as_slice());
    hex_encode(digest.as_slice())
}

/// The Merkle node of one leaf text: its 32-byte hex decoding where it has
/// one, else the SHA-256 of its UTF-8 bytes.
pub open spec fn merkle_leaf(leaf: Seq<char>) -> Seq<u8> {
    let text = encode_utf8(leaf);
    if is_hex_text(text) && text.len() == 64 {
        hex_decoded(text)
    } else {
        sha256_of(text)
    }
}

/// The parent of two nodes: the SHA-256 of their concatenation.
pub open spec fn merkle_parent(left: Seq<u8>, right: Seq<u8>) -> Seq<u8> {
    sha256_of(left + right)
}

/// A level padded to an even count by repeating its last node when odd.
pub open spec fn merkle_padded(nodes: Seq<Seq<u8>>) -> Seq<Seq<u8>> {
    if nodes.len() % 2 == 1 {
        nodes.push(nodes.last())
    } else {
        nodes
    }
}

/// The next level up: the parents of consecutive pairs of the padded level.
pub open spec fn merkle_level(nodes: Seq<Seq<u8>>) -> Seq<Seq<u8>> {
    let padded = merkle_padded(nodes);
    Seq::new(
        padded.len() / 2,
        |i: int| merkle_parent(padded[2 * i], padded[2 * i + 1]),
    )
}

/// Reduces a non-empty level to its single top node.
pub open spec fn merkle_reduce(nodes: Seq<Seq<u8>>) -> Seq<u8>
    decreases nodes.len(),
{
    if nodes.len() <= 1 {
        nodes[0]
    } else {
        merkle_reduce(merkle_level(nodes))
    }
}

/// The 32-byte all-zero root of an empty leaf list.
pub open spec fn zero_root() -> Seq<u8> {
    Seq::new(32, |i: int| 0u8)
}

/// The Merkle root of a list of leaf texts.
pub open spec fn merkle_root_of(leaves: Seq<Seq<char>>) -> Seq<u8> {
    if leaves.len() == 0 {
        zero_root()
    } else {
        merkle_reduce(leaves.map_values(|l: Seq<char>| merkle_leaf(l)))
    }
}

/// The texts of a list of strings.
pub open spec fn texts_of(strings: Seq<String>) -> Seq<Seq<char>> {
    strings.map_values(|s: String| s@)
}

/// The byte sequences of a list of 32-byte nodes.
pub open spec fn node_bytes(nodes: Seq<[u8; 32]>) -> Seq<Seq<u8>> {
    nodes.map_values(|n: [u8; 32]| n@)
}

fn leaf_node(leaf: &String) -> (node: [u8; 32])
    ensures
        node@ == merkle_leaf(leaf@),
{
    let text = leaf.as_str().as_bytes();
    match hex_decode(text) {
        Some(bytes) => {
            if bytes.len() == 32 {
                let mut node = [0u8; 32];
                for i in 0..32
                    invariant
                        bytes@.len() == 32,
                        forall|j: int| 0 <= j < i ==> node@[j] == bytes@[j],
                {
                    node[i] = bytes[i];
                }
                assert(node@ =~= bytes@);
                node
            } else {
                sha256(text)
            }
        },
        None => sha256(text),
    }
}

fn parent_node(left: &[u8; 32], right: &[u8; 32]) -> (node: [u8; 32])
    ensures
        node@ == merkle_parent(left@, right@),
{
    let mut buf: Vec<u8> = Vec::new();
    append_bytes(&mut buf, left.as_slice());
    append_bytes(&mut buf, right.as_slice());
    sha256(buf.as_slice())
}

/// Binary SHA-256 Merkle root over hex-encoded leaves.
///
/// - Leaves are used in the order supplied (txn_time ascending).
/// - A leaf that decodes to exactly 32 bytes is used as raw bytes;
///   otherwise the UTF-8 bytes of the hex string are SHA-256'd first.
/// - Odd node count at any level duplicates the last node (Bitcoin convention).
/// - Empty input yields `[0u8; 32]`.
pub fn compute_merkle_root(leaves: &[String]) -> (root: [u8; 32])
    ensures
        root@ == merkle_root_of(texts_of(leaves@)),
{
    let ghost texts = texts_of(leaves@);
    if leaves.len() == 0 {
        let zero = [0u8; 32];
        assert(zero@ =~= zero_root());
        return zero;
    }
    let ghost leaf_nodes = texts.map_values(|l: Seq<char>| merkle_leaf(l));
    let mut nodes: Vec<[u8; 32]> = Vec::new();
    let n = leaves.len();
    for i in 0..n
        invariant
            n == leaves@.len(),
            texts == texts_of(leaves@),
            leaf_nodes == texts.map_values(|l: Seq<char>| merkle_leaf(l)),
            leaf_nodes.len() == n,
            node_bytes(nodes@) =~= leaf_nodes.subrange(0, i as int),
    {
        let node = leaf_node(&leaves[i]);
        assert(texts[i as int] == leaves@[i as int]@);
        assert(leaf_nodes[i as int] == merkle_leaf(texts[i as int]));
        let ghost before = nodes@;
        nodes.push(node);
        assert(node_bytes(nodes@) =~= node_bytes(before).push(node@));
        assert(leaf_nodes.subrange(0, i + 1) =~= leaf_nodes.subrange(0, i as int).push(leaf_nodes[i as int]));
    }
    assert(leaf_nodes.subrange(0, n as int) =~= leaf_nodes);
    while nodes.len() > 1
        invariant
            nodes@.len() >= 1,
            merkle_reduce(node_bytes(nodes@)) == merkle_reduce(leaf_nodes),
        decreases nodes@.len(),
    {
        let ghost level = node_bytes(nodes@);
        if nodes.len() % 2 == 1 {
            let last = nodes[nodes.len() - 1];
            nodes.push(last);
        }
        assert(node_bytes(nodes@) =~= merkle_padded(level));
        let len = nodes.len();
        let half = len / 2;
        let mut next: Vec<[u8; 32]> = Vec::new();
        for i in 0..half
            invariant
                len == nodes@.len(),
                half == len / 2,
                node_bytes(nodes@) == merkle_padded(level),
                node_bytes(next@) =~= merkle_level(level).subrange(0, i as int),
        {
            assert(2 * i + 1 < nodes@.len());
            let parent = parent_node(&nodes[2 * i], &nodes[2 * i + 1]);
            assert(merkle_padded(level)[2 * i] == nodes@[2 * i as int]@);
            assert(merkle_padded(level)[2 * i + 1] == nodes@[2 * i + 1]@);
            assert(merkle_level(level)[i as int] == parent@);
            let ghost before = next@;
            next.push(parent);
            assert(node_bytes(next@) =~= node_bytes(before).push(parent@));
            assert(merkle_level(level).subrange(0, i + 1) =~= merkle_level(level).subrange(0, i as int).push(parent@));
        }
        assert(merkle_level(level).subrange(0, half as int) =~= merkle_level(level));
        nodes = next;
    }
    nodes[0]
}

/// An empty leaf list has the all-zero root.
pub proof fn lemma_empty_root()
    ensures
        merkle_root_of(Seq::empty()) == zero_root(),
{
}

/// The root of a single leaf is that leaf's own node: no hashing is applied
/// above the leaf level.
pub proof fn lemma_single_leaf_root(leaf: Seq<char>)
    ensures
        merkle_root_of(seq![leaf]) == merkle_leaf(leaf),
        is_hex_text(encode_utf8(leaf)) && encode_utf8(leaf).len() == 64 ==> merkle_root_of(
            seq![leaf],
        ) == hex_decoded(encode_utf8(leaf)),
{
    let nodes = seq![leaf].map_values(|l: Seq<char>| merkle_leaf(l));
    assert(nodes.len() == 1);
    assert(nodes[0] == merkle_leaf(leaf));
}

/// With an odd number of leaves (at least three), appending a copy of the
/// last leaf leaves the root unchanged: an odd level already pairs its last
/// node with itself.
pub proof fn lemma_odd_leaves_duplicate_last(leaves: Seq<Seq<char>>)
    requires
        leaves.len() % 2 == 1,
        leaves.len() >= 3,
    ensures
        merkle_root_of(leaves.push(leaves.last())) == merkle_root_of(leaves),
{
    let m = leaves.map_values(|l: Seq<char>| merkle_leaf(l));
    let extended = leaves.push(leaves.last());
    let m2 = extended.map_values(|l: Seq<char>| merkle_leaf(l));
    assert(m2 =~= m.push(m.last()));
    assert(merkle_padded(m) =~= m2);
    assert(merkle_padded(m2) =~= m2);
    assert(merkle_level(m2) =~= merkle_level(m));
    assert(merkle_reduce(m2) == merkle_reduce(merkle_level(m2)));
    assert(merkle_reduce(m) == merkle_reduce(merkle_level(m)));
}

/// A lower-case hex digit character: `0-9` or `a-f`.
pub open spec fn is_lower_hex_char(c: char) -> bool {
    ('0' <= c <= '9') || ('a' <= c <= 'f')
}

proof fn lemma_hex_digit_roundtrip(c: char)
    requires
        is_lower_hex_char(c),
    ensures
        0 <= hex_byte_value(c as u8) < 16,
        hex_digit(hex_byte_value(c as u8)) == c,
{
    assert((c as u8) as int == c as int);
    assert(((c as int) as char) == c);
}

/// A leaf written as 64 lower-case hex digits is its own root: the hex text
/// of the root of that single leaf is the leaf again.
pub proof fn lemma_lower_hex_leaf_is_root(leaf: Seq<char>)
    requires
        leaf.len() == 64,
        forall|i: int| 0 <= i < leaf.len() ==> is_lower_hex_char(#[trigger] leaf[i]),
    ensures
        hex_lower(merkle_root_of(seq![leaf])) == leaf,
{
    assert(vstd::utf8::is_ascii_chars(leaf));
    vstd::utf8::is_ascii_chars_encode_utf8(leaf);
    let text = encode_utf8(leaf);
    assert forall|i: int| 0 <= i < text.len() implies is_hex_byte(#[trigger] text[i]) by {
        assert(leaf[i] as u8 == text[i]);
        lemma_hex_digit_roundtrip(leaf[i]);
    }
    lemma_single_leaf_root(leaf);
    let d = hex_decoded(text);
    assert(merkle_root_of(seq![leaf]) == d);
    assert forall|i: int| 0 <= i < leaf.len() implies #[trigger] hex_lower(d)[i] == leaf[i] by {
        let k = i / 2;
        assert(0 <= k < 32);
        lemma_hex_digit_roundtrip(leaf[2 * k]);
        lemma_hex_digit_roundtrip(leaf[2 * k + 1]);
        assert(leaf[2 * k] as u8 == text[2 * k]);
        assert(leaf[2 * k + 1] as u8 == text[2 * k + 1]);
        let hi = hex_byte_value(text[2 * k]);
        let lo = hex_byte_value(text[2 * k + 1]);
        assert(0 <= hi < 16 && 0 <= lo < 16);
        assert(d[k] as int == hi * 16 + lo) by {
            assert(0 <= hi * 16 + lo < 256) by (nonlinear_arith)
                requires
                    0 <= hi < 16,
                    0 <= lo < 16,
            ;
        }
        assert((hi * 16 + lo) / 16 == hi && (hi * 16 + lo) % 16 == lo) by (nonlinear_arith)
            requires
                0 <= hi < 16,
                0 <= lo < 16,
        ;
    }
    assert(hex_lower(d) =~= leaf);
}

/// The binding proof of any pair of texts is the lower-case hex of the
/// SHA-256 of exactly the UTF-8 bytes of the reasoning hash, the two bytes
/// `||` (0x7C 0x7C) and the UTF-8 bytes of the transaction id: the
/// reasoning hash is hashed as text, never decoded, even when it looks like
/// hex. The preimage starts with the reasoning hash's bytes, has the
/// separator right after them, and ends with the transaction id's bytes.
pub proof fn lemma_final_proof_hashes_texts(reasoning_hash: Seq<char>, exchange_tx_id: Seq<char>)
    ensures
        final_proof_of(reasoning_hash, exchange_tx_id) == hex_lower(
            sha256_of(encode_utf8(reasoning_hash).add(seq![0x7Cu8, 0x7Cu8]).add(encode_utf8(exchange_tx_id))),
        ),
        binding_preimage(reasoning_hash, exchange_tx_id).len() == encode_utf8(reasoning_hash).len()
            + 2 + encode_utf8(exchange_tx_id).len(),
        binding_preimage(reasoning_hash, exchange_tx_id).subrange(
            0,
            encode_utf8(reasoning_hash).len() as int,
        ) == encode_utf8(reasoning_hash),
        binding_preimage(reasoning_hash, exchange_tx_id)[encode_utf8(reasoning_hash).len() as int]
            == 0x7Cu8,
        binding_preimage(reasoning_hash, exchange_tx_id)[encode_utf8(reasoning_hash).len() + 1int]
            == 0x7Cu8,
        binding_preimage(reasoning_hash, exchange_tx_id).subrange(
            encode_utf8(reasoning_hash).len() + 2int,
            binding_preimage(reasoning_hash, exchange_tx_id).len() as int,
        ) == encode_utf8(exchange_tx_id),
{
    let p = binding_preimage(reasoning_hash, exchange_tx_id);
    let r = encode_utf8(reasoning_hash);
    let x = encode_utf8(exchange_tx_id);
    assert(p.subrange(0, r.len() as int) =~= r);
    assert(p.subrange(r.len() + 2int, p.len() as int) =~= x);
}

/// A parent node is the SHA-256 of its left child's bytes followed by its
/// right child's bytes, in that order.
pub proof fn lemma_parent_is_ordered_hash(left: Seq<u8>, right: Seq<u8>)
    ensures
        merkle_parent(left, right) == sha256_of(left.add(right)),
{
}

/// The root of two leaves is the SHA-256 of the first leaf's node followed
/// by the second's; for two 64-digit hex leaves, of their decoded bytes in
/// the order given.
pub proof fn lemma_two_leaf_root(x: Seq<char>, y: Seq<char>)
    ensures
        merkle_root_of(seq![x, y]) == sha256_of(merkle_leaf(x).add(merkle_leaf(y))),
        is_hex_text(encode_utf8(x)) && encode_utf8(x).len() == 64 && is_hex_text(encode_utf8(y))
            && encode_utf8(y).len() == 64 ==> merkle_root_of(seq![x, y]) == sha256_of(
            hex_decoded(encode_utf8(x)).add(hex_decoded(encode_utf8(y))),
        ),
{
    let m = seq![x, y].map_values(|l: Seq<char>| merkle_leaf(l));
    assert(m[0] == merkle_leaf(x) && m[1] == merkle_leaf(y));
    assert(merkle_padded(m) == m);
    let up = merkle_level(m);
    assert(up.len() == 1);
    assert(up[0] == sha256_of(m[0] + m[1]));
    assert(merkle_reduce(m) == merkle_reduce(up));
    assert(merkle_reduce(up) == up[0]);
}

/// The root of three leaves pairs the first two and pairs the third with
/// itself, then hashes the two parents in order.
pub proof fn lemma_three_leaf_root(x: Seq<char>, y: Seq<char>, z: Seq<char>)
    ensures
        merkle_root_of(seq![x, y, z]) == sha256_of(
            sha256_of(merkle_leaf(x).add(merkle_leaf(y))).add(
                sha256_of(merkle_leaf(z).add(merkle_leaf(z))),
            ),
        ),
{
    let m = seq![x, y, z].map_values(|l: Seq<char>| merkle_leaf(l));
    assert(m[0] == merkle_leaf(x) && m[1] == merkle_leaf(y) && m[2] == merkle_leaf(z));
    let padded = merkle_padded(m);
    assert(padded.len() == 4 && padded[3] == merkle_leaf(z));
    let up = merkle_level(m);
    assert(up.len() == 2);
    assert(up[0] == sha256_of(m[0] + m[1]));
    assert(up[1] == sha256_of(padded[2] + padded[3]));
    let top = merkle_level(up);
    assert(merkle_padded(up) == up);
    assert(top.len() == 1);
    assert(top[0] == sha256_of(up[0] + up[1]));
    assert(merkle_reduce(m) == merkle_reduce(up));
    assert(merkle_reduce(up) == merkle_reduce(top));
    assert(merkle_reduce(top) == top[0]);
}

/// The root of four leaves hashes the parent of the first pair followed by
/// the parent of the second pair.
pub proof fn lemma_four_leaf_root(w: Seq<char>, x: Seq<char>, y: Seq<char>, z: Seq<char>)
    ensures
        merkle_root_of(seq![w, x, y, z]) == sha256_of(
            sha256_of(merkle_leaf(w).add(merkle_leaf(x))).add(
                sha256_of(merkle_leaf(y).add(merkle_leaf(z))),
            ),
        ),
{
    let m = seq![w, x, y, z].map_values(|l: Seq<char>| merkle_leaf(l));
    assert(m[0] == merkle_leaf(w) && m[1] == merkle_leaf(x) && m[2] == merkle_leaf(y) && m[3]
        == merkle_leaf(z));
    assert(merkle_padded(m) == m);
    let up = merkle_level(m);
    assert(up.len() == 2);
    assert(up[0] == sha256_of(m[0] + m[1]));
    assert(up[1] == sha256_of(m[2] + m[3]));
    let top = merkle_level(up);
    assert(merkle_padded(up) == up);
    assert(top.len() == 1);
    assert(top[0] == sha256_of(up[0] + up[1]));
    assert(merkle_reduce(m) == merkle_reduce(up));
    assert(merkle_reduce(up) == merkle_reduce(top));
    assert(merkle_reduce(top) == top[0]);
}

/// A leaf node is the 32 bytes that its 64 hex digits spell out (two digits
/// per byte, high digit first, either case), and otherwise the SHA-256 of
/// the leaf's UTF-8 bytes.
pub proof fn lemma_leaf_node(leaf: Seq<char>)
    ensures
        ({
            let text = encode_utf8(leaf);
            text.len() == 64 && (forall|i: int| 0 <= i < 64 ==> is_hex_byte(#[trigger] text[i]))
                ==> merkle_leaf(leaf).len() == 32 && forall|k: int|
                0 <= k < 32 ==> #[trigger] merkle_leaf(leaf)[k] as int == hex_byte_value(
                    text[2 * k],
                ) * 16 + hex_byte_value(text[2 * k + 1])
        }),
        ({
            let text = encode_utf8(leaf);
            !(text.len() == 64 && (forall|i: int| 0 <= i < 64 ==> is_hex_byte(#[trigger] text[i])))
                ==> merkle_leaf(leaf) == sha256_of(text)
        }),
{
    let text = encode_utf8(leaf);
    if text.len() == 64 && (forall|i: int| 0 <= i < 64 ==> is_hex_byte(#[trigger] text[i])) {
        assert(is_hex_text(text));
        assert forall|k: int| 0 <= k < 32 implies #[trigger] merkle_leaf(leaf)[k] as int
            == hex_byte_value(text[2 * k]) * 16 + hex_byte_value(text[2 * k + 1]) by {
            let hi = hex_byte_value(text[2 * k]);
            let lo = hex_byte_value(text[2 * k + 1]);
            assert(is_hex_byte(text[2 * k]) && is_hex_byte(text[2 * k + 1]));
            assert(0 <= hi < 16 && 0 <= lo < 16);
            assert(0 <= hi * 16 + lo < 256) by (nonlinear_arith)
                requires
                    0 <= hi < 16,
                    0 <= lo < 16,
            ;
        }
    }
}

/// Every level of the tree, at any height: a level of n >= 2 nodes has
/// ceil(n / 2) parents above it, parent i being the SHA-256 of node 2i
/// followed by node 2i + 1, where a missing right node (odd n) is the last
/// node again; and the root of the level is the root of its parents.
pub proof fn lemma_level_up(nodes: Seq<Seq<u8>>)
    requires
        nodes.len() >= 2,
    ensures
        merkle_level(nodes).len() == (nodes.len() + 1) / 2,
        forall|i: int|
            0 <= i < merkle_level(nodes).len() ==> #[trigger] merkle_level(nodes)[i] == sha256_of(
                nodes[2 * i].add(
                    if 2 * i + 1 < nodes.len() {
                        nodes[2 * i + 1]
                    } else {
                        nodes[nodes.len() - 1]
                    },
                ),
            ),
        merkle_reduce(nodes) == merkle_reduce(merkle_level(nodes)),
{
    let padded = merkle_padded(nodes);
    assert forall|i: int| 0 <= i < merkle_level(nodes).len() implies #[trigger] merkle_level(
        nodes,
    )[i] == sha256_of(
        nodes[2 * i].add(
            if 2 * i + 1 < nodes.len() {
                nodes[2 * i + 1]
            } else {
                nodes[nodes.len() - 1]
            },
        ),
    ) by {
        assert(padded[2 * i] == nodes[2 * i]);
    }
}

} // verus!
