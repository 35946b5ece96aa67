//! SCI0 resource decompression.

use crate::bits::{bit_at, bits_value, read_bit, read_bits_u8};
use vstd::prelude::*;

verus! {

/// The compression methods of SCI0 resources.
#[derive(Clone, Copy, Debug, PartialEq, Eq, Structural)]
pub enum CompressionType {
    Uncompressed,
    LZW,
    Huffman,
}

impl CompressionType {
    /// The method with number `v` (0 stored uncompressed, 1 LZW, 2 Huffman); `None` for any other.
    pub fn from_u16(v: u16) -> (t: Option<CompressionType>)
        ensures
            v == 0 <==> t == Some(CompressionType::Uncompressed),
            v == 1 <==> t == Some(CompressionType::LZW),
            v == 2 <==> t == Some(CompressionType::Huffman),
            v > 2 <==> t is None,
    {
        match v {
            0 => Some(CompressionType::Uncompressed),
            1 => Some(CompressionType::LZW),
            2 => Some(CompressionType::Huffman),
            _ => None,
        }
    }
}

/// A node of the Huffman tree stored at the head of a compressed resource.
#[derive(Debug, PartialEq, Eq)]
pub enum HuffmanNode {
    /// An inner node: a 0 bit leads left, a 1 bit leads right.
    Tree(Box<HuffmanNode>, Box<HuffmanNode>),
    /// A decoded byte.
    Leaf(u8),
    /// The next 8 bits of the stream are a byte (or the terminator).
    Literal,
}

/// The tree rooted at node `idx` of the node table `node_data` (two bytes per node:
/// a value, then the relative indexes of the children in the high and low nibble).
/// `None` where building it does not finish: an index past the table, a node whose
/// left child is itself, or a child index past 255.
pub open spec fn spec_huffman_node(node_data: Seq<u8>, idx: int) -> Option<HuffmanNode>
    decreases 256 - idx,
{
    if !(0 <= idx < 256) || 2 * idx + 2 > node_data.len() {
        None
    } else {
        let value = node_data[2 * idx];
        let siblings = node_data[2 * idx + 1];
        if siblings == 0 {
            Some(HuffmanNode::Leaf(value))
        } else {
            let left = siblings / 16;
            let right = siblings % 16;
            if left == 0 || idx + left > 255 {
                None
            } else {
                match spec_huffman_node(node_data, idx + left) {
                    None => None,
                    Some(l) => if right == 0 {
                        Some(HuffmanNode::Tree(Box::new(l), Box::new(HuffmanNode::Literal)))
                    } else if idx + right > 255 {
                        None
                    } else {
                        match spec_huffman_node(node_data, idx + right) {
                            None => None,
                            Some(r) => Some(HuffmanNode::Tree(Box::new(l), Box::new(r))),
                        }
                    },
                }
            }
        }
    }
}

/// The children of an inner node are found relative to the node itself: for node
/// `i` whose sibling byte is `s`, the left child is the tree at node `i + s / 16`,
/// and the right child is the tree at node `i + s % 16`, or the literal marker where
/// the low nibble is 0. A node whose sibling byte is 0 is a leaf holding its value
/// byte.
pub proof fn lemma_huffman_children(node_data: Seq<u8>, i: int)
    requires
        0 <= i < 256,
        2 * i + 2 <= node_data.len(),
    ensures
        ({
            let s = node_data[2 * i + 1];
            &&& s == 0 ==> spec_huffman_node(node_data, i) == Some(HuffmanNode::Leaf(node_data[2 * i]))
            &&& spec_huffman_node(node_data, i) matches Some(HuffmanNode::Tree(l, r)) ==> {
                &&& s != 0
                &&& Some(*l) == spec_huffman_node(node_data, i + s / 16)
                &&& s % 16 == 0 ==> *r == HuffmanNode::Literal
                &&& s % 16 != 0 ==> Some(*r) == spec_huffman_node(node_data, i + s % 16)
            }
        }),
{
}

/// Builds the tree rooted at node `node_index` of the node table.
pub fn build_huffman_node(node_data: &[u8], node_index: u8) -> (node: Option<HuffmanNode>)
    ensures
        node == spec_huffman_node(node_data@, node_index as int),
    decreases 256 - node_index,
{
    let offset = node_index as usize * 2;
    if offset + 2 > node_data.len() {
        return None;
    }
    let value = node_data[offset];
    let siblings = node_data[offset + 1];
    if siblings == 0 {
        return Some(HuffmanNode::Leaf(value));
    }
    let left = siblings / 16;
    let right = siblings % 16;
    if left == 0 || node_index as u16 + left as u16 > 255 {
        return None;
    }
    let l = match build_huffman_node(node_data, left + node_index) {
        Some(l) => l,
        None => return None,
    };
    if right == 0 {
        return Some(HuffmanNode::Tree(Box::new(l), Box::new(HuffmanNode::Literal)));
    }
    if node_index as u16 + right as u16 > 255 {
        return None;
    }
    match build_huffman_node(node_data, right + node_index) {
        Some(r) => Some(HuffmanNode::Tree(Box::new(l), Box::new(r))),
        None => None,
    }
}

/// The measure that decoding decreases: every tree step or literal consumes bits, and
/// a leaf returns to the root, which is not a leaf.
pub open spec fn walk_measure(total_bits: int, pos: int, node: HuffmanNode) -> int {
    2 * (total_bits - pos) + if node is Leaf { 1int } else { 0int }
}

/// The bytes decoded from bit `pos` of `bits` on, when the walk stands at `node` of the
/// tree `root`, until the literal `terminator`. `None` where decoding does not finish
/// normally: a root that is a leaf (the output grows without end), or running out of
/// bits before the terminator.
pub open spec fn spec_huffman_walk(
    root: HuffmanNode,
    bits: Seq<u8>,
    terminator: u8,
    pos: int,
    node: HuffmanNode,
) -> Option<Seq<u8>>
    decreases walk_measure(8 * bits.len() as int, pos, node),
{
    if root is Leaf || pos < 0 || pos > 8 * bits.len() {
        None
    } else {
        match node {
            HuffmanNode::Leaf(v) => match spec_huffman_walk(root, bits, terminator, pos, root) {
                Some(rest) => Some(seq![v] + rest),
                None => None,
            },
            HuffmanNode::Literal => if pos + 8 > 8 * bits.len() {
                None
            } else {
                let literal = bits_value(bits, pos, 8);
                if literal == terminator {
                    Some(Seq::empty())
                } else {
                    match spec_huffman_walk(root, bits, terminator, pos + 8, root) {
                        Some(rest) => Some(seq![literal as u8] + rest),
                        None => None,
                    }
                }
            },
            HuffmanNode::Tree(l, r) => if pos + 1 > 8 * bits.len() {
                None
            } else {
                spec_huffman_walk(
                    root,
                    bits,
                    terminator,
                    pos + 1,
                    if bit_at(bits, pos) {
                        *r
                    } else {
                        *l
                    },
                )
            },
        }
    }
}

/// What a Huffman-compressed resource decodes to: byte 0 is the number of tree
/// nodes, byte 1 the terminating literal, then the node table, then the bit stream.
/// `None` where the header or the node table is cut short, a node points outside
/// the table, the root is a leaf, or the bit stream ends before the terminator.
pub open spec fn spec_huffman_decode(data: Seq<u8>) -> Option<Seq<u8>> {
    if data.len() < 2 || 2 * data[0] + 2 > data.len() {
        None
    } else {
        let n = data[0] as int;
        match spec_huffman_node(data.subrange(2, 2 * n + 2), 0) {
            None => None,
            Some(root) => spec_huffman_walk(
                root,
                data.subrange(2 * n + 2, data.len() as int),
                data[1],
                0,
                root,
            ),
        }
    }
}

/// Decodes a Huffman-compressed resource payload.
pub fn huffman_decode(compressed_data: &[u8]) -> (result: Option<Vec<u8>>)
    ensures
        match result {
            Some(r) => spec_huffman_decode(compressed_data@) == Some(r@),
            None => spec_huffman_decode(compressed_data@) is None,
        },
{
    if compressed_data.len() < 2 {
        return None;
    }
    let num_nodes = compressed_data[0] as usize;
    let terminator = compressed_data[1];
    if num_nodes * 2 + 2 > compressed_data.len() {
        return None;
    }
    let node_data = &compressed_data[2..num_nodes * 2 + 2];
    let tree = match build_huffman_node(node_data, 0) {
        Some(t) => t,
        None => return None,
    };
    if let HuffmanNode::Leaf(_) = tree {
        return None;
    }
    let bits = &compressed_data[num_nodes * 2 + 2..compressed_data.len()];
    let ghost total = spec_huffman_walk(tree, bits@, terminator, 0, tree);
    assert(spec_huffman_decode(compressed_data@) == total);
    let mut result: Vec<u8> = Vec::new();
    let mut node: &HuffmanNode = &tree;
    // The walk stands at bit 8 * byte + bit.
    let mut byte: usize = 0;
    let mut bit: u8 = 0;
    loop
        invariant
            !(tree is Leaf),
            bit < 8,
            8 * byte + bit <= 8 * bits@.len(),
            total == spec_huffman_walk(tree, bits@, terminator, 0, tree),
            spec_huffman_decode(compressed_data@) == total,
            match spec_huffman_walk(tree, bits@, terminator, 8 * byte + bit, *node) {
                Some(rest) => total == Some(result@ + rest),
                None => total is None,
            },
        decreases walk_measure(8 * bits@.len() as int, 8 * byte + bit, *node),
    {
        let ghost pos = 8 * byte + bit;
        match node {
            HuffmanNode::Leaf(v) => {
                let ghost old_result = result@;
                result.push(*v);
                proof {
                    assert(old_result + (seq![*v] + spec_huffman_walk(tree, bits@, terminator, pos, tree).unwrap())
                        =~= result@ + spec_huffman_walk(tree, bits@, terminator, pos, tree).unwrap());
                }
                node = &tree;
            },
            HuffmanNode::Literal => {
                if byte >= bits.len() || (byte + 1 == bits.len() && bit > 0) {
                    proof {
                        assert(pos + 8 > 8 * bits@.len());
                        assert(spec_huffman_walk(tree, bits@, terminator, pos, *node) is None);
                    }
                    return None;
                }
                let literal = read_bits_u8(bits, byte, bit);
                if literal == terminator {
                    proof {
                        assert(result@ + Seq::<u8>::empty() =~= result@);
                    }
                    return Some(result);
                }
                let ghost old_result = result@;
                result.push(literal);
                byte = byte + 1;
                proof {
                    let rest = spec_huffman_walk(tree, bits@, terminator, pos + 8, tree);
                    if rest is Some {
                        assert(old_result + (seq![literal] + rest.unwrap()) =~= result@ + rest.unwrap());
                    }
                }
                node = &tree;
            },
            HuffmanNode::Tree(l, r) => {
                if byte >= bits.len() {
                    proof {
                        assert(spec_huffman_walk(tree, bits@, terminator, pos, *node) is None);
                    }
                    return None;
                }
                let b = read_bit(bits, byte, bit);
                if bit == 7 {
                    bit = 0;
                    byte = byte + 1;
                } else {
                    bit = bit + 1;
                }
                node = if b {
                    &**r
                } else {
                    &**l
                };
            },
        }
    }
}

} // verus!
