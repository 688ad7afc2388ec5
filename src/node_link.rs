//! Links between BVH nodes and their compact 32-bit encoding.
//!
//! A link word keeps a leaf's pack count in its three low bits and an arena
//! index in the 29 high bits. A count of zero marks an inner node; the word
//! with every index bit set and a zero count is the null link.

use vstd::prelude::*;

use crate::lanes::{bitmask, lane_bit};

verus! {

/// Low bits of a link word that hold the pack count of a leaf.
pub const COUNT_BITS: u32 = 3;

/// Mask of the count bits.
pub const COUNT_MASK: u32 = 7;

/// The encoded null link: all index bits set, count zero.
pub const NULL_VALUE: u32 = 0xFFFF_FFF8;

/// Largest arena index a link can hold, `2^29 - 2`.
pub const MAX_INDEX: u32 = 0x1FFF_FFFE;

/// Smallest pack count of a leaf.
pub const MIN_COUNT: u32 = 1;

/// Largest pack count of a leaf.
pub const MAX_COUNT: u32 = 7;

/// Fan-out of an inner node.
pub const INNER_NODE_CHILDREN: usize = 8;

/// Triangles in one triangle pack.
pub const LEAF_NODE_PACKET_SIZE: usize = 8;

/// Most triangles a single leaf can hold.
pub const LEAF_NODE_MAX_TRIANGLES: usize = 56;

/// Index of an inner node in the inner node arena.
#[derive(Clone, Copy, Debug, PartialEq, Eq, Structural)]
pub struct InnerNodeIdx(pub u32);

/// Index of a pack of eight triangles in the triangle pack arena.
#[derive(Clone, Copy, Debug, PartialEq, Eq, Structural)]
pub struct TrianglePackIdx(pub u32);

/// Index of a single triangle (pack index times eight plus lane).
#[derive(Clone, Copy, Debug, PartialEq, Eq, Structural)]
pub struct TriangleIdx(pub usize);

/// Index of a vertex in the vertex arena.
#[derive(Clone, Copy, Debug, PartialEq, Eq, Structural)]
pub struct VertexIdx(pub usize);

impl InnerNodeIdx {
    /// Index from its raw value; the value must fit in a link.
    pub fn from_raw(raw: u32) -> (r: Self)
        requires
            raw <= MAX_INDEX,
        ensures
            r.0 == raw,
    {
        InnerNodeIdx(raw)
    }

    pub fn raw(&self) -> (r: u32)
        ensures
            r == self.0,
    {
        self.0
    }
}

impl TrianglePackIdx {
    /// Index from its raw value; the value must fit in a link.
    pub fn from_raw(raw: u32) -> (r: Self)
        requires
            raw <= MAX_INDEX,
        ensures
            r.0 == raw,
    {
        TrianglePackIdx(raw)
    }

    pub fn raw(&self) -> (r: u32)
        ensures
            r == self.0,
    {
        self.0
    }

    /// Index of the triangle in lane `lane` of this pack.
    pub fn to_triangle_idx(&self, lane: usize) -> (r: TriangleIdx)
        requires
            self.0 <= MAX_INDEX,
            lane < LEAF_NODE_PACKET_SIZE,
        ensures
            r.0 == self.0 * LEAF_NODE_PACKET_SIZE + lane,
    {
        TriangleIdx((self.0 as usize) * LEAF_NODE_PACKET_SIZE + lane)
    }
}

impl TriangleIdx {
    pub fn raw(&self) -> (r: usize)
        ensures
            r == self.0,
    {
        self.0
    }
}

/// A contiguous, half-open range `first..last` of triangle packs.
#[derive(Clone, Copy, Debug, PartialEq, Eq, Structural)]
pub struct TrianglePackIdxRange {
    pub first: TrianglePackIdx,
    pub last: TrianglePackIdx,
}

impl TrianglePackIdxRange {
    pub open spec fn spec_count(&self) -> int {
        self.last.0 - self.first.0
    }

    /// The range of `count` packs starting at `first`.
    pub fn new(first: TrianglePackIdx, count: u32) -> (r: TrianglePackIdxRange)
        requires
            first.0 + count <= u32::MAX,
        ensures
            r.first == first,
            r.last.0 == first.0 + count,
    {
        TrianglePackIdxRange { first, last: TrianglePackIdx(first.0 + count) }
    }

    /// Raw bounds of the range, `first..last`.
    pub fn into_range(self) -> (r: std::ops::Range<u32>)
        ensures
            r.start == self.first.0,
            r.end == self.last.0,
    {
        self.first.0..self.last.0
    }

    /// The pack indices of the range, in increasing order.
    pub fn iter(&self) -> (r: Vec<TrianglePackIdx>)
        ensures
            self.first.0 <= self.last.0 ==> r@.len() == self.spec_count(),
            self.first.0 > self.last.0 ==> r@.len() == 0,
            forall|k: int| 0 <= k < r@.len() ==> #[trigger] r@[k].0 == self.first.0 + k,
    {
        let mut r: Vec<TrianglePackIdx> = Vec::new();
        let mut i: u32 = self.first.0;
        while i < self.last.0
            invariant
                self.first.0 <= i <= self.last.0 || (i == self.first.0 && self.first.0 > self.last.0),
                r@.len() == i - self.first.0,
                forall|k: int| 0 <= k < r@.len() ==> #[trigger] r@[k].0 == self.first.0 + k,
            decreases self.last.0 - i,
        {
            r.push(TrianglePackIdx(i));
            i = i + 1;
        }
        r
    }

    /// Number of packs in the range.
    pub fn count(&self) -> (r: u32)
        requires
            self.first.0 <= self.last.0,
        ensures
            r == self.spec_count(),
    {
        self.last.0 - self.first.0
    }
}

/// A link from an inner node to one of its children.
#[derive(Clone, Copy, Debug, PartialEq, Eq, Structural)]
pub enum NodeLink {
    Null,
    Inner { index: InnerNodeIdx },
    Leaf { indices: TrianglePackIdxRange },
}

impl NodeLink {
    /// Whether the link fits in a link word: indices up to `MAX_INDEX`, leaf
    /// counts from `MIN_COUNT` to `MAX_COUNT`.
    pub open spec fn is_encodable(self) -> bool {
        match self {
            NodeLink::Null => true,
            NodeLink::Inner { index } => index.0 <= MAX_INDEX,
            NodeLink::Leaf { indices } => indices.first.0 <= MAX_INDEX && MIN_COUNT
                <= indices.spec_count() <= MAX_COUNT,
        }
    }

    /// A leaf link over `count` packs starting at `index`.
    pub fn new_leaf(index: TrianglePackIdx, count: u32) -> (r: Self)
        requires
            index.0 <= MAX_INDEX,
            MIN_COUNT <= count <= MAX_COUNT,
        ensures
            r == (NodeLink::Leaf {
                indices: TrianglePackIdxRange {
                    first: index,
                    last: TrianglePackIdx((index.0 + count) as u32),
                },
            }),
            r.is_encodable(),
    {
        NodeLink::Leaf { indices: TrianglePackIdxRange::new(index, count) }
    }

    /// A leaf link over `count` packs starting at `index`, or `None` exactly
    /// when the index exceeds `MAX_INDEX` or the count lies outside
    /// `MIN_COUNT..=MAX_COUNT`.
    pub fn try_new_leaf(index: u32, count: u32) -> (r: Option<Self>)
        ensures
            r is Some <==> (index <= MAX_INDEX && MIN_COUNT <= count <= MAX_COUNT),
            r matches Some(link) ==> link == (NodeLink::Leaf {
                indices: TrianglePackIdxRange {
                    first: TrianglePackIdx(index),
                    last: TrianglePackIdx((index + count) as u32),
                },
            }),
            r matches Some(link) ==> decode_link(encode_link(link)) == link,
    {
        if index > MAX_INDEX || count < MIN_COUNT || count > MAX_COUNT {
            None
        } else {
            let link = NodeLink::new_leaf(TrianglePackIdx(index), count);
            proof {
                lemma_link_round_trip(link);
            }
            Some(link)
        }
    }

    /// A link to the inner node at `index`.
    pub fn new_inner(index: InnerNodeIdx) -> (r: Self)
        requires
            index.0 <= MAX_INDEX,
        ensures
            r == (NodeLink::Inner { index }),
            r.is_encodable(),
    {
        NodeLink::Inner { index }
    }

    /// The null link.
    pub fn null() -> (r: Self)
        ensures
            r == NodeLink::Null,
    {
        NodeLink::Null
    }
}

/// The word that encodes a link.
pub open spec fn encode_link(link: NodeLink) -> u32 {
    match link {
        NodeLink::Null => NULL_VALUE,
        NodeLink::Inner { index } => (index.0 * 8) as u32,
        NodeLink::Leaf { indices } => (indices.first.0 * 8 + indices.spec_count()) as u32,
    }
}

/// The link that a word stands for.
pub open spec fn decode_link(w: u32) -> NodeLink {
    if w == NULL_VALUE {
        NodeLink::Null
    } else if w % 8 == 0 {
        NodeLink::Inner { index: InnerNodeIdx(w / 8) }
    } else {
        NodeLink::Leaf {
            indices: TrianglePackIdxRange {
                first: TrianglePackIdx(w / 8),
                last: TrianglePackIdx((w / 8 + w % 8) as u32),
            },
        }
    }
}

/// Every encodable link decodes back to itself.
pub proof fn lemma_link_round_trip(link: NodeLink)
    requires
        link.is_encodable(),
    ensures
        decode_link(encode_link(link)) == link,
{
    match link {
        NodeLink::Null => {},
        NodeLink::Inner { index } => {
            let w = encode_link(link);
            assert(w == index.0 * 8);
            assert(w / 8 == index.0 && w % 8 == 0);
        },
        NodeLink::Leaf { indices } => {
            let w = encode_link(link);
            let c = indices.spec_count();
            assert(w == indices.first.0 * 8 + c);
            assert(w / 8 == indices.first.0 && w % 8 == c);
        },
    }
}

/// A leaf built from any index up to `MAX_INDEX` and any count from
/// `MIN_COUNT` to `MAX_COUNT` decodes to a leaf with that first index and count.
pub proof fn lemma_leaf_round_trip(index: u32, count: u32)
    requires
        index <= MAX_INDEX,
        MIN_COUNT <= count <= MAX_COUNT,
    ensures
        decode_link(
            encode_link(
                NodeLink::Leaf {
                    indices: TrianglePackIdxRange {
                        first: TrianglePackIdx(index),
                        last: TrianglePackIdx((index + count) as u32),
                    },
                },
            ),
        ) matches NodeLink::Leaf { indices } && indices.first.0 == index && indices.spec_count()
            == count,
{
    let link = NodeLink::Leaf {
        indices: TrianglePackIdxRange {
            first: TrianglePackIdx(index),
            last: TrianglePackIdx((index + count) as u32),
        },
    };
    lemma_link_round_trip(link);
}

/// The null word decodes to the null link.
pub proof fn lemma_null_decodes()
    ensures
        decode_link(NULL_VALUE) == NodeLink::Null,
{
}

proof fn lemma_word_parts(w: u32)
    ensures
        w >> 3u32 == w / 8,
        w & 7u32 == w % 8,
{
    assert(w >> 3u32 == w / 8) by (bit_vector);
    assert(w & 7u32 == w % 8) by (bit_vector);
}

proof fn lemma_word_join(i: u32, c: u32)
    requires
        i <= MAX_INDEX,
        c < 8,
    ensures
        i << 3u32 == i * 8,
        (i << 3u32) | c == i * 8 + c,
{
    assert(i << 3u32 == i * 8) by (bit_vector)
        requires
            i <= 0x1FFF_FFFEu32,
    ;
    assert((i << 3u32) | c == i * 8 + c) by (bit_vector)
        requires
            i <= 0x1FFF_FFFEu32,
            c < 8,
    ;
}

/// Eight child links of an inner node, one encoded word per lane.
#[derive(Clone, Copy, Debug)]
pub struct CompressedNodeLink8 {
    words: [u32; 8],
}

impl View for CompressedNodeLink8 {
    type V = Seq<u32>;

    closed spec fn view(&self) -> Seq<u32> {
        self.words@
    }
}

impl CompressedNodeLink8 {
    /// Eight null links.
    pub fn new() -> (r: Self)
        ensures
            r@ == Seq::new(8, |i: int| NULL_VALUE),
    {
        let r = CompressedNodeLink8 { words: [NULL_VALUE; 8] };
        assert(r@ =~= Seq::new(8, |i: int| NULL_VALUE));
        r
    }

    /// Mask of lanes that link to inner nodes.
    pub fn inner_node_mask(&self) -> (r: u8)
        ensures
            forall|i: int|
                0 <= i < 8 ==> lane_bit(r, i) == (decode_link(self@[i]) is Inner),
    {
        let mut flags = [false; 8];
        let mut k: usize = 0;
        while k < 8
            invariant
                k <= 8,
                self@.len() == 8,
                forall|j: int| 0 <= j < k ==> flags@[j] == (decode_link(self@[j]) is Inner),
            decreases 8 - k,
        {
            let w = self.words[k];
            proof {
                lemma_word_parts(w);
            }
            flags[k] = w != NULL_VALUE && (w & COUNT_MASK) == 0;
            k = k + 1;
        }
        bitmask(&flags)
    }

    /// Mask of lanes that link to leaves.
    pub fn leaf_node_mask(&self) -> (r: u8)
        ensures
            forall|i: int|
                0 <= i < 8 ==> lane_bit(r, i) == (decode_link(self@[i]) is Leaf),
    {
        let mut flags = [false; 8];
        let mut k: usize = 0;
        while k < 8
            invariant
                k <= 8,
                self@.len() == 8,
                forall|j: int| 0 <= j < k ==> flags@[j] == (decode_link(self@[j]) is Leaf),
            decreases 8 - k,
        {
            let w = self.words[k];
            proof {
                lemma_word_parts(w);
            }
            flags[k] = (w & COUNT_MASK) > 0;
            k = k + 1;
        }
        bitmask(&flags)
    }

    /// Mask of null lanes.
    pub fn null_mask(&self) -> (r: u8)
        ensures
            forall|i: int| 0 <= i < 8 ==> lane_bit(r, i) == (decode_link(self@[i]) is Null),
    {
        let mut flags = [false; 8];
        let mut k: usize = 0;
        while k < 8
            invariant
                k <= 8,
                self@.len() == 8,
                forall|j: int| 0 <= j < k ==> flags@[j] == (decode_link(self@[j]) is Null),
            decreases 8 - k,
        {
            let w = self.words[k];
            proof {
                lemma_word_parts(w);
            }
            flags[k] = w == NULL_VALUE;
            k = k + 1;
        }
        bitmask(&flags)
    }

    /// Index field of every lane (`2^29 - 1` for null lanes).
    pub fn index(&self) -> (r: [u32; 8])
        ensures
            forall|i: int| 0 <= i < 8 ==> r@[i] == self@[i] / 8,
    {
        let mut r = [0u32; 8];
        let mut k: usize = 0;
        while k < 8
            invariant
                k <= 8,
                self@.len() == 8,
                forall|j: int| 0 <= j < k ==> r@[j] == self@[j] / 8,
            decreases 8 - k,
        {
            let w = self.words[k];
            proof {
                lemma_word_parts(w);
            }
            r[k] = w >> COUNT_BITS;
            k = k + 1;
        }
        r
    }

    /// Pack count of every lane (zero for inner and null lanes).
    pub fn count(&self) -> (r: [u32; 8])
        ensures
            forall|i: int| 0 <= i < 8 ==> r@[i] == self@[i] % 8,
    {
        let mut r = [0u32; 8];
        let mut k: usize = 0;
        while k < 8
            invariant
                k <= 8,
                self@.len() == 8,
                forall|j: int| 0 <= j < k ==> r@[j] == self@[j] % 8,
            decreases 8 - k,
        {
            let w = self.words[k];
            proof {
                lemma_word_parts(w);
            }
            r[k] = w & COUNT_MASK;
            k = k + 1;
        }
        r
    }

    /// Decodes the link in lane `i`.
    pub fn extract(&self, i: usize) -> (r: NodeLink)
        requires
            i < 8,
        ensures
            r == decode_link(self@[i as int]),
    {
        let value = self.words[i];
        proof {
            lemma_word_parts(value);
        }
        if value == NULL_VALUE {
            NodeLink::Null
        } else {
            let count = value & COUNT_MASK;
            let index = value >> COUNT_BITS;
            if count == 0 {
                NodeLink::Inner { index: InnerNodeIdx(index) }
            } else {
                NodeLink::Leaf {
                    indices: TrianglePackIdxRange::new(TrianglePackIdx(index), count),
                }
            }
        }
    }

    /// Encodes `value` into lane `i`, leaving the other lanes as they were.
    pub fn replace(&mut self, i: usize, value: NodeLink)
        requires
            i < 8,
            value.is_encodable(),
        ensures
            final(self)@ == old(self)@.update(i as int, encode_link(value)),
            decode_link(final(self)@[i as int]) == value,
    {
        let word = match value {
            NodeLink::Null => NULL_VALUE,
            NodeLink::Inner { index } => {
                proof {
                    lemma_word_join(index.0, 0);
                }
                index.0 << COUNT_BITS
            },
            NodeLink::Leaf { indices } => {
                let count = indices.count();
                proof {
                    lemma_word_join(indices.first.0, count);
                }
                (indices.first.0 << COUNT_BITS) | count
            },
        };
        self.words[i] = word;
        proof {
            lemma_link_round_trip(value);
        }
    }
}

} // verus!

verus! {

/// Layout of a leaf: its link, its pack count, and the padding lanes of its
/// last pack.
#[derive(Clone, Copy, Debug)]
pub struct LeafPlan {
    pub link: NodeLink,
    pub packet_count: u32,
    pub padding: usize,
}

/// Packs of eight needed for `n` triangles.
pub open spec fn packs_for(n: int) -> int {
    (n + 7) / 8
}

/// Plans a leaf over `triangle_count` triangles whose packs start at
/// `first_pack`: the triangles fill `ceil(n / 8)` packs, the last one padded
/// up to eight lanes.
pub fn plan_leaf(triangle_count: usize, first_pack: TrianglePackIdx) -> (r: LeafPlan)
    requires
        1 <= triangle_count <= LEAF_NODE_MAX_TRIANGLES,
        first_pack.0 <= MAX_INDEX,
    ensures
        r.packet_count == packs_for(triangle_count as int),
        MIN_COUNT <= r.packet_count <= MAX_COUNT,
        r.padding == r.packet_count * 8 - triangle_count,
        r.padding < 8,
        r.link == (NodeLink::Leaf {
            indices: TrianglePackIdxRange {
                first: first_pack,
                last: TrianglePackIdx((first_pack.0 + r.packet_count) as u32),
            },
        }),
        r.link.is_encodable(),
{
    let packet_count = (triangle_count + 7) / LEAF_NODE_PACKET_SIZE;
    let padding = packet_count * LEAF_NODE_PACKET_SIZE - triangle_count;
    let link = NodeLink::new_leaf(first_pack, packet_count as u32);
    LeafPlan { link, packet_count: packet_count as u32, padding }
}

/// Whether a triangle range is small enough for a single leaf.
pub fn fits_in_leaf(triangle_count: usize) -> (r: bool)
    ensures
        r == (triangle_count <= LEAF_NODE_MAX_TRIANGLES),
{
    triangle_count <= LEAF_NODE_MAX_TRIANGLES
}

/// Number of centroid bins for splitting `triangle_count` triangles: one per
/// 64 triangles, at least 128 and at most 1024.
pub fn split_bin_count(triangle_count: usize) -> (r: usize)
    ensures
        triangle_count / 64 < 128 ==> r == 128,
        triangle_count / 64 > 1024 ==> r == 1024,
        128 <= triangle_count / 64 <= 1024 ==> r == triangle_count / 64,
{
    let n = triangle_count / 64;
    if n < 128 {
        128
    } else if n > 1024 {
        1024
    } else {
        n
    }
}

} // verus!
