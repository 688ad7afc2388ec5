//! Arenas of a triangle BVH: inner nodes, triangle packs, and per-triangle
//! shading records, tied together by links that always resolve.

use vstd::prelude::*;

use crate::compressed::{RelativeBox8, RelativeTriangle8};
use crate::geometry::Triangle;
use crate::node_link::{
    decode_link, CompressedNodeLink8, InnerNodeIdx, NodeLink, TriangleIdx, TrianglePackIdx,
    MAX_COUNT, MAX_INDEX,
};

verus! {

/// An inner node: eight child boxes relative to the node's enclosing box and
/// eight child links.
#[derive(Clone, Copy, Debug)]
pub struct InnerNode {
    pub child_bounds: RelativeBox8,
    pub child_links: CompressedNodeLink8,
}

/// Shading record of one triangle.
#[derive(Clone, Copy, Debug)]
pub struct TriangleShadingData {
    pub vertex_indices: Triangle<usize>,
    pub flat_shading: bool,
    pub material: usize,
}

impl TriangleShadingData {
    /// The record of a padding lane: never referenced by a hit.
    pub fn padding() -> (r: Self)
        ensures
            r.vertex_indices.0@ == seq![0usize, 0usize, 0usize],
            !r.flat_shading,
            r.material == 0,
    {
        TriangleShadingData {
            vertex_indices: Triangle::new(0, 0, 0),
            flat_shading: false,
            material: 0,
        }
    }
}

/// Whether a record is the padding record.
pub open spec fn is_padding(d: TriangleShadingData) -> bool {
    d.vertex_indices.0@ == seq![0usize, 0usize, 0usize] && !d.flat_shading && d.material == 0
}

/// Appends padding records until the records fill whole packs of eight.
pub fn pad_to_packs(shading: &mut Vec<TriangleShadingData>)
    requires
        old(shading)@.len() + 8 <= usize::MAX,
    ensures
        final(shading)@.len() == (old(shading)@.len() + 7) / 8 * 8,
        forall|k: int|
            0 <= k < old(shading)@.len() ==> #[trigger] final(shading)@[k] == old(shading)@[k],
        forall|k: int|
            old(shading)@.len() <= k < final(shading)@.len() ==> is_padding(
                #[trigger] final(shading)@[k],
            ),
{
    let n = shading.len();
    let target = (n + 7) / 8 * 8;
    while shading.len() < target
        invariant
            n == old(shading)@.len(),
            target == (n + 7) / 8 * 8,
            n <= shading@.len() <= target,
            forall|k: int| 0 <= k < n ==> #[trigger] shading@[k] == old(shading)@[k],
            forall|k: int| n <= k < shading@.len() ==> is_padding(#[trigger] shading@[k]),
        decreases target - shading@.len(),
    {
        shading.push(TriangleShadingData::padding());
    }
}

/// Whether a link points into arenas of the given sizes.
pub open spec fn link_resolves(link: NodeLink, inner_count: int, pack_count: int) -> bool {
    match link {
        NodeLink::Null => true,
        NodeLink::Inner { index } => index.0 < inner_count,
        NodeLink::Leaf { indices } => indices.first.0 <= indices.last.0 <= pack_count,
    }
}

/// The arenas of a BVH and its root link.
pub struct BvhArenas {
    inner_nodes: Vec<InnerNode>,
    triangle_geometry: Vec<RelativeTriangle8>,
    triangle_shading_data: Vec<TriangleShadingData>,
    root: NodeLink,
}

impl BvhArenas {
    pub closed spec fn inner_count(&self) -> int {
        self.inner_nodes@.len() as int
    }

    pub closed spec fn pack_count(&self) -> int {
        self.triangle_geometry@.len() as int
    }

    pub closed spec fn shading_count(&self) -> int {
        self.triangle_shading_data@.len() as int
    }

    pub closed spec fn spec_root(&self) -> NodeLink {
        self.root
    }

    pub closed spec fn spec_inner(&self, i: int) -> InnerNode {
        self.inner_nodes@[i]
    }

    pub closed spec fn spec_pack(&self, i: int) -> RelativeTriangle8 {
        self.triangle_geometry@[i]
    }

    pub closed spec fn spec_shading(&self, i: int) -> TriangleShadingData {
        self.triangle_shading_data@[i]
    }

    /// Every link, the root's and those of all inner nodes, resolves; every
    /// pack has eight shading records.
    pub closed spec fn wf(&self) -> bool {
        &&& self.triangle_shading_data@.len() == self.triangle_geometry@.len() * 8
        &&& self.inner_nodes@.len() <= MAX_INDEX + 1
        &&& self.triangle_geometry@.len() <= MAX_INDEX + 1
        &&& link_resolves(self.root, self.inner_count(), self.pack_count())
        &&& forall|n: int, lane: int|
            0 <= n < self.inner_nodes@.len() && 0 <= lane < 8 ==> link_resolves(
                decode_link(#[trigger] self.inner_nodes@[n].child_links@[lane]),
                self.inner_count(),
                self.pack_count(),
            )
    }

    /// Empty arenas with a null root.
    pub fn new() -> (r: Self)
        ensures
            r.wf(),
            r.inner_count() == 0,
            r.pack_count() == 0,
            r.spec_root() == NodeLink::Null,
    {
        BvhArenas {
            inner_nodes: Vec::new(),
            triangle_geometry: Vec::new(),
            triangle_shading_data: Vec::new(),
            root: NodeLink::Null,
        }
    }

    /// Number of inner nodes.
    pub fn inner_node_count(&self) -> (r: usize)
        ensures
            r == self.inner_count(),
    {
        self.inner_nodes.len()
    }

    /// Number of triangle packs.
    pub fn triangle_pack_count(&self) -> (r: usize)
        ensures
            r == self.pack_count(),
    {
        self.triangle_geometry.len()
    }

    /// Number of shading records, eight per pack.
    pub fn triangle_count(&self) -> (r: usize)
        requires
            self.wf(),
        ensures
            r == self.pack_count() * 8,
    {
        self.triangle_shading_data.len()
    }

    /// The root link.
    pub fn root(&self) -> (r: NodeLink)
        requires
            self.wf(),
        ensures
            r == self.spec_root(),
            link_resolves(r, self.inner_count(), self.pack_count()),
    {
        self.root
    }

    /// Appends a leaf of `packs` with eight shading records per pack and
    /// returns its link.
    pub fn push_leaf(&mut self, packs: Vec<RelativeTriangle8>, shading: Vec<TriangleShadingData>) -> (r: NodeLink)
        requires
            old(self).wf(),
            1 <= packs@.len() <= MAX_COUNT,
            shading@.len() == packs@.len() * 8,
            old(self).pack_count() + packs@.len() <= MAX_INDEX + 1,
        ensures
            final(self).wf(),
            final(self).inner_count() == old(self).inner_count(),
            final(self).pack_count() == old(self).pack_count() + packs@.len(),
            final(self).spec_root() == old(self).spec_root(),
            forall|n: int| 0 <= n < old(self).inner_count() ==> #[trigger] final(self).spec_inner(n)
                == old(self).spec_inner(n),
            forall|k: int| 0 <= k < old(self).pack_count() ==> #[trigger] final(self).spec_pack(k)
                == old(self).spec_pack(k),
            forall|k: int| 0 <= k < packs@.len() ==> final(self).spec_pack(
                old(self).pack_count() + k,
            ) == #[trigger] packs@[k],
            forall|k: int| 0 <= k < shading@.len() ==> final(self).spec_shading(
                old(self).pack_count() * 8 + k,
            ) == #[trigger] shading@[k],
            r.is_encodable(),
            r == (NodeLink::Leaf {
                indices: crate::node_link::TrianglePackIdxRange {
                    first: TrianglePackIdx(old(self).pack_count() as u32),
                    last: TrianglePackIdx((old(self).pack_count() + packs@.len()) as u32),
                },
            }),
    {
        let first = self.triangle_geometry.len() as u32;
        let count = packs.len() as u32;
        let mut i: usize = 0;
        while i < packs.len()
            invariant
                i <= packs@.len(),
                self.triangle_geometry@.len() == first + i,
                first == old(self).triangle_geometry@.len(),
                forall|k: int| 0 <= k < first ==> #[trigger] self.triangle_geometry@[k]
                    == old(self).triangle_geometry@[k],
                forall|k: int| 0 <= k < i ==> self.triangle_geometry@[first + k] == #[trigger] packs@[k],
                self.triangle_shading_data@ == old(self).triangle_shading_data@,
                self.inner_nodes@ == old(self).inner_nodes@,
                self.root == old(self).root,
            decreases packs.len() - i,
        {
            self.triangle_geometry.push(packs[i]);
            i = i + 1;
        }
        let mut j: usize = 0;
        while j < shading.len()
            invariant
                j <= shading@.len(),
                self.triangle_shading_data@.len() == old(self).triangle_shading_data@.len() + j,
                old(self).triangle_shading_data@.len() == first * 8,
                forall|k: int| 0 <= k < j ==> self.triangle_shading_data@[first * 8 + k]
                    == #[trigger] shading@[k],
                self.triangle_geometry@.len() == first + packs@.len(),
                first == old(self).triangle_geometry@.len(),
                forall|k: int| 0 <= k < first ==> #[trigger] self.triangle_geometry@[k]
                    == old(self).triangle_geometry@[k],
                forall|k: int| 0 <= k < packs@.len() ==> self.triangle_geometry@[first + k] == #[trigger] packs@[k],
                self.inner_nodes@ == old(self).inner_nodes@,
                self.root == old(self).root,
            decreases shading.len() - j,
        {
            self.triangle_shading_data.push(shading[j]);
            j = j + 1;
        }
        let r = NodeLink::new_leaf(TrianglePackIdx(first), count);
        proof {
            let s = *self;
            assert forall|n: int, lane: int|
                0 <= n < s.inner_nodes@.len() && 0 <= lane < 8 implies link_resolves(
                decode_link(#[trigger] s.inner_nodes@[n].child_links@[lane]),
                s.inner_count(),
                s.pack_count(),
            ) by {
                assert(s.inner_nodes@[n] == old(self).inner_nodes@[n]);
            }
        }
        r
    }

    /// Appends an inner node whose links are all null, to be filled in once
    /// its children exist, and returns its index.
    pub fn push_inner_placeholder(&mut self) -> (r: InnerNodeIdx)
        requires
            old(self).wf(),
            old(self).inner_count() <= MAX_INDEX,
        ensures
            final(self).wf(),
            r.0 == old(self).inner_count(),
            final(self).inner_count() == old(self).inner_count() + 1,
            final(self).pack_count() == old(self).pack_count(),
            final(self).spec_root() == old(self).spec_root(),
            forall|n: int| 0 <= n < old(self).inner_count() ==> #[trigger] final(self).spec_inner(n)
                == old(self).spec_inner(n),
    {
        let idx = self.inner_nodes.len() as u32;
        let links = CompressedNodeLink8::new();
        let node = InnerNode {
            child_bounds: crate::geometry::AABB {
                min: crate::compressed::RelativePoint8::zero(),
                max: crate::compressed::RelativePoint8::zero(),
            },
            child_links: links,
        };
        self.inner_nodes.push(node);
        proof {
            let s = *self;
            assert forall|n: int, lane: int|
                0 <= n < s.inner_nodes@.len() && 0 <= lane < 8 implies link_resolves(
                decode_link(#[trigger] s.inner_nodes@[n].child_links@[lane]),
                s.inner_count(),
                s.pack_count(),
            ) by {
                if n < old(self).inner_nodes@.len() {
                    assert(s.inner_nodes@[n] == old(self).inner_nodes@[n]);
                } else {
                    assert(s.inner_nodes@[n].child_links@[lane] == crate::node_link::NULL_VALUE);
                }
            }
        }
        InnerNodeIdx(idx)
    }

    /// Replaces inner node `index`; all of its links must resolve.
    pub fn set_inner(&mut self, index: InnerNodeIdx, node: InnerNode)
        requires
            old(self).wf(),
            index.0 < old(self).inner_count(),
            forall|lane: int|
                0 <= lane < 8 ==> link_resolves(
                    decode_link(#[trigger] node.child_links@[lane]),
                    old(self).inner_count(),
                    old(self).pack_count(),
                ),
        ensures
            final(self).wf(),
            final(self).inner_count() == old(self).inner_count(),
            final(self).pack_count() == old(self).pack_count(),
            final(self).spec_root() == old(self).spec_root(),
            final(self).spec_inner(index.0 as int) == node,
    {
        let i = index.0 as usize;
        self.inner_nodes.set(i, node);
        proof {
            let s = *self;
            assert forall|n: int, lane: int|
                0 <= n < s.inner_nodes@.len() && 0 <= lane < 8 implies link_resolves(
                decode_link(#[trigger] s.inner_nodes@[n].child_links@[lane]),
                s.inner_count(),
                s.pack_count(),
            ) by {
                if n != i {
                    assert(s.inner_nodes@[n] == old(self).inner_nodes@[n]);
                }
            }
        }
    }

    /// Makes `link` the root; it must resolve.
    pub fn set_root(&mut self, link: NodeLink)
        requires
            old(self).wf(),
            link_resolves(link, old(self).inner_count(), old(self).pack_count()),
        ensures
            final(self).wf(),
            final(self).inner_count() == old(self).inner_count(),
            final(self).pack_count() == old(self).pack_count(),
            final(self).spec_root() == link,
    {
        self.root = link;
        proof {
            let s = *self;
            assert forall|n: int, lane: int|
                0 <= n < s.inner_nodes@.len() && 0 <= lane < 8 implies link_resolves(
                decode_link(#[trigger] s.inner_nodes@[n].child_links@[lane]),
                s.inner_count(),
                s.pack_count(),
            ) by {
                assert(s.inner_nodes@[n] == old(self).inner_nodes@[n]);
            }
        }
    }

    /// Inner node `index`, whose links all resolve.
    pub fn inner_node(&self, index: InnerNodeIdx) -> (r: &InnerNode)
        requires
            self.wf(),
            index.0 < self.inner_count(),
        ensures
            *r == self.spec_inner(index.0 as int),
            forall|lane: int|
                0 <= lane < 8 ==> link_resolves(
                    decode_link(#[trigger] r.child_links@[lane]),
                    self.inner_count(),
                    self.pack_count(),
                ),
    {
        &self.inner_nodes[index.0 as usize]
    }

    /// Triangle pack `index`.
    pub fn triangle_pack(&self, index: TrianglePackIdx) -> (r: &RelativeTriangle8)
        requires
            index.0 < self.pack_count(),
        ensures
            *r == self.spec_pack(index.0 as int),
    {
        &self.triangle_geometry[index.0 as usize]
    }

    /// Shading record of triangle `index`.
    pub fn triangle_shading(&self, index: TriangleIdx) -> (r: &TriangleShadingData)
        requires
            index.0 < self.shading_count(),
        ensures
            *r == self.spec_shading(index.0 as int),
    {
        &self.triangle_shading_data[index.0]
    }
}

} // verus!
