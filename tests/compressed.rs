use minipath::bvh::{pad_to_packs, BvhArenas, InnerNode, TriangleShadingData};
use minipath::compressed::{RelativePoint8, UnitInterval8};
use minipath::geometry::{Triangle, AABB};
use minipath::node_link::{plan_leaf, CompressedNodeLink8, NodeLink, TrianglePackIdx};

#[test]
fn quantize_clamps_and_masks() {
    let scaled = [-5, 0, 1, 65534, 65535, 70000, 300, 400];
    let lanes = UnitInterval8::from_scaled(&scaled, 0b0011_1111);
    assert_eq!(lanes.raw(), [0, 0, 1, 65534, 65535, 65535, 0, 0]);
    assert_eq!(lanes.is_zero(), 0b1100_0011);
}

#[test]
fn padding_lanes_are_zero() {
    let v = [1000i32; 8];
    let p = RelativePoint8::from_scaled(&v, &v, &v, 0b0000_0001);
    assert_eq!(p.is_zero(), 0b1111_1110);
    let q = RelativePoint8::from_scaled(&[0; 8], &[0; 8], &[5; 8], 0xff);
    assert_eq!(q.is_zero(), 0);
    assert_eq!(RelativePoint8::zero().is_zero(), 0xff);
}

#[test]
fn nine_triangle_leaf_layout() {
    let v = [30000i32; 8];
    let full = RelativePoint8::from_scaled(&v, &v, &v, 0xff);
    let last = RelativePoint8::from_scaled(&v, &v, &v, 0b0000_0001);
    let packs = vec![
        Triangle::new(full, full, full),
        Triangle::new(last, last, last),
    ];
    let mut shading: Vec<TriangleShadingData> = (0..9)
        .map(|i| TriangleShadingData {
            vertex_indices: Triangle::new(i, i + 1, i + 2),
            flat_shading: false,
            material: 0,
        })
        .collect();
    pad_to_packs(&mut shading);
    assert_eq!(shading.len(), 16);
    assert_eq!(shading[8].vertex_indices.0, [8, 9, 10]);
    assert!(shading[9..].iter().all(|d| d.vertex_indices.0 == [0, 0, 0] && !d.flat_shading && d.material == 0));
    let plan = plan_leaf(9, TrianglePackIdx::from_raw(0));
    assert_eq!(plan.packet_count, 2);
    assert_eq!(plan.padding, 7);

    let mut arenas = BvhArenas::new();
    let link = arenas.push_leaf(packs, shading);
    assert_eq!(link, plan.link);
    arenas.set_root(link);
    assert_eq!(arenas.triangle_pack_count(), 2);
    assert_eq!(arenas.triangle_count(), 16);
    let tail = arenas.triangle_pack(TrianglePackIdx::from_raw(1));
    let padding = tail.index(0).is_zero() & tail.index(1).is_zero() & tail.index(2).is_zero();
    assert_eq!(padding, 0b1111_1110);
    assert_eq!(arenas.root(), link);
}

#[test]
fn inner_node_links_resolve() {
    let mut arenas = BvhArenas::new();
    let v = [1i32; 8];
    let p = RelativePoint8::from_scaled(&v, &v, &v, 0xff);
    let idx = arenas.push_inner_placeholder();
    let leaf = arenas.push_leaf(vec![Triangle::new(p, p, p)], (0..8).map(|_| TriangleShadingData::padding()).collect());
    let mut links = CompressedNodeLink8::new();
    links.replace(0, leaf);
    arenas.set_inner(idx, InnerNode { child_bounds: AABB::new(p, p), child_links: links });
    arenas.set_root(NodeLink::new_inner(idx));
    assert_eq!(arenas.inner_node_count(), 1);
    assert_eq!(arenas.inner_node(idx).child_links.extract(0), leaf);
    assert_eq!(arenas.inner_node(idx).child_links.null_mask(), 0xfe);
}
