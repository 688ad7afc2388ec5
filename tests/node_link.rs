use minipath::node_link::{
    fits_in_leaf, plan_leaf, split_bin_count, CompressedNodeLink8, InnerNodeIdx, NodeLink,
    TrianglePackIdx, TrianglePackIdxRange, MAX_COUNT, MAX_INDEX, MIN_COUNT, NULL_VALUE,
};

#[test]
fn node_link_simd_accessors_leaf() {
    let mut links_simd = CompressedNodeLink8::new();
    links_simd.replace(
        3,
        NodeLink::Leaf {
            indices: TrianglePackIdxRange {
                first: TrianglePackIdx::from_raw(10),
                last: TrianglePackIdx::from_raw(15),
            },
        },
    );

    let inner_node_mask = links_simd.inner_node_mask();
    assert!(inner_node_mask == 0, "{:?}", inner_node_mask);

    let leaf_node_mask = links_simd.leaf_node_mask();
    assert!(leaf_node_mask == 0x08);

    let null_mask = links_simd.null_mask();
    assert!(null_mask == 0xf7);

    let index = links_simd.index();
    assert!(index[3] == 10, "{:?}", index);

    let count = links_simd.count();
    assert!(count[3] == 5, "{:?}", count);
}

#[test]
fn node_link_simd_accessors_inner() {
    let mut links_simd = CompressedNodeLink8::new();
    links_simd.replace(
        3,
        NodeLink::Inner {
            index: InnerNodeIdx::from_raw(10),
        },
    );

    let inner_node_mask = links_simd.inner_node_mask();
    assert!(inner_node_mask == 0x08);

    let leaf_node_mask = links_simd.leaf_node_mask();
    assert!(leaf_node_mask == 0, "{:?}", leaf_node_mask);

    let null_mask = links_simd.null_mask();
    assert!(null_mask == 0xf7);

    let index = links_simd.index();
    assert!(index[3] == 10, "{:?}", index);
}

#[test]
fn leaf_round_trip_at_bounds() {
    for &index in &[0u32, 1, 12345, MAX_INDEX - 1, MAX_INDEX] {
        for count in 1..=MAX_COUNT {
            let link = NodeLink::new_leaf(TrianglePackIdx::from_raw(index), count);
            let mut links = CompressedNodeLink8::new();
            links.replace(5, link);
            let decoded = links.extract(5);
            assert_eq!(decoded, link);
            match decoded {
                NodeLink::Leaf { indices } => {
                    assert_eq!(indices.first.raw(), index);
                    assert_eq!(indices.count(), count);
                }
                _ => panic!("expected a leaf"),
            }
            for lane in 0..8 {
                if lane != 5 {
                    assert_eq!(links.extract(lane), NodeLink::Null);
                }
            }
        }
    }
}

#[test]
fn inner_round_trip_at_bounds() {
    for &index in &[0u32, 7, MAX_INDEX] {
        let link = NodeLink::new_inner(InnerNodeIdx::from_raw(index));
        let mut links = CompressedNodeLink8::new();
        links.replace(0, link);
        assert_eq!(links.extract(0), link);
        assert_eq!(links.index()[0], index);
        assert_eq!(links.count()[0], 0);
    }
}

#[test]
fn null_link_decodes_to_null() {
    let links = CompressedNodeLink8::new();
    for lane in 0..8 {
        assert_eq!(links.extract(lane), NodeLink::Null);
    }
    assert_eq!(links.null_mask(), 0xff);
    assert_eq!(links.inner_node_mask(), 0);
    assert_eq!(links.leaf_node_mask(), 0);
    assert_eq!(NULL_VALUE, 0xFFFF_FFF8);
    assert_eq!(MAX_INDEX, (1 << 29) - 2);
}

#[test]
fn replace_with_null_clears_lane() {
    let mut links = CompressedNodeLink8::new();
    links.replace(2, NodeLink::new_inner(InnerNodeIdx::from_raw(4)));
    links.replace(2, NodeLink::null());
    assert_eq!(links.extract(2), NodeLink::Null);
    assert_eq!(links.null_mask(), 0xff);
}

#[test]
fn pack_range_helpers() {
    let range = TrianglePackIdxRange::new(TrianglePackIdx::from_raw(4), 3);
    assert_eq!(range.count(), 3);
    assert_eq!(range.into_range(), 4..7);
    let ids: Vec<u32> = range.iter().iter().map(|i| i.raw()).collect();
    assert_eq!(ids, vec![4, 5, 6]);
    assert_eq!(TrianglePackIdx::from_raw(3).to_triangle_idx(5).raw(), 29);
}

#[test]
fn leaf_plan_for_nine_triangles() {
    let plan = plan_leaf(9, TrianglePackIdx::from_raw(20));
    assert_eq!(plan.packet_count, 2);
    assert_eq!(plan.padding, 7);
    assert_eq!(
        plan.link,
        NodeLink::Leaf {
            indices: TrianglePackIdxRange {
                first: TrianglePackIdx::from_raw(20),
                last: TrianglePackIdx::from_raw(22),
            }
        }
    );
}

#[test]
fn leaf_plan_edges() {
    let one = plan_leaf(1, TrianglePackIdx::from_raw(0));
    assert_eq!((one.packet_count, one.padding), (1, 7));
    let full = plan_leaf(56, TrianglePackIdx::from_raw(0));
    assert_eq!((full.packet_count, full.padding), (7, 0));
    let eight = plan_leaf(8, TrianglePackIdx::from_raw(0));
    assert_eq!((eight.packet_count, eight.padding), (1, 0));
    assert!(fits_in_leaf(56));
    assert!(!fits_in_leaf(57));
}

#[test]
fn bin_count_is_clamped() {
    assert_eq!(split_bin_count(57), 128);
    assert_eq!(split_bin_count(64 * 500), 500);
    assert_eq!(split_bin_count(64 * 5000), 1024);
}

#[test]
fn checked_leaf_rejects_out_of_range() {
    assert!(NodeLink::try_new_leaf(0, 0).is_none());
    assert!(NodeLink::try_new_leaf(0, MAX_COUNT + 1).is_none());
    assert!(NodeLink::try_new_leaf(MAX_INDEX + 1, 1).is_none());
    assert_eq!(
        NodeLink::try_new_leaf(MAX_INDEX, MIN_COUNT),
        Some(NodeLink::new_leaf(TrianglePackIdx::from_raw(MAX_INDEX), MIN_COUNT))
    );
    assert_eq!(
        NodeLink::try_new_leaf(9, 7),
        Some(NodeLink::new_leaf(TrianglePackIdx::from_raw(9), 7))
    );
}
