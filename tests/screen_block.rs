use minipath::geometry::{ScreenPoint, ScreenSize};
use minipath::screen_block::{divide_range, sort_order, ScreenBlock};

fn block(x0: u32, y0: u32, x1: u32, y1: u32) -> ScreenBlock {
    ScreenBlock::new(ScreenPoint::new(x0, y0), ScreenPoint::new(x1, y1))
}

fn check_cover(b: &ScreenBlock, tiles: &[ScreenBlock]) {
    let w = b.width() as usize;
    let h = b.height() as usize;
    let mut seen = vec![0u32; w * h];
    for t in tiles {
        assert!(!t.is_empty());
        let mut points = t.internal_points();
        while let Some(p) = points.next() {
            assert!(b.contains(&p));
            seen[(p.x - b.min.x) as usize + (p.y - b.min.y) as usize * w] += 1;
        }
    }
    assert!(seen.iter().all(|&n| n == 1));
}

#[test]
fn screen_block_is_empty() {
    assert!(!block(0, 0, 10, 10).is_empty());

    assert!(block(0, 0, 0, 0).is_empty());
    assert!(block(0, 0, 10, 0).is_empty());
    assert!(block(5, 5, 10, 1).is_empty());
}

#[test]
fn area_contains_center() {
    let b = block(2, 3, 12, 8);
    assert_eq!(b.area(), 50);
    assert_eq!(block(5, 5, 1, 1).area(), 0);
    assert!(b.contains(&ScreenPoint::new(2, 3)));
    assert!(!b.contains(&ScreenPoint::new(12, 3)));
    assert!(!b.contains(&ScreenPoint::new(2, 8)));
    assert_eq!(b.center(), ScreenPoint::new(7, 5));
    let full = ScreenBlock::from_size(ScreenSize::new(u32::MAX, u32::MAX));
    assert_eq!(full.center(), ScreenPoint::new(u32::MAX / 2, u32::MAX / 2));
}

#[test]
fn internal_points_row_order() {
    let b = block(1, 1, 3, 3);
    let mut it = b.internal_points();
    assert_eq!(it.len(), 4);
    let mut out = Vec::new();
    while let Some(p) = it.next() {
        out.push((p.x, p.y));
    }
    assert_eq!(out, vec![(1, 1), (2, 1), (1, 2), (2, 2)]);
    assert_eq!(it.len(), 0);
    assert_eq!(block(3, 3, 3, 9).internal_points().len(), 0);
}

#[test]
fn divide_range_clips_last_piece() {
    assert_eq!(divide_range(0, 10, 4), vec![(0, 4), (4, 8), (8, 10)]);
    assert_eq!(divide_range(3, 11, 4), vec![(3, 7), (7, 11)]);
    assert_eq!(divide_range(5, 5, 4), vec![]);
    assert_eq!(
        divide_range(u32::MAX - 5, u32::MAX, 4),
        vec![(u32::MAX - 5, u32::MAX - 1), (u32::MAX - 1, u32::MAX)]
    );
}

#[test]
fn tile_grid_counts() {
    let image = ScreenBlock::from_size(ScreenSize::new(2048, 1536));
    let tiles = image.tile_grid(64);
    assert_eq!(tiles.len(), 32 * 24);
    let small = block(0, 0, 70, 30).tile_grid(32);
    assert_eq!(small.len(), 3);
    assert_eq!(small[2].min, ScreenPoint::new(64, 0));
    assert_eq!(small[2].max, ScreenPoint::new(70, 30));
    assert!(block(0, 0, 0, 10).tile_grid(8).is_empty());
}

#[test]
fn tile_ordering_covers_image_once() {
    let b = block(3, 5, 103, 75);
    let grid = b.tile_grid(16);
    let keys: Vec<u32> = (0..grid.len() as u32).map(|i| (i * 7919) % 13).collect();
    let ordered = b.tile_ordering(16, &keys);
    assert_eq!(ordered.len(), grid.len());
    check_cover(&b, &ordered);
}

#[test]
fn tile_ordering_single_pixel_tiles() {
    let b = block(0, 0, 5, 4);
    let grid = b.tile_grid(1);
    let keys: Vec<u32> = (0..grid.len() as u32).rev().collect();
    let ordered = b.tile_ordering(1, &keys);
    check_cover(&b, &ordered);
    assert_eq!(ordered[0].min, ScreenPoint::new(4, 3));
}

#[test]
fn sort_order_is_stable() {
    let keys = vec![5u32, 1, 5, 0, 1];
    assert_eq!(sort_order(&keys), vec![3, 1, 4, 0, 2]);
    assert_eq!(sort_order(&Vec::new()), Vec::<usize>::new());
}
