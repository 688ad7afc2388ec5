use minipath::image_block::{divide_round_up, Block};

fn pixels(b: &Block) -> Vec<(usize, usize)> {
    let mut it = b.pixel_coordinates();
    let mut out = Vec::new();
    while let Some(p) = it.next() {
        out.push(p);
    }
    out
}

#[test]
fn single_pixel() {
    assert_eq!(pixels(&Block::new(1, 1)), [(0, 0)]);
}

#[test]
fn pixel_coordinates_cover_block() {
    let b = Block { x: 4, y: 7, w: 3, h: 2 };
    assert_eq!(b.pixel_coordinates().len(), 6);
    assert_eq!(pixels(&b), vec![(4, 7), (5, 7), (6, 7), (4, 8), (5, 8), (6, 8)]);
    assert!(pixels(&Block::new(0, 5)).is_empty());
    assert!(b.contains((6, 8)));
    assert!(!b.contains((7, 8)));
    assert!(Block::new(3, 0).is_empty());
}

#[test]
fn spiral_chunks_cover_block_once() {
    for &(w, h, size) in &[(10usize, 10usize, 3usize), (17, 5, 4), (1, 1, 1), (9, 30, 2), (0, 4, 2)] {
        let b = Block { x: 2, y: 3, w, h };
        let mut chunks = b.spiral_chunks(size).unwrap();
        let expected = divide_round_up(w, size) * divide_round_up(h, size);
        assert_eq!(chunks.len(), expected);
        let mut seen = vec![0u32; w * h];
        let mut n = 0;
        let mut first: Option<Block> = None;
        let mut prev_distance = 0;
        while let Some(c) = chunks.next() {
            n += 1;
            assert_eq!(chunks.len(), expected - n);
            let f = *first.get_or_insert(c);
            let distance = c.x.abs_diff(f.x).max(c.y.abs_diff(f.y));
            assert!(distance >= prev_distance);
            prev_distance = distance;
            assert!(!c.is_empty());
            for (x, y) in pixels(&c) {
                assert!(b.contains((x, y)));
                seen[(x - b.x) + (y - b.y) * w] += 1;
            }
        }
        assert_eq!(n, expected);
        assert!(seen.iter().all(|&k| k == 1));
    }
}

#[test]
fn spiral_starts_in_the_middle() {
    let b = Block::new(9, 9);
    let mut chunks = b.spiral_chunks(3).unwrap();
    let first = chunks.next().unwrap();
    assert_eq!((first.x, first.y, first.w, first.h), (3, 3, 3, 3));
}

#[test]
fn spiral_chunks_reject_zero_size() {
    assert_eq!(Block::new(4, 4).spiral_chunks(0).err(), Some("Chunk size can't be zero"));
}

#[test]
fn divide_round_up_values() {
    assert_eq!(divide_round_up(10, 3), 4);
    assert_eq!(divide_round_up(9, 3), 3);
    assert_eq!(divide_round_up(0, 3), 0);
}
