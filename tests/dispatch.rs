use minipath::dispatch::{
    progress_snapshot, tile_for_index, EndLatch, RenderSettings, TileDispatcher, WorkerCount,
};
use minipath::geometry::ScreenSize;
use minipath::screen_block::ScreenBlock;

/// Runs workers round-robin until each has exited: a worker holding a tile
/// finishes it, then fetches again. Returns the tiles handed out.
fn run_all(d: &mut TileDispatcher, holding: &mut Vec<bool>) -> Vec<usize> {
    let mut handed = Vec::new();
    let mut exited = vec![false; d.worker_count];
    while exited.iter().any(|e| !e) {
        for w in 0..d.worker_count {
            if exited[w] {
                continue;
            }
            if holding[w] {
                d.finish_tile();
                holding[w] = false;
            }
            match d.fetch() {
                Some(id) => {
                    handed.push(id);
                    holding[w] = true;
                }
                None => exited[w] = true,
            }
        }
    }
    handed
}

#[test]
fn all_tiles_finished_after_wait() {
    for &(total, workers) in &[(768usize, 8usize), (5, 16), (1, 1), (0, 3)] {
        let mut d = TileDispatcher::new(total, workers);
        let handed = run_all(&mut d, &mut vec![false; workers]);
        assert_eq!(handed, (0..total).collect::<Vec<_>>());
        assert!(d.is_finished());
        let p = d.progress();
        assert_eq!(p.finished, total);
        assert_eq!(p.total, total);
    }
}

#[test]
fn abort_right_after_start() {
    let image = ScreenBlock::from_size(ScreenSize::new(2048, 1536));
    let total = image.tile_grid(64).len();
    assert_eq!(total, 768);
    let workers = 8;
    let mut d = TileDispatcher::new(total, workers);
    let mut holding = vec![false; workers];
    for w in 0..workers {
        assert_eq!(d.fetch(), Some(w));
        holding[w] = true;
    }
    d.abort();
    let handed = run_all(&mut d, &mut holding);
    assert!(handed.is_empty());
    assert!(d.is_finished());
    let p = d.progress();
    assert!(p.finished < p.total);
    assert_eq!(p.finished, workers);
    assert_eq!(p.total, 768);
}

#[test]
fn abort_before_any_fetch() {
    let mut d = TileDispatcher::new(10, 4);
    d.abort();
    run_all(&mut d, &mut vec![false; 4]);
    assert!(d.is_finished());
    assert_eq!(d.progress().finished, 0);
}

#[test]
fn abort_mid_run_never_exceeds_total() {
    let mut d = TileDispatcher::new(20, 3);
    let mut holding = vec![false; 3];
    for w in 0..3 {
        d.fetch();
        holding[w] = true;
    }
    for w in 0..3 {
        d.finish_tile();
        holding[w] = false;
        d.fetch();
        holding[w] = true;
    }
    d.abort();
    run_all(&mut d, &mut holding);
    assert!(d.progress().finished <= 20);
    assert_eq!(d.progress().finished, 6);
}

#[test]
fn progress_saturates() {
    assert_eq!(progress_snapshot(3, 8, 10).finished, 0);
    assert_eq!(progress_snapshot(12, 8, 10).finished, 4);
    assert_eq!(progress_snapshot(18, 8, 10).finished, 10);
}

#[test]
fn tile_lookup() {
    let tiles = ScreenBlock::from_size(ScreenSize::new(10, 10)).tile_grid(5);
    assert_eq!(tile_for_index(&tiles, 3).unwrap().min.x, 5);
    assert!(tile_for_index(&tiles, 4).is_none());
}

#[test]
fn end_latch_marks_last_worker() {
    let mut latch = EndLatch::new(3);
    assert!(!latch.worker_done());
    assert!(!latch.worker_done());
    assert!(latch.worker_done());
}

#[test]
fn settings_and_worker_count() {
    assert!(RenderSettings::new(0, 4).is_none());
    assert!(RenderSettings::new(4, 0).is_none());
    let s = RenderSettings::new(64, 100).unwrap();
    assert_eq!((s.tile_size, s.sample_count), (64, 100));
    assert_eq!(WorkerCount::Auto.resolve(12), 12);
    assert_eq!(WorkerCount::Manual(3).resolve(12), 3);
}
