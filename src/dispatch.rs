//! Decisions of the worker pool: how many workers run, which tile a fetch
//! hands out, what progress is reported, and which worker closes the run.
//!
//! The pool shares one tile counter. Each fetch takes the counter's value as
//! a tile index and increments it; an index past the last tile tells the
//! worker to exit. Aborting stores the tile count into the counter.

use vstd::prelude::*;

use crate::screen_block::ScreenBlock;

verus! {

/// Settings of a render.
#[derive(Clone, Copy, Debug)]
pub struct RenderSettings {
    /// Edge of a square tile, in pixels.
    pub tile_size: u32,
    /// Samples taken per pixel.
    pub sample_count: u32,
}

impl RenderSettings {
    /// Both settings are positive.
    pub open spec fn wf(&self) -> bool {
        self.tile_size > 0 && self.sample_count > 0
    }

    /// Settings from positive values; `None` when either is zero.
    pub fn new(tile_size: u32, sample_count: u32) -> (r: Option<RenderSettings>)
        ensures
            (tile_size > 0 && sample_count > 0) <==> r is Some,
            r matches Some(s) ==> s.wf() && s.tile_size == tile_size && s.sample_count
                == sample_count,
    {
        if tile_size == 0 || sample_count == 0 {
            None
        } else {
            Some(RenderSettings { tile_size, sample_count })
        }
    }
}

/// Whether a background step lets the workers go on.
#[derive(Clone, Copy, Debug, PartialEq, Eq, Structural)]
pub enum Continue {
    Continue,
    Stop,
}

/// How many workers to start.
#[derive(Clone, Copy, Debug, PartialEq, Eq, Structural)]
pub enum WorkerCount {
    /// One per available CPU.
    Auto,
    /// A fixed, positive number.
    Manual(usize),
}

impl WorkerCount {
    /// The number of workers, given the number of CPUs available.
    pub fn resolve(&self, available: usize) -> (r: usize)
        ensures
            *self == WorkerCount::Auto ==> r == available,
            self matches WorkerCount::Manual(n) ==> r == n,
    {
        match self {
            WorkerCount::Auto => available,
            WorkerCount::Manual(n) => *n,
        }
    }
}

/// Tiles finished and tiles in total.
#[derive(Clone, Copy, Debug, PartialEq, Eq, Structural)]
pub struct RenderProgressSnapshot {
    pub finished: usize,
    pub total: usize,
}

/// The estimate handed to the tile-finished callback when the counter stands
/// at `next_tile_index`: every worker is taken to hold one unfinished index,
/// so `worker_count` is taken off. The progress report itself counts
/// finished tiles instead (see `TileDispatcher`).
pub open spec fn snapshot_of(next_tile_index: int, worker_count: int, total: usize) -> RenderProgressSnapshot {
    RenderProgressSnapshot {
        finished: if next_tile_index > worker_count {
            (next_tile_index - worker_count) as usize
        } else {
            0
        },
        total,
    }
}

/// The callback's progress estimate for a counter value.
pub fn progress_snapshot(next_tile_index: usize, worker_count: usize, total: usize) -> (r:
    RenderProgressSnapshot)
    ensures
        r == snapshot_of(next_tile_index as int, worker_count as int, total),
{
    let finished = if next_tile_index > worker_count {
        next_tile_index - worker_count
    } else {
        0
    };
    RenderProgressSnapshot { finished, total }
}

/// The tile that a fetch of index `id` hands out, if any is left.
pub fn tile_for_index(tiles: &Vec<ScreenBlock>, id: usize) -> (r: Option<ScreenBlock>)
    ensures
        id < tiles@.len() ==> r == Some(tiles@[id as int]),
        id >= tiles@.len() ==> r is None,
{
    if id < tiles.len() {
        Some(tiles[id])
    } else {
        None
    }
}

/// The shared tile counter of a render, with the number of workers that have
/// not exited yet, the tiles handed out, and the tiles finished.
///
/// Each worker fetches a tile, finishes it, and fetches again, until a fetch
/// past the last tile tells it to exit. A worker holds at most one tile.
#[derive(Clone, Copy, Debug)]
pub struct TileDispatcher {
    pub next_tile_index: usize,
    pub total: usize,
    pub worker_count: usize,
    /// Workers that have not exited.
    pub running: usize,
    /// Running workers that hold a tile they have not finished.
    pub holding: usize,
    /// Tiles handed out.
    pub dispatched: usize,
    /// Tiles finished.
    pub finished: usize,
    pub aborted: bool,
}

impl TileDispatcher {
    /// A worker exits only after a fetch past the last tile, so while tiles
    /// remain all workers run, and every exited worker accounts for one
    /// counter step past the end (exactly one, unless the run was aborted).
    /// Tiles handed out are finished or held; until an abort, the tiles
    /// handed out are the counter's value, capped at the total.
    pub open spec fn wf(&self) -> bool {
        &&& self.running <= self.worker_count
        &&& self.holding <= self.running
        &&& self.total + self.worker_count < usize::MAX
        &&& self.finished + self.holding == self.dispatched
        &&& self.dispatched <= self.total
        &&& !self.aborted && self.next_tile_index < self.total ==> self.dispatched
            == self.next_tile_index
        &&& !self.aborted && self.next_tile_index >= self.total ==> self.dispatched == self.total
        &&& self.next_tile_index < self.total ==> self.running == self.worker_count
        &&& self.next_tile_index >= self.total ==> self.next_tile_index - self.total
            <= self.worker_count - self.running
        &&& !self.aborted && self.next_tile_index >= self.total ==> self.next_tile_index
            - self.total == self.worker_count - self.running
        &&& self.aborted ==> self.next_tile_index >= self.total
    }

    /// Progress as a function of the state: the tiles finished.
    pub open spec fn spec_progress(&self) -> RenderProgressSnapshot {
        RenderProgressSnapshot { finished: self.finished, total: self.total }
    }

    /// A run over `total` tiles with `worker_count` workers, none started.
    pub fn new(total: usize, worker_count: usize) -> (r: TileDispatcher)
        requires
            total + worker_count < usize::MAX,
        ensures
            r.wf(),
            r.next_tile_index == 0,
            r.total == total,
            r.worker_count == worker_count,
            r.running == worker_count,
            r.holding == 0,
            r.dispatched == 0,
            r.finished == 0,
            !r.aborted,
    {
        TileDispatcher {
            next_tile_index: 0,
            total,
            worker_count,
            running: worker_count,
            holding: 0,
            dispatched: 0,
            finished: 0,
            aborted: false,
        }
    }

    /// A running worker that holds no tile takes the next tile index. Past
    /// the last tile the worker gets `None` and exits.
    pub fn fetch(&mut self) -> (r: Option<usize>)
        requires
            old(self).wf(),
            old(self).holding < old(self).running,
        ensures
            final(self).wf(),
            final(self).next_tile_index == old(self).next_tile_index + 1,
            final(self).total == old(self).total,
            final(self).worker_count == old(self).worker_count,
            final(self).aborted == old(self).aborted,
            final(self).finished == old(self).finished,
            old(self).next_tile_index < old(self).total ==> r == Some(old(self).next_tile_index),
            old(self).next_tile_index < old(self).total ==> final(self).running == old(self).running,
            old(self).next_tile_index < old(self).total ==> final(self).holding == old(self).holding + 1,
            old(self).next_tile_index < old(self).total ==> final(self).dispatched == old(self).dispatched + 1,
            old(self).next_tile_index >= old(self).total ==> r is None,
            old(self).next_tile_index >= old(self).total ==> final(self).running == old(self).running - 1,
            old(self).next_tile_index >= old(self).total ==> final(self).holding == old(self).holding,
            old(self).next_tile_index >= old(self).total ==> final(self).dispatched == old(self).dispatched,
            old(self).aborted ==> r is None,
    {
        let id = self.next_tile_index;
        self.next_tile_index = id + 1;
        if id < self.total {
            self.holding = self.holding + 1;
            self.dispatched = self.dispatched + 1;
            Some(id)
        } else {
            self.running = self.running - 1;
            None
        }
    }

    /// A worker finishes the tile it holds.
    pub fn finish_tile(&mut self)
        requires
            old(self).wf(),
            old(self).holding > 0,
        ensures
            final(self).wf(),
            final(self).finished == old(self).finished + 1,
            final(self).holding == old(self).holding - 1,
            final(self).next_tile_index == old(self).next_tile_index,
            final(self).total == old(self).total,
            final(self).worker_count == old(self).worker_count,
            final(self).running == old(self).running,
            final(self).dispatched == old(self).dispatched,
            final(self).aborted == old(self).aborted,
    {
        self.holding = self.holding - 1;
        self.finished = self.finished + 1;
    }

    /// No tile is handed out after this; workers finish the tile they hold.
    pub fn abort(&mut self)
        requires
            old(self).wf(),
        ensures
            final(self).wf(),
            final(self).next_tile_index == old(self).total,
            final(self).total == old(self).total,
            final(self).worker_count == old(self).worker_count,
            final(self).running == old(self).running,
            final(self).holding == old(self).holding,
            final(self).dispatched == old(self).dispatched,
            final(self).finished == old(self).finished,
            final(self).aborted,
            old(self).next_tile_index < old(self).total ==> final(self).dispatched < old(self).total,
    {
        self.next_tile_index = self.total;
        self.aborted = true;
    }

    /// Tiles finished and tiles in total.
    pub fn progress(&self) -> (r: RenderProgressSnapshot)
        ensures
            r == self.spec_progress(),
            r.finished == self.finished,
    {
        RenderProgressSnapshot { finished: self.finished, total: self.total }
    }

    /// Whether every worker has exited.
    pub fn is_finished(&self) -> (r: bool)
        ensures
            r == (self.running == 0),
    {
        self.running == 0
    }
}

/// Once every worker of a run that was not aborted has exited, all tiles are
/// reported finished.
pub proof fn lemma_finished_after_wait(d: TileDispatcher)
    requires
        d.wf(),
        !d.aborted,
        d.worker_count > 0,
        d.running == 0,
    ensures
        d.spec_progress().finished == d.total,
{
}

/// However the run went, aborted or not, the finished count never exceeds
/// the total.
pub proof fn lemma_finished_at_most_total(d: TileDispatcher)
    requires
        d.wf(),
    ensures
        d.spec_progress().finished <= d.total,
{
}

/// After an abort no fetch hands out a tile: every worker exits at its next
/// fetch, that is after the tile it holds.
pub proof fn lemma_abort_stops_dispatch(d: TileDispatcher)
    requires
        d.wf(),
        d.aborted,
    ensures
        d.next_tile_index >= d.total,
{
}

/// An abort made while tiles remain leaves the finished count below the
/// total for the rest of the run, in particular once all workers have
/// exited: `abort` then leaves fewer tiles handed out than the total, and an
/// aborted dispatcher hands out no more.
pub proof fn lemma_aborted_early_stays_unfinished(d: TileDispatcher)
    requires
        d.wf(),
        d.aborted,
        d.dispatched < d.total,
    ensures
        d.spec_progress().finished < d.total,
{
}

/// Counts the workers that have exited; the last one to exit closes the run.
#[derive(Clone, Copy, Debug)]
pub struct EndLatch {
    pub threads_done: usize,
    pub worker_count: usize,
}

impl EndLatch {
    pub fn new(worker_count: usize) -> (r: EndLatch)
        ensures
            r.threads_done == 0,
            r.worker_count == worker_count,
    {
        EndLatch { threads_done: 0, worker_count }
    }

    /// Records that one more worker exited; true for the last one.
    pub fn worker_done(&mut self) -> (last: bool)
        requires
            old(self).threads_done < old(self).worker_count,
        ensures
            final(self).threads_done == old(self).threads_done + 1,
            final(self).worker_count == old(self).worker_count,
            last == (final(self).threads_done == old(self).worker_count),
    {
        self.threads_done = self.threads_done + 1;
        self.threads_done == self.worker_count
    }
}

} // verus!
