//! The streaming state: the observer's chunk, the chunks that should exist
//! around it, the chunks for which a generation job has been scheduled, and
//! the chunks that have been placed in the world.
//!
//! One update cycle runs, in this order: observer tracking, rebuilding the
//! desired chunks, scheduling jobs for desired chunks not yet reserved,
//! integrating finished jobs, and the regeneration gate.

use vstd::prelude::*;
use crate::chunk_set::{ChunkCoord, ChunkSet};
use crate::chunk_pool::{chunk_ball, chunk_ball_fits, rebuild_chunk_pool};

verus! {

/// Coordinates scheduled when `desired` is compared against `reserved`.
pub open spec fn to_schedule(desired: Set<ChunkCoord>, reserved: Set<ChunkCoord>) -> Set<
    ChunkCoord,
> {
    desired - reserved
}

/// The reservations after scheduling against `desired`.
pub open spec fn after_reserving(desired: Set<ChunkCoord>, reserved: Set<ChunkCoord>) -> Set<
    ChunkCoord,
> {
    reserved + desired
}

/// The reservations after `k` scheduling steps, the `i`-th against `ds[i]`,
/// starting from `r0`, with no regeneration in between.
pub open spec fn reserved_after(r0: Set<ChunkCoord>, ds: Seq<Set<ChunkCoord>>, k: nat) -> Set<
    ChunkCoord,
>
    decreases k,
{
    if k == 0 {
        r0
    } else {
        after_reserving(ds[k - 1], reserved_after(r0, ds, (k - 1) as nat))
    }
}

/// What the `k`-th of those scheduling steps schedules.
pub open spec fn scheduled_at(r0: Set<ChunkCoord>, ds: Seq<Set<ChunkCoord>>, k: nat) -> Set<
    ChunkCoord,
> {
    to_schedule(ds[k as int], reserved_after(r0, ds, k))
}

proof fn lemma_reserved_after_grows(r0: Set<ChunkCoord>, ds: Seq<Set<ChunkCoord>>, i: nat, j: nat)
    requires
        i <= j,
    ensures
        reserved_after(r0, ds, i).subset_of(reserved_after(r0, ds, j)),
    decreases j,
{
    if i < j {
        lemma_reserved_after_grows(r0, ds, i, (j - 1) as nat);
    }
}

/// Between two regenerations no coordinate is scheduled twice: over any run of
/// scheduling steps, what two different steps schedule is disjoint, and
/// nothing reserved at the start of the run is scheduled again.
pub proof fn lemma_no_duplicate_jobs(r0: Set<ChunkCoord>, ds: Seq<Set<ChunkCoord>>, i: nat, j: nat)
    requires
        i < j < ds.len(),
    ensures
        scheduled_at(r0, ds, i).disjoint(scheduled_at(r0, ds, j)),
        r0.disjoint(scheduled_at(r0, ds, i)),
        r0.disjoint(scheduled_at(r0, ds, j)),
{
    lemma_reserved_after_grows(r0, ds, 0, i);
    lemma_reserved_after_grows(r0, ds, 0, j);
    lemma_reserved_after_grows(r0, ds, i + 1, j);
    assert(ds[i as int].subset_of(reserved_after(r0, ds, i + 1)));
}

proof fn lemma_push_keeps_no_duplicates(s: Seq<ChunkCoord>, c: ChunkCoord)
    requires
        s.no_duplicates(),
        !s.contains(c),
    ensures
        s.push(c).no_duplicates(),
{
    assert forall|a: int, b: int|
        0 <= a < s.len() + 1 && 0 <= b < s.len() + 1 && a != b implies #[trigger] s.push(c)[a]
        != #[trigger] s.push(c)[b] by {
        if a < s.len() && b < s.len() {
            assert(s[a] != s[b]);
        } else if a < s.len() {
            assert(s.contains(s[a]));
        } else {
            assert(s.contains(s[b]));
        }
    }
}

/// What one update cycle asks of the world.
pub struct TickOutcome {
    /// Coordinates for which a generation job is to be started.
    pub spawn: Vec<ChunkCoord>,
    /// Coordinates of chunk entities to be removed from the world.
    pub despawn: Vec<ChunkCoord>,
}

/// The streaming state of the terrain around one observer.
pub struct TerrainStreamer {
    chunk_distance: i32,
    player_chunk: ChunkCoord,
    pool: ChunkSet,
    spawned: ChunkSet,
    chunks: Vec<ChunkCoord>,
}

impl TerrainStreamer {
    /// The configured chunk distance.
    pub closed spec fn distance(&self) -> int {
        self.chunk_distance as int
    }

    /// The observer's current chunk.
    pub closed spec fn observer(&self) -> ChunkCoord {
        self.player_chunk
    }

    /// The chunks that should currently exist.
    pub closed spec fn desired(&self) -> Set<ChunkCoord> {
        self.pool@
    }

    /// The chunks for which a generation job has been scheduled since the
    /// last regeneration.
    pub closed spec fn reserved(&self) -> Set<ChunkCoord> {
        self.spawned@
    }

    /// The chunks placed in the world since the last regeneration, in the
    /// order their jobs were integrated.
    pub closed spec fn live(&self) -> Seq<ChunkCoord> {
        self.chunks@
    }

    /// The desired chunks are exactly the ball of the chunk distance around
    /// the observer's chunk, and that ball is representable.
    pub open spec fn wf(&self) -> bool {
        &&& chunk_ball_fits(self.observer(), self.distance())
        &&& self.desired() == chunk_ball(self.observer(), self.distance())
    }

    /// A streamer whose observer stands in chunk `(0, 0)`, with nothing
    /// scheduled and nothing placed.
    pub fn new(chunk_distance: i32) -> (r: TerrainStreamer)
        requires
            chunk_ball_fits((0i32, 0i32), chunk_distance as int),
        ensures
            r.wf(),
            r.distance() == chunk_distance,
            r.observer() == (0i32, 0i32),
            r.reserved() == Set::<ChunkCoord>::empty(),
            r.live() == Seq::<ChunkCoord>::empty(),
    {
        let mut pool = ChunkSet::new();
        rebuild_chunk_pool(&mut pool, (0, 0), chunk_distance);
        TerrainStreamer {
            chunk_distance,
            player_chunk: (0, 0),
            pool,
            spawned: ChunkSet::new(),
            chunks: Vec::new(),
        }
    }

    /// The configured chunk distance.
    pub fn chunk_distance(&self) -> (r: i32)
        ensures
            r == self.distance(),
    {
        self.chunk_distance
    }

    /// The observer's current chunk.
    pub fn player_chunk(&self) -> (r: ChunkCoord)
        ensures
            r == self.observer(),
    {
        self.player_chunk
    }

    /// The desired chunks, each once, in no particular order.
    pub fn desired_chunks(&self) -> (r: Vec<ChunkCoord>)
        ensures
            r@.to_set() == self.desired(),
            r@.no_duplicates(),
    {
        self.pool.to_vec()
    }

    /// The reserved chunks, each once, in no particular order.
    pub fn reserved_chunks(&self) -> (r: Vec<ChunkCoord>)
        ensures
            r@.to_set() == self.reserved(),
            r@.no_duplicates(),
    {
        self.spawned.to_vec()
    }

    /// Whether a job has been scheduled for `c` since the last regeneration.
    pub fn is_reserved(&self, c: ChunkCoord) -> (r: bool)
        ensures
            r == self.reserved().contains(c),
    {
        self.spawned.contains(c)
    }

    /// The chunks placed in the world since the last regeneration.
    pub fn live_chunks(&self) -> (r: &[ChunkCoord])
        ensures
            r@ == self.live(),
    {
        self.chunks.as_slice()
    }

    /// Records the observer's chunk. Only a chunk different from the current
    /// one is written, and only then are the desired chunks rebuilt around it;
    /// the result tells whether that happened.
    pub fn move_observer(&mut self, candidate: ChunkCoord) -> (changed: bool)
        requires
            old(self).wf(),
            chunk_ball_fits(candidate, old(self).distance()),
        ensures
            final(self).wf(),
            changed == (candidate != old(self).observer()),
            final(self).observer() == candidate,
            final(self).distance() == old(self).distance(),
            !changed ==> final(self).desired() == old(self).desired(),
            final(self).reserved() == old(self).reserved(),
            final(self).live() == old(self).live(),
    {
        if candidate.0 != self.player_chunk.0 || candidate.1 != self.player_chunk.1 {
            self.player_chunk = candidate;
            rebuild_chunk_pool(&mut self.pool, candidate, self.chunk_distance);
            true
        } else {
            false
        }
    }

    /// Reserves every desired chunk that is not reserved yet, and returns
    /// those chunks: one generation job is to be started for each.
    pub fn schedule(&mut self) -> (r: Vec<ChunkCoord>)
        requires
            old(self).wf(),
        ensures
            final(self).wf(),
            r@.to_set() == to_schedule(old(self).desired(), old(self).reserved()),
            r@.no_duplicates(),
            final(self).reserved() == after_reserving(old(self).desired(), old(self).reserved()),
            final(self).observer() == old(self).observer(),
            final(self).distance() == old(self).distance(),
            final(self).desired() == old(self).desired(),
            final(self).live() == old(self).live(),
    {
        let pool = self.pool.to_vec();
        let mut to_spawn: Vec<ChunkCoord> = Vec::new();
        let ghost reserved0 = self.spawned@;
        let mut i: usize = 0;
        while i < pool.len()
            invariant
                i <= pool@.len(),
                pool@.to_set() == self.pool@,
                pool@.no_duplicates(),
                to_spawn@.no_duplicates(),
                to_spawn@.to_set() == pool@.subrange(0, i as int).to_set() - reserved0,
                self.spawned@ == reserved0 + pool@.subrange(0, i as int).to_set(),
                self.pool@ == old(self).pool@,
                self.player_chunk == old(self).player_chunk,
                self.chunk_distance == old(self).chunk_distance,
                self.chunks@ == old(self).chunks@,
                reserved0 == old(self).spawned@,
            decreases pool@.len() - i,
        {
            let c = pool[i];
            let ghost prefix = pool@.subrange(0, i as int);
            assert(pool@.subrange(0, i + 1) =~= prefix.push(c));
            proof {
                prefix.lemma_push_to_set_commute(c);
            }
            if !self.spawned.contains(c) {
                assert(!prefix.contains(c)) by {
                    if prefix.contains(c) {
                        let k = choose|k: int| 0 <= k < prefix.len() && prefix[k] == c;
                        assert(pool@[k] == pool@[i as int]);
                    }
                }
                assert(!to_spawn@.to_set().contains(c));
                proof {
                    to_spawn@.lemma_push_to_set_commute(c);
                    lemma_push_keeps_no_duplicates(to_spawn@, c);
                }
                to_spawn.push(c);
            }
            self.spawned.insert(c);
            assert(to_spawn@.to_set() =~= pool@.subrange(0, i + 1).to_set() - reserved0);
            assert(self.spawned@ =~= reserved0 + pool@.subrange(0, i + 1).to_set());
            i = i + 1;
        }
        assert(pool@.subrange(0, pool@.len() as int) == pool@);
        assert(to_spawn@.to_set() =~= self.pool@ - reserved0);
        to_spawn
    }

    /// Records that the job for `c` has finished and its chunk was placed in
    /// the world.
    pub fn integrate(&mut self, c: ChunkCoord)
        requires
            old(self).wf(),
        ensures
            final(self).wf(),
            final(self).live() == old(self).live().push(c),
            final(self).observer() == old(self).observer(),
            final(self).distance() == old(self).distance(),
            final(self).desired() == old(self).desired(),
            final(self).reserved() == old(self).reserved(),
    {
        self.chunks.push(c);
    }

    /// The regeneration gate, for a change of the generation configuration:
    /// every placed chunk is removed and every reservation dropped, so that
    /// desired chunks are scheduled again. Returns the removed chunks.
    pub fn regenerate(&mut self) -> (r: Vec<ChunkCoord>)
        requires
            old(self).wf(),
        ensures
            final(self).wf(),
            r@ == old(self).live(),
            final(self).live() == Seq::<ChunkCoord>::empty(),
            final(self).reserved() == Set::<ChunkCoord>::empty(),
            final(self).observer() == old(self).observer(),
            final(self).distance() == old(self).distance(),
            final(self).desired() == old(self).desired(),
    {
        self.spawned.clear();
        let mut removed: Vec<ChunkCoord> = Vec::new();
        std::mem::swap(&mut removed, &mut self.chunks);
        removed
    }

    /// One update cycle. In this order: the observer's chunk is updated from
    /// `observed`, if a report came; desired chunks not yet reserved are
    /// reserved and returned in `spawn`; the chunks of the `finished` jobs are
    /// placed; and if `config_changed`, every placed chunk is returned in
    /// `despawn` and every reservation is dropped.
    pub fn tick(
        &mut self,
        observed: Option<ChunkCoord>,
        finished: &[ChunkCoord],
        config_changed: bool,
    ) -> (r: TickOutcome)
        requires
            old(self).wf(),
            observed matches Some(c) ==> chunk_ball_fits(c, old(self).distance()),
        ensures
            final(self).wf(),
            final(self).distance() == old(self).distance(),
            final(self).observer() == match observed {
                Some(c) => c,
                None => old(self).observer(),
            },
            r.spawn@.to_set() == to_schedule(final(self).desired(), old(self).reserved()),
            r.spawn@.no_duplicates(),
            config_changed ==> {
                &&& final(self).reserved() == Set::<ChunkCoord>::empty()
                &&& final(self).live() == Seq::<ChunkCoord>::empty()
                &&& r.despawn@ == old(self).live() + finished@
            },
            !config_changed ==> {
                &&& final(self).reserved() == after_reserving(
                    final(self).desired(),
                    old(self).reserved(),
                )
                &&& final(self).live() == old(self).live() + finished@
                &&& r.despawn@ == Seq::<ChunkCoord>::empty()
            },
    {
        if let Some(c) = observed {
            self.move_observer(c);
        }
        let spawn = self.schedule();
        let ghost live0 = self.live();
        let mut i: usize = 0;
        while i < finished.len()
            invariant
                self.wf(),
                i <= finished@.len(),
                self.live() == live0 + finished@.subrange(0, i as int),
                self.observer() == match observed {
                    Some(c) => c,
                    None => old(self).observer(),
                },
                self.distance() == old(self).distance(),
                self.reserved() == after_reserving(self.desired(), old(self).reserved()),
                live0 == old(self).live(),
            decreases finished@.len() - i,
        {
            self.integrate(finished[i]);
            assert(live0 + finished@.subrange(0, i + 1) =~= (live0 + finished@.subrange(
                0,
                i as int,
            )).push(finished@[i as int]));
            i = i + 1;
        }
        assert(finished@.subrange(0, finished@.len() as int) == finished@);
        let despawn = if config_changed {
            self.regenerate()
        } else {
            Vec::new()
        };
        TickOutcome { spawn, despawn }
    }
}

} // verus!
