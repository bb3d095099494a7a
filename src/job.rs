use vstd::prelude::*;
use crate::ladder::{chunk_x_of, chunk_y_of, ladder_next};
use crate::model::{ChunkResult, ModelAssignment, SeedEntry};
use crate::relax::{doubly_seeded, in_corner, keeps_pins, kept_at, pins_kept, relaxed, unpin_corner};
use crate::seam::{
    bottom_seed, bottom_start, build_initial_nodes, left_seed, left_seeds, lemma_neighbours_solved_first, seam_seeds,
    store_ready,
};
use crate::shape::ChunkShape;

verus! {

/// Why a generation run was aborted.
#[derive(Clone, Copy, Debug, PartialEq, Eq, Structural)]
pub enum GenerationError {
    /// A chunk with at most one seeded side failed: no corner relaxation
    /// applies, so the rule set cannot produce a consistent grid.
    Unrelaxable { cx: u32, cy: u32 },
    /// A doubly-seeded chunk failed at every radius of the ladder.
    Exhausted { cx: u32, cy: u32 },
}

/// What one recorded attempt led to.
#[derive(Clone, Copy, Debug, PartialEq, Eq, Structural)]
pub enum Step {
    /// The chunk was solved, at the given radius (0: with every seam seed).
    Solved { cx: u32, cy: u32, radius: u32 },
    /// The chunk failed and is attempted again at the given, wider radius.
    Retry { radius: u32 },
    /// The run is aborted.
    Failed(GenerationError),
}

/// World offset, in half tiles, of the lower-left corner of the chunk in
/// column (or row) `c`: chunks of `g` cells overlap by one, and the stitched
/// world of `width` cells is centred on the origin.
pub open spec fn half_offset(c: int, g: int, width: int) -> int {
    2 * c * (g - 1) - width
}

/// Chunk `i` of `store` sits at position `i` of the generation order, keeps
/// every seed computed from the chunks before it at its radius, and needed a
/// radius only when it is doubly-seeded.
pub open spec fn chunk_consistent(s: ChunkShape, store: Seq<ChunkResult>, i: int) -> bool {
    let c = store[i];
    &&& c.cx == chunk_x_of(s, i)
    &&& c.cy == chunk_y_of(s, i)
    &&& c.radius <= s.max_unpin_radius
    &&& (c.radius > 0 ==> doubly_seeded(c.cx as int, c.cy as int))
    &&& pins_kept(s, relaxed(seam_seeds(s, c.cx as int, c.cy as int, store.subrange(0, i)), c.radius as int), c.cells@)
    &&& c.offset_x == half_offset(c.cx as int, s.grid_x as int, s.world_width())
    &&& c.offset_y == half_offset(c.cy as int, s.grid_y as int, s.world_height())
}

/// Every chunk of `store` is consistent with those before it.
pub open spec fn store_consistent(s: ChunkShape, store: Seq<ChunkResult>) -> bool {
    &&& store.len() <= s.chunk_count()
    &&& forall|i: int| 0 <= i < store.len() ==> #[trigger] chunk_consistent(s, store, i)
}

/// A complete generated world: every chunk, in generation order, each
/// consistent with the chunks before it.
pub open spec fn world_solved(s: ChunkShape, store: Seq<ChunkResult>) -> bool {
    &&& s.wf()
    &&& store.len() == s.chunk_count()
    &&& store_consistent(s, store)
}

/// Position `cy * chunks_x + cx` of the generation order has column `cx` and row `cy`.
pub proof fn lemma_chunk_coords(s: ChunkShape, cx: int, cy: int)
    requires
        s.chunks_x >= 1,
        0 <= cx < s.chunks_x,
        0 <= cy,
    ensures
        chunk_x_of(s, s.chunk_index(cx, cy)) == cx,
        chunk_y_of(s, s.chunk_index(cx, cy)) == cy,
{
    vstd::arithmetic::div_mod::lemma_fundamental_div_mod_converse(
        s.chunk_index(cx, cy), s.chunks_x as int, cy, cx);
}

/// The generation job as a state machine: it solves chunks one at a time in
/// generation order, hands out the seeds of the next attempt, and records
/// each attempt's outcome, climbing the relaxation ladder on failure.
pub struct ChunkJob {
    shape: ChunkShape,
    chunks: Vec<ChunkResult>,
    cx: u32,
    cy: u32,
    radius: u32,
    failed: bool,
}

impl ChunkJob {
    pub closed spec fn shape_spec(self) -> ChunkShape {
        self.shape
    }

    /// The chunks solved so far, in generation order.
    pub closed spec fn chunks_spec(self) -> Seq<ChunkResult> {
        self.chunks@
    }

    /// Radius of the next attempt (0: every seam seed pinned).
    pub closed spec fn radius_spec(self) -> int {
        self.radius as int
    }

    /// Whether the run was aborted.
    pub closed spec fn failed_spec(self) -> bool {
        self.failed
    }

    /// Number of chunks solved so far.
    pub open spec fn progress_spec(self) -> int {
        self.chunks_spec().len() as int
    }

    /// Every chunk has been solved.
    pub open spec fn finished_spec(self) -> bool {
        self.progress_spec() == self.shape_spec().chunk_count()
    }

    /// Column and row of the chunk being generated.
    pub open spec fn current_spec(self) -> (int, int) {
        (chunk_x_of(self.shape_spec(), self.progress_spec()), chunk_y_of(self.shape_spec(), self.progress_spec()))
    }

    /// The seeds handed to the next attempt.
    pub open spec fn attempt_seeds_spec(self) -> Seq<SeedEntry> {
        relaxed(
            seam_seeds(self.shape_spec(), self.current_spec().0, self.current_spec().1, self.chunks_spec()),
            self.radius_spec(),
        )
    }

    /// The solved chunks are consistent, fill the generation order up to the
    /// current chunk, and the radius is one the ladder can be at.
    pub closed spec fn wf(self) -> bool {
        let s = self.shape;
        &&& s.wf()
        &&& store_consistent(s, self.chunks@)
        &&& self.chunks@.len() == s.chunk_index(self.cx as int, self.cy as int)
        &&& self.cx < s.chunks_x
        &&& self.cy <= s.chunks_y
        &&& self.radius <= s.max_unpin_radius
        &&& (self.radius > 0 ==> doubly_seeded(self.cx as int, self.cy as int))
    }

    proof fn lemma_current(self)
        requires
            self.wf(),
        ensures
            self.current_spec() == (self.cx as int, self.cy as int),
            self.progress_spec() <= self.shape.chunk_count(),
            self.cy == self.shape.chunks_y <==> self.finished_spec(),
    {
        let s = self.shape;
        lemma_chunk_coords(s, self.cx as int, self.cy as int);
        let w = s.chunks_x as int;
        let h = s.chunks_y as int;
        let n = self.chunks@.len() as int;
        if self.cy < s.chunks_y {
            lemma_neighbours_solved_first(s, self.cx as int, self.cy as int);
        } else {
            assert(n >= h * w) by (nonlinear_arith)
                requires n == self.cy * w + self.cx, self.cy == h, self.cx >= 0;
        }
        assert(s.chunk_count() == h * w) by (nonlinear_arith)
            requires s.chunk_count() == s.chunks_x * s.chunks_y, w == s.chunks_x, h == s.chunks_y;
    }

    /// Progress stays within the chunk count of the run, so it reaches the
    /// total only when every chunk is solved.
    pub proof fn lemma_progress_within_total(self)
        requires
            self.wf(),
        ensures
            0 <= self.progress_spec() <= self.shape_spec().chunk_count(),
    {
        self.lemma_current();
    }

    /// A job about to generate the first chunk with full seeding.
    pub fn new(shape: ChunkShape) -> (r: ChunkJob)
        requires
            shape.wf(),
        ensures
            r.wf(),
            r.shape_spec() == shape,
            r.progress_spec() == 0,
            r.radius_spec() == 0,
            !r.failed_spec(),
    {
        ChunkJob { shape, chunks: Vec::new(), cx: 0, cy: 0, radius: 0, failed: false }
    }

    pub fn shape(&self) -> (r: ChunkShape)
        ensures
            r == self.shape_spec(),
    {
        self.shape
    }

    /// Number of chunks solved so far.
    pub fn progress(&self) -> (r: u32)
        requires
            self.wf(),
        ensures
            r == self.progress_spec(),
    {
        proof {
            self.lemma_current();
        }
        self.chunks.len() as u32
    }

    /// Number of chunks of the whole run.
    pub fn total(&self) -> (r: u32)
        requires
            self.wf(),
        ensures
            r == self.shape_spec().chunk_count(),
    {
        self.shape.total_chunks()
    }

    /// Whether every chunk has been solved.
    pub fn is_finished(&self) -> (r: bool)
        requires
            self.wf(),
        ensures
            r == self.finished_spec(),
    {
        proof {
            self.lemma_current();
        }
        self.cy == self.shape.chunks_y
    }

    pub fn is_failed(&self) -> (r: bool)
        ensures
            r == self.failed_spec(),
    {
        self.failed
    }

    /// Column and row of the chunk being generated.
    pub fn current_chunk(&self) -> (r: (u32, u32))
        requires
            self.wf(),
        ensures
            (r.0 as int, r.1 as int) == self.current_spec(),
    {
        proof {
            self.lemma_current();
        }
        (self.cx, self.cy)
    }

    /// Radius of the next attempt (0: every seam seed pinned).
    pub fn current_radius(&self) -> (r: u32)
        ensures
            r == self.radius_spec(),
    {
        self.radius
    }

    /// The seeds of the next attempt: the seam seeds of the current chunk,
    /// without the corner region of the current radius.
    pub fn attempt_seeds(&self) -> (r: Vec<SeedEntry>)
        requires
            self.wf(),
            !self.finished_spec(),
        ensures
            r@ == self.attempt_seeds_spec(),
    {
        proof {
            self.lemma_current();
            assert(store_ready(self.shape, self.cx as int, self.cy as int, self.chunks@)) by {
                assert forall|i: int| 0 <= i < self.chunks@.len() implies
                    #[trigger] self.chunks@[i].cells@.len() == self.shape.cell_count() by {
                    assert(chunk_consistent(self.shape, self.chunks@, i));
                }
            }
        }
        let full = build_initial_nodes(&self.shape, self.cx, self.cy, &self.chunks);
        unpin_corner(&full, self.radius)
    }

    /// Records the outcome of the attempt whose seeds `attempt_seeds` gave.
    /// A grid counts as a success only when it has one value per cell and
    /// keeps every seed of the attempt; anything else is a failure.
    pub fn record(&mut self, outcome: Option<Vec<ModelAssignment>>) -> (step: Step)
        requires
            old(self).wf(),
            !old(self).finished_spec(),
            !old(self).failed_spec(),
        ensures
            final(self).wf(),
            final(self).shape_spec() == old(self).shape_spec(),
            ({
                let s = old(self).shape_spec();
                let (cx, cy) = old(self).current_spec();
                let r = old(self).radius_spec();
                let ok = outcome matches Some(g) && pins_kept(s, old(self).attempt_seeds_spec(), g@);
                &&& s.in_world(cx, cy)
                &&& ok ==> {
                    &&& step == Step::Solved { cx: cx as u32, cy: cy as u32, radius: r as u32 }
                    &&& final(self).chunks_spec() == old(self).chunks_spec().push(ChunkResult {
                        cx: cx as u32,
                        cy: cy as u32,
                        radius: r as u32,
                        cells: outcome.unwrap(),
                        offset_x: half_offset(cx, s.grid_x as int, s.world_width()) as i64,
                        offset_y: half_offset(cy, s.grid_y as int, s.world_height()) as i64,
                    })
                }
                &&& !ok ==> final(self).chunks_spec() == old(self).chunks_spec()
                &&& !ok && doubly_seeded(cx, cy) && r < s.max_unpin_radius ==> step == Step::Retry { radius: (r + 1) as u32 }
                &&& !ok && !doubly_seeded(cx, cy) ==> step == Step::Failed(GenerationError::Unrelaxable { cx: cx as u32, cy: cy as u32 })
                &&& !ok && doubly_seeded(cx, cy) && r >= s.max_unpin_radius ==> step == Step::Failed(GenerationError::Exhausted { cx: cx as u32, cy: cy as u32 })
                &&& match ladder_next(s, old(self).progress_spec(), r, ok) {
                    Some(p) => !final(self).failed_spec() && final(self).progress_spec() == p.0 && final(self).radius_spec() == p.1,
                    None => final(self).failed_spec(),
                }
            }),
    {
        proof {
            self.lemma_current();
        }
        let seeds = self.attempt_seeds();
        let s = self.shape;
        let cx = self.cx;
        let cy = self.cy;
        let radius = self.radius;
        let ghost old_job = *self;
        let ok = match &outcome {
            Some(g) => keeps_pins(&s, &seeds, g),
            None => false,
        };
        if ok {
            let cells = match outcome {
                Some(g) => g,
                None => Vec::new(),
            };
            let ghost i = self.chunks@.len() as int;
            proof {
                lemma_chunk_coords(s, cx as int, cy as int);
                assert(0 <= 2 * cx * (s.grid_x - 1) && 0 <= 2 * cy * (s.grid_y - 1)) by (nonlinear_arith)
                    requires s.grid_x >= 1, s.grid_y >= 1;
                assert(2 * cx * (s.grid_x - 1) <= 2 * s.world_width()) by (nonlinear_arith)
                    requires cx < s.chunks_x, s.world_width() == s.chunks_x * (s.grid_x - 1) + 1, s.grid_x >= 1;
                assert(2 * cy * (s.grid_y - 1) <= 2 * s.world_height()) by (nonlinear_arith)
                    requires cy < s.chunks_y, s.world_height() == s.chunks_y * (s.grid_y - 1) + 1, s.grid_y >= 1;
            }
            let offset_x = 2 * (cx as i64) * ((s.grid_x - 1) as i64) - (s.chunks_x as i64) * ((s.grid_x - 1) as i64) - 1;
            let offset_y = 2 * (cy as i64) * ((s.grid_y - 1) as i64) - (s.chunks_y as i64) * ((s.grid_y - 1) as i64) - 1;
            let c = ChunkResult { cx, cy, radius, cells, offset_x, offset_y };
            self.chunks.push(c);
            proof {
                let st = self.chunks@;
                assert(st.subrange(0, i) =~= old_job.chunks@);
                assert forall|j: int| 0 <= j < st.len() implies #[trigger] chunk_consistent(s, st, j) by {
                    if j < i {
                        assert(st.subrange(0, j) =~= old_job.chunks@.subrange(0, j));
                        assert(chunk_consistent(s, old_job.chunks@, j));
                    }
                }
            }
            if cx + 1 == s.chunks_x {
                self.cx = 0;
                self.cy = cy + 1;
            } else {
                self.cx = cx + 1;
            }
            self.radius = 0;
            proof {
                assert((cy + 1) * s.chunks_x == cy * s.chunks_x + s.chunks_x) by (nonlinear_arith);
            }
            Step::Solved { cx, cy, radius }
        } else if !(cx > 0 && cy > 0) {
            self.failed = true;
            Step::Failed(GenerationError::Unrelaxable { cx, cy })
        } else if self.radius < s.max_unpin_radius {
            self.radius = self.radius + 1;
            Step::Retry { radius: self.radius }
        } else {
            self.failed = true;
            Step::Failed(GenerationError::Exhausted { cx, cy })
        }
    }

    /// The solved world, once every chunk is solved.
    pub fn into_results(self) -> (r: Vec<ChunkResult>)
        requires
            self.wf(),
            self.finished_spec(),
        ensures
            r@ == self.chunks_spec(),
            world_solved(self.shape_spec(), r@),
    {
        self.chunks
    }
}

/// The constraint solver that each attempt runs through.
pub trait ChunkSolver {
    /// Tries to solve one chunk of `shape` with `seeds` pinned. `None` when the
    /// solver fails; repeated calls on the same seeds may differ.
    fn attempt(&mut self, shape: &ChunkShape, seeds: &Vec<SeedEntry>) -> Option<Vec<ModelAssignment>>;

    /// Told after each solved chunk, with the number of chunks solved so far
    /// and the radius the chunk needed.
    fn chunk_solved(&mut self, cx: u32, cy: u32, radius: u32, progress: u32);
}

/// Runs the relaxation ladder on the current chunk: an attempt with every
/// seam seed first, then, while a doubly-seeded chunk keeps failing, one
/// attempt per corner radius from 1 up to the largest. Returns the radius of
/// the first success, or the error that aborts the run.
pub fn generate_chunk_with_fallback<S: ChunkSolver>(job: &mut ChunkJob, solver: &mut S) -> (r: Result<u32, GenerationError>)
    requires
        old(job).wf(),
        !old(job).finished_spec(),
        !old(job).failed_spec(),
        old(job).radius_spec() == 0,
    ensures
        final(job).wf(),
        final(job).shape_spec() == old(job).shape_spec(),
        ({
            let (cx, cy) = old(job).current_spec();
            let s = old(job).shape_spec();
            &&& s.in_world(cx, cy)
            &&& r matches Ok(radius) ==> {
                &&& !final(job).failed_spec()
                &&& final(job).radius_spec() == 0
                &&& final(job).progress_spec() == old(job).progress_spec() + 1
                &&& final(job).chunks_spec().drop_last() == old(job).chunks_spec()
                &&& final(job).chunks_spec().last().radius == radius
                &&& radius <= s.max_unpin_radius
                &&& (radius > 0 ==> doubly_seeded(cx, cy))
            }
            &&& r matches Err(e) ==> {
                &&& final(job).failed_spec()
                &&& final(job).chunks_spec() == old(job).chunks_spec()
                &&& e == (if doubly_seeded(cx, cy) {
                    GenerationError::Exhausted { cx: cx as u32, cy: cy as u32 }
                } else {
                    GenerationError::Unrelaxable { cx: cx as u32, cy: cy as u32 }
                })
            }
        }),
{
    let shape = job.shape();
    proof {
        job.lemma_current();
    }
    loop
        invariant
            job.wf(),
            !job.failed_spec(),
            job.shape_spec() == shape,
            shape == old(job).shape_spec(),
            old(job).wf(),
            job.chunks_spec() == old(job).chunks_spec(),
            !old(job).finished_spec(),
            old(job).shape_spec().in_world(old(job).current_spec().0, old(job).current_spec().1),
            job.radius_spec() > 0 ==> doubly_seeded(old(job).current_spec().0, old(job).current_spec().1),
        decreases shape.max_unpin_radius - job.radius_spec(),
    {
        let ghost before = *job;
        proof {
            job.lemma_current();
        }
        let seeds = job.attempt_seeds();
        let outcome = solver.attempt(&shape, &seeds);
        match job.record(outcome) {
            Step::Solved { radius, .. } => {
                proof {
                    assert(job.chunks_spec().drop_last() =~= old(job).chunks_spec());
                }
                return Ok(radius);
            },
            Step::Retry { .. } => {},
            Step::Failed(e) => {
                return Err(e);
            },
        }
    }
}

/// Generates every chunk in order through `solver` and returns the solved
/// world, or the error that aborted the run. Whatever the solver returns, a
/// world that comes back is consistent across every seam cell that stayed
/// pinned.
pub fn generate_all_chunks<S: ChunkSolver>(shape: ChunkShape, solver: &mut S) -> (r: Result<Vec<ChunkResult>, GenerationError>)
    requires
        shape.wf(),
    ensures
        r matches Ok(w) ==> world_solved(shape, w@),
        r matches Err(GenerationError::Unrelaxable { cx, cy }) ==> shape.in_world(cx as int, cy as int) && !doubly_seeded(cx as int, cy as int),
        r matches Err(GenerationError::Exhausted { cx, cy }) ==> shape.in_world(cx as int, cy as int) && doubly_seeded(cx as int, cy as int),
{
    let mut job = ChunkJob::new(shape);
    loop
        invariant
            job.wf(),
            !job.failed_spec(),
            job.shape_spec() == shape,
            job.radius_spec() == 0,
        decreases shape.chunk_count() - job.progress_spec(),
    {
        proof {
            job.lemma_current();
        }
        if job.is_finished() {
            return Ok(job.into_results());
        }
        let (cx, cy) = job.current_chunk();
        match generate_chunk_with_fallback(&mut job, solver) {
            Ok(radius) => {
                let progress = job.progress();
                solver.chunk_solved(cx, cy, radius, progress);
            },
            Err(e) => {
                return Err(e);
            },
        }
        proof {
            job.lemma_current();
        }
    }
}

/// Seam continuity along x: a chunk's left column equals its left
/// neighbour's right column, at every cell that was kept pinned (all of
/// them unless the chunk needed a corner radius).
pub proof fn lemma_left_seam(s: ChunkShape, w: Seq<ChunkResult>, cx: int, cy: int, y: int, z: int)
    requires
        world_solved(s, w),
        s.in_world(cx, cy),
        cx > 0,
        s.in_grid(0, y, z),
        !in_corner(0, y, w[s.chunk_index(cx, cy)].radius as int),
    ensures
        w[s.chunk_index(cx, cy)].cells@[s.index_of(0, y, z)] == w[s.chunk_index(cx - 1, cy)].cells@[s.index_of(s.grid_x - 1, y, z)],
{
    let i = s.chunk_index(cx, cy);
    lemma_neighbours_solved_first(s, cx, cy);
    lemma_chunk_coords(s, cx, cy);
    assert(chunk_consistent(s, w, i));
    let c = w[i];
    let store = w.subrange(0, i);
    let seeds = seam_seeds(s, cx, cy, store);
    let gz = s.grid_z as int;
    let k = y * gz + z;
    assert(k < s.grid_y * gz) by (nonlinear_arith)
        requires 0 <= y < s.grid_y, 0 <= z < gz, k == y * gz + z;
    assert(0 <= k) by (nonlinear_arith)
        requires 0 <= y, 0 <= z, gz >= 1, k == y * gz + z;
    vstd::arithmetic::div_mod::lemma_fundamental_div_mod_converse(k, gz, y, z);
    let left = store[s.chunk_index(cx - 1, cy)].cells@;
    let e = left_seed(s, left, k);
    assert(seeds[k] == e);
    let pred = kept_at(c.radius as int);
    assert(pred(seeds[k]));
    seeds.lemma_filter_contains(pred, k);
    let rl = relaxed(seeds, c.radius as int);
    let j = choose|j: int| 0 <= j < rl.len() && rl[j] == e;
    assert(rl[j] == e);
}

/// Seam continuity along y: a chunk's bottom row equals its bottom
/// neighbour's top row, from the column after the shared corner when the
/// chunk also has a left neighbour, at every cell that was kept pinned.
pub proof fn lemma_bottom_seam(s: ChunkShape, w: Seq<ChunkResult>, cx: int, cy: int, x: int, z: int)
    requires
        world_solved(s, w),
        s.in_world(cx, cy),
        cy > 0,
        s.in_grid(x, 0, z),
        x >= bottom_start(cx),
        !in_corner(x, 0, w[s.chunk_index(cx, cy)].radius as int),
    ensures
        w[s.chunk_index(cx, cy)].cells@[s.index_of(x, 0, z)] == w[s.chunk_index(cx, cy - 1)].cells@[s.index_of(x, s.grid_y - 1, z)],
{
    let i = s.chunk_index(cx, cy);
    lemma_neighbours_solved_first(s, cx, cy);
    lemma_chunk_coords(s, cx, cy);
    assert(chunk_consistent(s, w, i));
    let c = w[i];
    let store = w.subrange(0, i);
    let seeds = seam_seeds(s, cx, cy, store);
    let lefts = left_seeds(s, cx, cy, store);
    let gz = s.grid_z as int;
    let start = bottom_start(cx);
    let k = (x - start) * gz + z;
    assert(k < (s.grid_x - start) * gz) by (nonlinear_arith)
        requires 0 <= x - start < s.grid_x - start, 0 <= z < gz, k == (x - start) * gz + z;
    assert(0 <= k) by (nonlinear_arith)
        requires 0 <= x - start, 0 <= z, gz >= 1, k == (x - start) * gz + z;
    vstd::arithmetic::div_mod::lemma_fundamental_div_mod_converse(k, gz, x - start, z);
    let bottom = store[s.chunk_index(cx, cy - 1)].cells@;
    let e = bottom_seed(s, bottom, start, k);
    let n = lefts.len() as int;
    assert(seeds[n + k] == e);
    let pred = kept_at(c.radius as int);
    assert(pred(seeds[n + k]));
    seeds.lemma_filter_contains(pred, n + k);
    let rl = relaxed(seeds, c.radius as int);
    let j = choose|j: int| 0 <= j < rl.len() && rl[j] == e;
    assert(rl[j] == e);
}

} // verus!
