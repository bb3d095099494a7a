use worldgen::job::{generate_all_chunks, generate_chunk_with_fallback, ChunkJob, ChunkSolver, GenerationError, Step};
use worldgen::model::{ChunkResult, ModelAssignment, Rotation, SeedEntry};
use worldgen::shape::ChunkShape;

fn m(i: usize) -> ModelAssignment {
    ModelAssignment { model_index: i, rotation: Rotation::Rot0 }
}

fn shape(gx: u32, gy: u32, gz: u32, cx: u32, cy: u32, r: u32) -> ChunkShape {
    ChunkShape::new(gx, gy, gz, cx, cy, r).unwrap()
}

/// Fills every free cell from a small pseudo-random sequence and honours the
/// pins; fails for the chunks and radii that `fails` selects.
struct FakeSolver {
    state: u64,
    solved: u32,
    attempts: Vec<(u32, usize)>,
    progress_seen: Vec<u32>,
    radii_seen: Vec<u32>,
    fails: fn(u32, &[SeedEntry]) -> bool,
}

impl FakeSolver {
    fn new(fails: fn(u32, &[SeedEntry]) -> bool) -> FakeSolver {
        FakeSolver { state: 12345, solved: 0, attempts: Vec::new(), progress_seen: Vec::new(), radii_seen: Vec::new(), fails }
    }

    fn next(&mut self) -> usize {
        self.state = self.state.wrapping_mul(6364136223846793005).wrapping_add(1442695040888963407);
        ((self.state >> 33) % 7) as usize
    }
}

impl ChunkSolver for FakeSolver {
    fn attempt(&mut self, shape: &ChunkShape, seeds: &Vec<SeedEntry>) -> Option<Vec<ModelAssignment>> {
        self.attempts.push((self.solved, seeds.len()));
        if (self.fails)(self.solved, seeds) {
            return None;
        }
        let mut cells: Vec<ModelAssignment> = (0..shape.cells()).map(|_| m(0)).collect();
        for c in cells.iter_mut() {
            *c = m(self.next());
        }
        for e in seeds {
            cells[shape.index_from_coords(e.x, e.y, e.z)] = e.model;
        }
        Some(cells)
    }

    fn chunk_solved(&mut self, _cx: u32, _cy: u32, radius: u32, progress: u32) {
        self.solved += 1;
        self.progress_seen.push(progress);
        self.radii_seen.push(radius);
    }
}

fn never_fails(_chunk: u32, _seeds: &[SeedEntry]) -> bool {
    false
}

fn chunk<'a>(w: &'a [ChunkResult], s: &ChunkShape, cx: u32, cy: u32) -> &'a ChunkResult {
    &w[(cy * s.chunks_x + cx) as usize]
}

fn cell(w: &[ChunkResult], s: &ChunkShape, cx: u32, cy: u32, x: u32, y: u32, z: u32) -> ModelAssignment {
    chunk(w, s, cx, cy).cells[s.index_from_coords(x, y, z)]
}

/// Single model, compatible with itself on every face.
struct UniformSolver {
    progress_seen: Vec<u32>,
}

impl ChunkSolver for UniformSolver {
    fn attempt(&mut self, shape: &ChunkShape, _seeds: &Vec<SeedEntry>) -> Option<Vec<ModelAssignment>> {
        Some((0..shape.cells()).map(|_| m(7)).collect())
    }

    fn chunk_solved(&mut self, _cx: u32, _cy: u32, _radius: u32, progress: u32) {
        self.progress_seen.push(progress);
    }
}

#[test]
fn uniform_rules_generate_a_uniform_world() {
    let s = shape(4, 4, 1, 2, 2, 5);
    let mut solver = UniformSolver { progress_seen: Vec::new() };
    let w = generate_all_chunks(s, &mut solver).unwrap();
    assert_eq!(solver.progress_seen, vec![1, 2, 3, 4]);
    assert_eq!(*solver.progress_seen.last().unwrap(), s.total_chunks());
    assert_eq!(w.len(), 4);
    let coords: Vec<(u32, u32)> = w.iter().map(|c| (c.cx, c.cy)).collect();
    assert_eq!(coords, vec![(0, 0), (1, 0), (0, 1), (1, 1)]);
    for c in &w {
        assert_eq!(c.radius, 0);
        assert_eq!(c.cells.len(), 16);
        assert!(c.cells.iter().all(|&v| v == m(7)));
    }
    for y in 0..4 {
        assert_eq!(cell(&w, &s, 1, 0, 0, y, 0), cell(&w, &s, 0, 0, 3, y, 0));
        assert_eq!(cell(&w, &s, 1, 1, 0, y, 0), cell(&w, &s, 0, 1, 3, y, 0));
    }
    for x in 0..4 {
        assert_eq!(cell(&w, &s, 0, 1, x, 0, 0), cell(&w, &s, 0, 0, x, 3, 0));
        assert_eq!(cell(&w, &s, 1, 1, x, 0, 0), cell(&w, &s, 1, 0, x, 3, 0));
    }
}

#[test]
fn world_offsets_place_chunks_edge_to_edge() {
    let s = shape(4, 4, 1, 2, 2, 5);
    let mut solver = UniformSolver { progress_seen: Vec::new() };
    let w = generate_all_chunks(s, &mut solver).unwrap();
    // World is 7 x 7 cells; offsets are in half tiles, centred on the origin.
    let offsets: Vec<(i64, i64)> = w.iter().map(|c| (c.offset_x, c.offset_y)).collect();
    assert_eq!(offsets, vec![(-7, -7), (-1, -7), (-7, -1), (-1, -1)]);
}

#[test]
fn seams_match_between_neighbours() {
    let s = shape(5, 4, 2, 3, 3, 5);
    let mut solver = FakeSolver::new(never_fails);
    let w = generate_all_chunks(s, &mut solver).unwrap();
    for cy in 0..3 {
        for cx in 0..3 {
            if cx > 0 {
                for y in 0..4 {
                    for z in 0..2 {
                        assert_eq!(cell(&w, &s, cx, cy, 0, y, z), cell(&w, &s, cx - 1, cy, 4, y, z));
                    }
                }
            }
            if cy > 0 {
                let start = if cx > 0 { 1 } else { 0 };
                for x in start..5 {
                    for z in 0..2 {
                        assert_eq!(cell(&w, &s, cx, cy, x, 0, z), cell(&w, &s, cx, cy - 1, x, 3, z));
                    }
                }
            }
        }
    }
    assert_eq!(solver.progress_seen, (1..=9).collect::<Vec<u32>>());
}

fn pins_radius_two_region(seeds: &[SeedEntry]) -> bool {
    seeds.iter().any(|e| (e.x == 0 && e.y < 2) || (e.y == 0 && e.x > 0 && e.x <= 2))
}

fn corner_needs_radius_two(chunk: u32, seeds: &[SeedEntry]) -> bool {
    chunk == 3 && pins_radius_two_region(seeds)
}

#[test]
fn corner_chunk_recovers_at_radius_two() {
    let s = shape(4, 4, 1, 2, 2, 5);
    let mut solver = FakeSolver::new(corner_needs_radius_two);
    let w = generate_all_chunks(s, &mut solver).unwrap();
    assert_eq!(chunk(&w, &s, 1, 1).radius, 2);
    assert_eq!(solver.radii_seen, vec![0, 0, 0, 2]);
    let corner_attempts: Vec<usize> = solver.attempts.iter().filter(|a| a.0 == 3).map(|a| a.1).collect();
    // Full seeding (4 left + 3 bottom), then radius 1 (5 kept), then radius 2 (3 kept).
    assert_eq!(corner_attempts, vec![7, 5, 3]);
    for y in 2..4 {
        assert_eq!(cell(&w, &s, 1, 1, 0, y, 0), cell(&w, &s, 0, 1, 3, y, 0));
    }
    assert_eq!(cell(&w, &s, 1, 1, 3, 0, 0), cell(&w, &s, 1, 0, 3, 3, 0));
}

fn second_chunk_unsatisfiable(chunk: u32, _seeds: &[SeedEntry]) -> bool {
    chunk == 1
}

#[test]
fn singly_seeded_failure_aborts_the_run() {
    let s = shape(4, 4, 1, 2, 2, 5);
    let mut solver = FakeSolver::new(second_chunk_unsatisfiable);
    let r = generate_all_chunks(s, &mut solver);
    assert_eq!(r.unwrap_err(), GenerationError::Unrelaxable { cx: 1, cy: 0 });
    assert_eq!(solver.attempts.len(), 2);
    assert_eq!(solver.progress_seen, vec![1]);
}

fn origin_unsatisfiable(chunk: u32, _seeds: &[SeedEntry]) -> bool {
    chunk == 0
}

#[test]
fn origin_failure_aborts_the_run() {
    let s = shape(4, 4, 1, 2, 2, 5);
    let mut solver = FakeSolver::new(origin_unsatisfiable);
    let r = generate_all_chunks(s, &mut solver);
    assert_eq!(r.unwrap_err(), GenerationError::Unrelaxable { cx: 0, cy: 0 });
    assert_eq!(solver.attempts.len(), 1);
}

fn corner_unsatisfiable(chunk: u32, _seeds: &[SeedEntry]) -> bool {
    chunk == 3
}

#[test]
fn corner_failure_at_every_radius_aborts_the_run() {
    let s = shape(4, 4, 1, 2, 2, 3);
    let mut solver = FakeSolver::new(corner_unsatisfiable);
    let r = generate_all_chunks(s, &mut solver);
    assert_eq!(r.unwrap_err(), GenerationError::Exhausted { cx: 1, cy: 1 });
    let corner_attempts = solver.attempts.iter().filter(|a| a.0 == 3).count();
    assert_eq!(corner_attempts, 4);
}

/// Returns a grid that ignores the pins.
struct CarelessSolver;

impl ChunkSolver for CarelessSolver {
    fn attempt(&mut self, shape: &ChunkShape, _seeds: &Vec<SeedEntry>) -> Option<Vec<ModelAssignment>> {
        Some((0..shape.cells()).map(|i| m(i)).collect())
    }

    fn chunk_solved(&mut self, _cx: u32, _cy: u32, _radius: u32, _progress: u32) {}
}

#[test]
fn grid_that_breaks_a_pin_counts_as_failure() {
    let s = shape(3, 3, 1, 2, 1, 2);
    let mut solver = CarelessSolver;
    let r = generate_all_chunks(s, &mut solver);
    assert_eq!(r.unwrap_err(), GenerationError::Unrelaxable { cx: 1, cy: 0 });
}

#[test]
fn record_walks_the_ladder() {
    let s = shape(2, 2, 1, 2, 2, 2);
    let mut job = ChunkJob::new(s);
    let grid = |v: usize| Some(vec![m(v), m(v), m(v), m(v)]);
    assert_eq!(job.total(), 4);
    assert_eq!(job.record(grid(1)), Step::Solved { cx: 0, cy: 0, radius: 0 });
    assert_eq!(job.record(grid(1)), Step::Solved { cx: 1, cy: 0, radius: 0 });
    assert_eq!(job.record(grid(1)), Step::Solved { cx: 0, cy: 1, radius: 0 });
    assert_eq!(job.progress(), 3);
    assert_eq!(job.record(None), Step::Retry { radius: 1 });
    assert_eq!(job.current_radius(), 1);
    assert_eq!(job.progress(), 3);
    assert_eq!(job.record(grid(2)), Step::Retry { radius: 2 });
    assert_eq!(job.record(None), Step::Failed(GenerationError::Exhausted { cx: 1, cy: 1 }));
    assert!(job.is_failed());
    assert!(!job.is_finished());
}

#[test]
fn record_finishes_after_the_last_chunk() {
    let s = shape(2, 2, 1, 1, 2, 2);
    let mut job = ChunkJob::new(s);
    let grid = Some(vec![m(4), m(4), m(4), m(4)]);
    assert_eq!(job.record(grid.clone()), Step::Solved { cx: 0, cy: 0, radius: 0 });
    assert!(!job.is_finished());
    assert_eq!(job.record(grid), Step::Solved { cx: 0, cy: 1, radius: 0 });
    assert!(job.is_finished());
    assert_eq!(job.progress(), job.total());
    let w = job.into_results();
    assert_eq!(w.len(), 2);
    assert_eq!((w[1].cx, w[1].cy), (0, 1));
}

fn middle_corner_needs_radius_two(chunk: u32, seeds: &[SeedEntry]) -> bool {
    chunk == 4 && pins_radius_two_region(seeds)
}

#[test]
fn progress_never_decreases_during_a_run() {
    let s = shape(3, 3, 1, 3, 2, 4);
    let mut job = ChunkJob::new(s);
    let mut seen = vec![job.progress()];
    let mut solver = FakeSolver::new(middle_corner_needs_radius_two);
    while !job.is_finished() {
        let seeds = job.attempt_seeds();
        let outcome = solver.attempt(&s, &seeds);
        match job.record(outcome) {
            Step::Solved { cx, cy, radius } => solver.chunk_solved(cx, cy, radius, job.progress()),
            Step::Retry { .. } => {}
            Step::Failed(e) => panic!("run aborted: {:?}", e),
        }
        seen.push(job.progress());
    }
    assert!(seen.windows(2).all(|p| p[0] <= p[1]));
    assert_eq!(seen.iter().filter(|&&p| p == 6).count(), 1);
    assert_eq!(*seen.last().unwrap(), 6);
    assert_eq!(solver.radii_seen, vec![0, 0, 0, 0, 2, 0]);
}

#[test]
fn ladder_returns_the_first_radius_that_succeeds() {
    let s = shape(4, 4, 1, 2, 2, 5);
    let mut job = ChunkJob::new(s);
    let mut solver = FakeSolver::new(corner_needs_radius_two);
    for _ in 0..3 {
        assert_eq!(generate_chunk_with_fallback(&mut job, &mut solver), Ok(0));
        solver.chunk_solved(0, 0, 0, job.progress());
    }
    assert_eq!(job.current_chunk(), (1, 1));
    assert_eq!(generate_chunk_with_fallback(&mut job, &mut solver), Ok(2));
    assert_eq!(job.current_radius(), 0);
    assert!(job.is_finished());
    assert_eq!(job.into_results()[3].radius, 2);
}

#[test]
fn ladder_gives_up_on_a_singly_seeded_chunk_at_once() {
    let s = shape(4, 4, 1, 2, 2, 5);
    let mut job = ChunkJob::new(s);
    let mut solver = FakeSolver::new(second_chunk_unsatisfiable);
    assert_eq!(generate_chunk_with_fallback(&mut job, &mut solver), Ok(0));
    solver.chunk_solved(0, 0, 0, job.progress());
    assert_eq!(
        generate_chunk_with_fallback(&mut job, &mut solver),
        Err(GenerationError::Unrelaxable { cx: 1, cy: 0 })
    );
    assert!(job.is_failed());
    assert_eq!(job.progress(), 1);
    assert_eq!(solver.attempts.len(), 2);
}
