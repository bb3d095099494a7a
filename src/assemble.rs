use vstd::prelude::*;
use crate::model::{ChunkResult, ModelAssignment};
use crate::seam::lemma_split_counter;
use crate::shape::ChunkShape;

verus! {

/// One cell handed to the spawner: the chunk it comes from, its local
/// position, its position in the stitched world (which drives depth
/// sorting), and the solver's choice for it.
#[derive(Clone, Copy, Debug, PartialEq, Eq, Structural)]
pub struct CellRecord {
    pub cx: u32,
    pub cy: u32,
    pub x: u32,
    pub y: u32,
    pub z: u32,
    pub world_x: u32,
    pub world_y: u32,
    pub model: ModelAssignment,
}

/// Position along one axis of the stitched world of local position `i` in
/// chunk `c`, for chunks `g` cells long that share their last cell with the
/// next chunk.
pub open spec fn world_pos(c: int, i: int, g: int) -> int {
    c * (g - 1) + i
}

/// Along one axis, the last cell of a chunk is left to the next chunk,
/// unless the chunk is the last of its line.
pub open spec fn emitted_along(c: int, i: int, g: int, n: int) -> bool {
    !(i == g - 1 && c + 1 < n)
}

/// Whether local cell `(x, y)` of chunk `(cx, cy)` is spawned by that chunk.
pub open spec fn emitted(s: ChunkShape, cx: int, cy: int, x: int, y: int) -> bool {
    emitted_along(cx, x, s.grid_x as int, s.chunks_x as int) && emitted_along(cy, y, s.grid_y as int, s.chunks_y as int)
}

pub open spec fn record_emitted(s: ChunkShape) -> spec_fn(CellRecord) -> bool {
    |r: CellRecord| emitted(s, r.cx as int, r.cy as int, r.x as int, r.y as int)
}

/// The record of cell `i` (in row-major order) of chunk `c`.
pub open spec fn cell_at(s: ChunkShape, c: ChunkResult, i: int) -> CellRecord {
    let gx = s.grid_x as int;
    let gy = s.grid_y as int;
    let x = i % gx;
    let y = (i / gx) % gy;
    let z = i / (gx * gy);
    CellRecord {
        cx: c.cx,
        cy: c.cy,
        x: x as u32,
        y: y as u32,
        z: z as u32,
        world_x: world_pos(c.cx as int, x, gx) as u32,
        world_y: world_pos(c.cy as int, y, gy) as u32,
        model: c.cells@[i],
    }
}

/// The records that chunk `c` spawns, in cell order.
pub open spec fn chunk_records(s: ChunkShape, c: ChunkResult) -> Seq<CellRecord> {
    Seq::new(s.cell_count() as nat, |i: int| cell_at(s, c, i)).filter(record_emitted(s))
}

/// The records of every chunk of `w`, chunk after chunk.
pub open spec fn world_records(s: ChunkShape, w: Seq<ChunkResult>) -> Seq<CellRecord>
    decreases w.len(),
{
    if w.len() == 0 {
        Seq::empty()
    } else {
        world_records(s, w.drop_last()) + chunk_records(s, w.last())
    }
}

/// A chunk that can be assembled: inside the world, with one value per cell.
pub open spec fn chunk_ready(s: ChunkShape, c: ChunkResult) -> bool {
    &&& s.in_world(c.cx as int, c.cy as int)
    &&& c.cells@.len() == s.cell_count()
}

/// The last position along an axis of `n` chunks of `g` cells.
proof fn lemma_world_pos_bound(c: int, i: int, g: int, n: int)
    requires
        0 <= c < n,
        0 <= i < g,
    ensures
        0 <= world_pos(c, i, g) <= n * (g - 1),
{
    assert(0 <= c * (g - 1)) by (nonlinear_arith)
        requires c >= 0, g >= 1;
    assert(c * (g - 1) + (g - 1) <= n * (g - 1)) by (nonlinear_arith)
        requires c + 1 <= n, g >= 1;
}

/// The spawned records of one chunk: each cell with its world position, the
/// last column and the last row skipped where the next chunk spawns them.
pub fn chunk_tiles(shape: &ChunkShape, chunk: &ChunkResult) -> (r: Vec<CellRecord>)
    requires
        shape.wf(),
        chunk_ready(*shape, *chunk),
    ensures
        r@ == chunk_records(*shape, *chunk),
{
    let s = *shape;
    let gx = shape.grid_x;
    let gy = shape.grid_y;
    proof {
        crate::shape::lemma_index_in_range(s, 0, 0, 0);
    }
    let gxy = gx * gy;
    let n = shape.cells();
    let ghost all = Seq::new(s.cell_count() as nat, |i: int| cell_at(s, *chunk, i));
    let mut r: Vec<CellRecord> = Vec::new();
    let mut i: usize = 0;
    while i < n
        invariant
            s == *shape,
            s.wf(),
            chunk_ready(s, *chunk),
            gx == s.grid_x,
            gy == s.grid_y,
            gxy == s.grid_x * s.grid_y,
            n == s.cell_count(),
            all == Seq::new(s.cell_count() as nat, |i: int| cell_at(s, *chunk, i)),
            i <= n,
            r@ == all.subrange(0, i as int).filter(record_emitted(s)),
        decreases n - i,
    {
        let k = i as u32;
        proof {
            assert(s.cell_count() == s.grid_z * gxy) by (nonlinear_arith)
                requires s.cell_count() == s.grid_x * s.grid_y * s.grid_z, gxy == s.grid_x * s.grid_y;
            lemma_split_counter(k as int, s.grid_z as int, gxy as int);
            vstd::arithmetic::div_mod::lemma_div_pos_is_pos(k as int, gx as int);
            vstd::arithmetic::div_mod::lemma_mod_pos_bound((k / gx) as int, gy as int);
            vstd::arithmetic::div_mod::lemma_mod_pos_bound(k as int, gx as int);
            lemma_world_pos_bound(chunk.cx as int, (k % gx) as int, gx as int, s.chunks_x as int);
            lemma_world_pos_bound(chunk.cy as int, ((k / gx) % gy) as int, gy as int, s.chunks_y as int);
        }
        let x = k % gx;
        let y = (k / gx) % gy;
        let z = k / gxy;
        let skip_x = x == gx - 1 && chunk.cx + 1 < shape.chunks_x;
        let skip_y = y == gy - 1 && chunk.cy + 1 < shape.chunks_y;
        let rec = CellRecord {
            cx: chunk.cx,
            cy: chunk.cy,
            x,
            y,
            z,
            world_x: chunk.cx * (gx - 1) + x,
            world_y: chunk.cy * (gy - 1) + y,
            model: chunk.cells[i],
        };
        proof {
            assert(rec == all[i as int]);
        }
        if !skip_x && !skip_y {
            r.push(rec);
        }
        proof {
            let next = all.subrange(0, i + 1);
            assert(next.drop_last() =~= all.subrange(0, i as int));
            assert(next.last() == rec);
            reveal(Seq::filter);
        }
        i = i + 1;
    }
    proof {
        assert(all.subrange(0, n as int) =~= all);
    }
    r
}

/// The spawned records of a whole world, chunk after chunk.
pub fn assemble_world(shape: &ChunkShape, chunks: &Vec<ChunkResult>) -> (r: Vec<CellRecord>)
    requires
        shape.wf(),
        forall|i: int| 0 <= i < chunks@.len() ==> #[trigger] chunk_ready(*shape, chunks@[i]),
    ensures
        r@ == world_records(*shape, chunks@),
{
    let mut r: Vec<CellRecord> = Vec::new();
    let mut i: usize = 0;
    while i < chunks.len()
        invariant
            shape.wf(),
            forall|i: int| 0 <= i < chunks@.len() ==> #[trigger] chunk_ready(*shape, chunks@[i]),
            i <= chunks@.len(),
            r@ == world_records(*shape, chunks@.subrange(0, i as int)),
        decreases chunks.len() - i,
    {
        let mut part = chunk_tiles(shape, &chunks[i]);
        let ghost before = r@;
        r.append(&mut part);
        proof {
            let next = chunks@.subrange(0, i + 1);
            assert(next.drop_last() =~= chunks@.subrange(0, i as int));
            assert(next.last() == chunks@[i as int]);
            assert(r@ =~= before + chunk_records(*shape, chunks@[i as int]));
        }
        i = i + 1;
    }
    proof {
        assert(chunks@.subrange(0, chunks@.len() as int) =~= chunks@);
    }
    r
}

/// Along one axis, two spawned cells at the same world position are the
/// same cell of the same chunk.
pub proof fn lemma_single_emitter_along(c1: int, i1: int, c2: int, i2: int, g: int, n: int)
    requires
        0 <= c1 < n,
        0 <= c2 < n,
        0 <= i1 < g,
        0 <= i2 < g,
        emitted_along(c1, i1, g, n),
        emitted_along(c2, i2, g, n),
        world_pos(c1, i1, g) == world_pos(c2, i2, g),
    ensures
        c1 == c2,
        i1 == i2,
{
    if c1 < c2 {
        assert(c2 * (g - 1) >= c1 * (g - 1) + (g - 1)) by (nonlinear_arith)
            requires c2 >= c1 + 1, g >= 1;
    } else if c2 < c1 {
        assert(c1 * (g - 1) >= c2 * (g - 1) + (g - 1)) by (nonlinear_arith)
            requires c1 >= c2 + 1, g >= 1;
    }
}

/// Seam deduplication: no two spawned cells of a world share a world
/// position. Where two chunks overlap along a seam, exactly one of them
/// spawns each shared cell.
pub proof fn lemma_no_duplicate_positions(s: ChunkShape, a: CellRecord, b: CellRecord)
    requires
        s.wf(),
        s.in_world(a.cx as int, a.cy as int),
        s.in_world(b.cx as int, b.cy as int),
        s.in_grid(a.x as int, a.y as int, a.z as int),
        s.in_grid(b.x as int, b.y as int, b.z as int),
        emitted(s, a.cx as int, a.cy as int, a.x as int, a.y as int),
        emitted(s, b.cx as int, b.cy as int, b.x as int, b.y as int),
        world_pos(a.cx as int, a.x as int, s.grid_x as int) == world_pos(b.cx as int, b.x as int, s.grid_x as int),
        world_pos(a.cy as int, a.y as int, s.grid_y as int) == world_pos(b.cy as int, b.y as int, s.grid_y as int),
        a.z == b.z,
    ensures
        a.cx == b.cx && a.cy == b.cy && a.x == b.x && a.y == b.y,
{
    lemma_single_emitter_along(a.cx as int, a.x as int, b.cx as int, b.x as int, s.grid_x as int, s.chunks_x as int);
    lemma_single_emitter_along(a.cy as int, a.y as int, b.cy as int, b.y as int, s.grid_y as int, s.chunks_y as int);
}

/// Every record that a chunk spawns lies in its grid, is one it does not
/// leave to a neighbour, and carries its position in the stitched world, so
/// that `lemma_no_duplicate_positions` applies to any two of them.
pub proof fn lemma_chunk_record(s: ChunkShape, c: ChunkResult, k: int)
    requires
        s.wf(),
        chunk_ready(s, c),
        0 <= k < chunk_records(s, c).len(),
    ensures
        ({
            let r = chunk_records(s, c)[k];
            &&& r.cx == c.cx && r.cy == c.cy
            &&& s.in_grid(r.x as int, r.y as int, r.z as int)
            &&& emitted(s, r.cx as int, r.cy as int, r.x as int, r.y as int)
            &&& r.world_x == world_pos(r.cx as int, r.x as int, s.grid_x as int)
            &&& r.world_y == world_pos(r.cy as int, r.y as int, s.grid_y as int)
            &&& r.model == c.cells@[s.index_of(r.x as int, r.y as int, r.z as int)]
        }),
{
    let all = Seq::new(s.cell_count() as nat, |i: int| cell_at(s, c, i));
    let pred = record_emitted(s);
    let r = chunk_records(s, c)[k];
    all.lemma_filter_pred(pred, k);
    all.lemma_filter_contains_rev(pred, r);
    let i = choose|i: int| 0 <= i < all.len() && all[i] == r;
    let gx = s.grid_x as int;
    let gy = s.grid_y as int;
    let gxy = gx * gy;
    crate::shape::lemma_index_in_range(s, 0, 0, 0);
    assert(s.cell_count() == s.grid_z * gxy) by (nonlinear_arith)
        requires s.cell_count() == s.grid_x * s.grid_y * s.grid_z, gxy == s.grid_x * s.grid_y;
    lemma_split_counter(i, s.grid_z as int, gxy);
    let x = i % gx;
    let q = i / gx;
    let y = q % gy;
    let z = i / gxy;
    vstd::arithmetic::div_mod::lemma_fundamental_div_mod(i, gx);
    vstd::arithmetic::div_mod::lemma_mod_pos_bound(i, gx);
    vstd::arithmetic::div_mod::lemma_div_pos_is_pos(i, gx);
    vstd::arithmetic::div_mod::lemma_fundamental_div_mod(q, gy);
    vstd::arithmetic::div_mod::lemma_mod_pos_bound(q, gy);
    vstd::arithmetic::div_mod::lemma_div_denominator(i, gx, gy);
    lemma_world_pos_bound(c.cx as int, x, gx, s.chunks_x as int);
    lemma_world_pos_bound(c.cy as int, y, gy, s.chunks_y as int);
    assert(i == x + y * gx + z * gxy) by (nonlinear_arith)
        requires i == gx * q + x, q == gy * (q / gy) + y, z == q / gy, gxy == gx * gy;
}

/// Along one axis, the chunk that spawns world position `p`: the chunk whose
/// span starts at or before `p`, or the last chunk of the line.
pub open spec fn owner_chunk(p: int, g: int, n: int) -> int {
    if g <= 1 || p / (g - 1) >= n - 1 {
        n - 1
    } else {
        p / (g - 1)
    }
}

/// Along one axis, where world position `p` lies inside its owner chunk.
pub open spec fn owner_cell(p: int, g: int, n: int) -> int {
    p - owner_chunk(p, g, n) * (g - 1)
}

/// Along one axis, every world position is spawned by its owner chunk.
pub proof fn lemma_owner_along(p: int, g: int, n: int)
    requires
        g >= 1,
        n >= 1,
        0 <= p <= n * (g - 1),
    ensures
        0 <= owner_chunk(p, g, n) < n,
        0 <= owner_cell(p, g, n) < g,
        emitted_along(owner_chunk(p, g, n), owner_cell(p, g, n), g, n),
        world_pos(owner_chunk(p, g, n), owner_cell(p, g, n), g) == p,
{
    let c = owner_chunk(p, g, n);
    if g > 1 {
        let d = g - 1;
        vstd::arithmetic::div_mod::lemma_fundamental_div_mod(p, d);
        vstd::arithmetic::div_mod::lemma_mod_pos_bound(p, d);
        vstd::arithmetic::div_mod::lemma_div_pos_is_pos(p, d);
        let q = p / d;
        if q >= n - 1 {
            assert((n - 1) * d <= q * d) by (nonlinear_arith)
                requires q >= n - 1, d >= 1;
            assert(q * d == d * q) by (nonlinear_arith);
            assert(n * d == (n - 1) * d + d) by (nonlinear_arith);
        } else {
            assert(q * d == d * q) by (nonlinear_arith);
        }
    } else {
        assert(n * (g - 1) == 0 && c * (g - 1) == 0) by (nonlinear_arith)
            requires g == 1;
    }
}

/// Seam deduplication, the covering half: every cell of the stitched world
/// is spawned by some chunk. With `lemma_no_duplicate_positions`, each world
/// cell, seam cells included, is spawned by exactly one chunk.
pub proof fn lemma_every_position_spawned(s: ChunkShape, px: int, py: int)
    requires
        s.wf(),
        0 <= px < s.world_width(),
        0 <= py < s.world_height(),
    ensures
        ({
            let cx = owner_chunk(px, s.grid_x as int, s.chunks_x as int);
            let cy = owner_chunk(py, s.grid_y as int, s.chunks_y as int);
            let x = owner_cell(px, s.grid_x as int, s.chunks_x as int);
            let y = owner_cell(py, s.grid_y as int, s.chunks_y as int);
            &&& s.in_world(cx, cy)
            &&& 0 <= x < s.grid_x
            &&& 0 <= y < s.grid_y
            &&& emitted(s, cx, cy, x, y)
            &&& world_pos(cx, x, s.grid_x as int) == px
            &&& world_pos(cy, y, s.grid_y as int) == py
        }),
{
    lemma_owner_along(px, s.grid_x as int, s.chunks_x as int);
    lemma_owner_along(py, s.grid_y as int, s.chunks_y as int);
}

} // verus!
