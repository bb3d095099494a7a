use vstd::prelude::*;
use crate::model::{ChunkResult, ModelAssignment, SeedEntry, ALL_FACES};
use crate::shape::ChunkShape;

verus! {

/// Splits a flat counter `k < a * d` into the pair `(k / d, k % d)`.
pub proof fn lemma_split_counter(k: int, a: int, d: int)
    requires
        0 <= k < a * d,
        d > 0,
    ensures
        0 <= k / d < a,
        0 <= k % d < d,
        k == (k / d) * d + k % d,
{
    vstd::arithmetic::div_mod::lemma_fundamental_div_mod(k, d);
    vstd::arithmetic::div_mod::lemma_mod_pos_bound(k, d);
    vstd::arithmetic::div_mod::lemma_div_pos_is_pos(k, d);
    let q = k / d;
    let r = k % d;
    assert(q * d == d * q) by (nonlinear_arith);
    assert(q < a) by (nonlinear_arith)
        requires k == d * q + r, 0 <= r, k < a * d, d > 0;
}

/// First column of the bottom seam: the shared corner column belongs to the
/// left seam whenever the chunk has a left neighbour.
pub open spec fn bottom_start(cx: int) -> int {
    if cx > 0 { 1 } else { 0 }
}

/// The `k`-th seed taken from the left neighbour: cell `(0, y, z)` pinned to
/// the neighbour's `(GRID_X - 1, y, z)`, with `y` outer and `z` inner.
pub open spec fn left_seed(s: ChunkShape, left: Seq<ModelAssignment>, k: int) -> SeedEntry {
    let y = k / (s.grid_z as int);
    let z = k % (s.grid_z as int);
    SeedEntry {
        x: 0,
        y: y as u32,
        z: z as u32,
        model: left[s.index_of(s.grid_x - 1, y, z)],
        faces: ALL_FACES,
    }
}

/// The `k`-th seed taken from the bottom neighbour: cell `(x, 0, z)` pinned to
/// the neighbour's `(x, GRID_Y - 1, z)`, with `x` outer from `start` and `z` inner.
pub open spec fn bottom_seed(s: ChunkShape, bottom: Seq<ModelAssignment>, start: int, k: int) -> SeedEntry {
    let x = start + k / (s.grid_z as int);
    let z = k % (s.grid_z as int);
    SeedEntry {
        x: x as u32,
        y: 0,
        z: z as u32,
        model: bottom[s.index_of(x, s.grid_y - 1, z)],
        faces: ALL_FACES,
    }
}

/// Seeds from the left neighbour, empty for a chunk in the first column.
pub open spec fn left_seeds(s: ChunkShape, cx: int, cy: int, store: Seq<ChunkResult>) -> Seq<SeedEntry> {
    if cx > 0 {
        let left = store[s.chunk_index(cx - 1, cy)].cells@;
        Seq::new((s.grid_y * s.grid_z) as nat, |k: int| left_seed(s, left, k))
    } else {
        Seq::empty()
    }
}

/// Seeds from the bottom neighbour, empty for a chunk in the first row.
pub open spec fn bottom_seeds(s: ChunkShape, cx: int, cy: int, store: Seq<ChunkResult>) -> Seq<SeedEntry> {
    if cy > 0 {
        let bottom = store[s.chunk_index(cx, cy - 1)].cells@;
        let start = bottom_start(cx);
        Seq::new(((s.grid_x - start) * s.grid_z) as nat, |k: int| bottom_seed(s, bottom, start, k))
    } else {
        Seq::empty()
    }
}

/// All seam seeds of chunk `(cx, cy)`: the left seam, then the bottom seam.
pub open spec fn seam_seeds(s: ChunkShape, cx: int, cy: int, store: Seq<ChunkResult>) -> Seq<SeedEntry> {
    left_seeds(s, cx, cy, store) + bottom_seeds(s, cx, cy, store)
}

/// `store` holds exactly the chunks before `(cx, cy)` in generation order,
/// each a full grid.
pub open spec fn store_ready(s: ChunkShape, cx: int, cy: int, store: Seq<ChunkResult>) -> bool {
    &&& s.wf()
    &&& s.in_world(cx, cy)
    &&& store.len() == s.chunk_index(cx, cy)
    &&& forall|i: int| 0 <= i < store.len() ==> #[trigger] store[i].cells@.len() == s.cell_count()
}

/// The chunks that seed `(cx, cy)` come before it in generation order.
pub proof fn lemma_neighbours_solved_first(s: ChunkShape, cx: int, cy: int)
    requires
        s.wf(),
        s.in_world(cx, cy),
    ensures
        cx > 0 ==> 0 <= s.chunk_index(cx - 1, cy) < s.chunk_index(cx, cy),
        cy > 0 ==> 0 <= s.chunk_index(cx, cy - 1) < s.chunk_index(cx, cy),
        0 <= s.chunk_index(cx, cy) < s.chunk_count(),
{
    let w = s.chunks_x as int;
    assert(0 <= cy * w) by (nonlinear_arith)
        requires cy >= 0, w >= 1;
    assert(cy * w + cx < s.chunks_y * w) by (nonlinear_arith)
        requires 0 <= cx < w, 0 <= cy < s.chunks_y;
    if cy > 0 {
        assert((cy - 1) * w == cy * w - w) by (nonlinear_arith);
        assert(0 <= (cy - 1) * w) by (nonlinear_arith)
            requires cy >= 1, w >= 1;
    }
}

/// Computes the seeds of chunk `(cx, cy)` from its already solved left and
/// bottom neighbours; every seed constrains all six faces.
pub fn build_initial_nodes(shape: &ChunkShape, cx: u32, cy: u32, store: &Vec<ChunkResult>) -> (r: Vec<SeedEntry>)
    requires
        store_ready(*shape, cx as int, cy as int, store@),
    ensures
        r@ == seam_seeds(*shape, cx as int, cy as int, store@),
{
    let s = *shape;
    proof {
        lemma_neighbours_solved_first(s, cx as int, cy as int);
        crate::shape::lemma_index_in_range(s, 0, 0, 0);
    }
    let gz = shape.grid_z;
    let mut r: Vec<SeedEntry> = Vec::new();
    if cx > 0 {
        let left = &store[(cy * shape.chunks_x + cx - 1) as usize].cells;
        proof {
            assert(s.grid_y * s.grid_z <= s.cell_count()) by (nonlinear_arith)
                requires s.grid_x >= 1, s.grid_y >= 1, s.grid_z >= 1, s.cell_count() == s.grid_x * s.grid_y * s.grid_z;
        }
        let n: u32 = shape.grid_y * gz;
        let mut k: u32 = 0;
        while k < n
            invariant
                s == *shape,
                store_ready(s, cx as int, cy as int, store@),
                cx > 0,
                0 <= s.chunk_index(cx - 1, cy as int) < store@.len(),
                *left == store@[s.chunk_index(cx - 1, cy as int)].cells,
                left@.len() == s.cell_count(),
                n == s.grid_y * s.grid_z,
                gz == s.grid_z,
                k <= n,
                r@.len() == k,
                forall|j: int| 0 <= j < k ==> #[trigger] r@[j] == left_seed(s, left@, j),
            decreases n - k,
        {
            proof {
                lemma_split_counter(k as int, s.grid_y as int, gz as int);
            }
            let y = k / gz;
            let z = k % gz;
            let idx = shape.index_from_coords(shape.grid_x - 1, y, z);
            r.push(SeedEntry { x: 0, y, z, model: left[idx], faces: ALL_FACES });
            k = k + 1;
        }
    }
    let ghost n_left = r@.len();
    proof {
        assert(r@ =~= left_seeds(s, cx as int, cy as int, store@));
    }
    if cy > 0 {
        let bottom = &store[((cy - 1) * shape.chunks_x + cx) as usize].cells;
        let start: u32 = if cx > 0 { 1 } else { 0 };
        proof {
            assert((s.grid_x - start) * s.grid_z <= s.cell_count()) by (nonlinear_arith)
                requires s.grid_x >= 1, s.grid_y >= 1, s.grid_z >= 1, 0 <= start <= 1,
                    s.cell_count() == s.grid_x * s.grid_y * s.grid_z;
            assert(0 <= (s.grid_x - start) * s.grid_z) by (nonlinear_arith)
                requires s.grid_x >= 1, s.grid_z >= 1, 0 <= start <= 1;
        }
        let n: u32 = (shape.grid_x - start) * gz;
        let mut k: u32 = 0;
        while k < n
            invariant
                s == *shape,
                store_ready(s, cx as int, cy as int, store@),
                cy > 0,
                0 <= s.chunk_index(cx as int, cy - 1) < store@.len(),
                *bottom == store@[s.chunk_index(cx as int, cy - 1)].cells,
                bottom@.len() == s.cell_count(),
                start == bottom_start(cx as int),
                n == (s.grid_x - start) * s.grid_z,
                gz == s.grid_z,
                k <= n,
                r@.len() == n_left + k,
                r@.subrange(0, n_left as int) == left_seeds(s, cx as int, cy as int, store@),
                forall|j: int| 0 <= j < k ==> #[trigger] r@[n_left + j] == bottom_seed(s, bottom@, start as int, j),
            decreases n - k,
        {
            proof {
                lemma_split_counter(k as int, s.grid_x - start, gz as int);
            }
            let x = start + k / gz;
            let z = k % gz;
            let idx = shape.index_from_coords(x, shape.grid_y - 1, z);
            let ghost before = r@;
            r.push(SeedEntry { x, y: 0, z, model: bottom[idx], faces: ALL_FACES });
            proof {
                assert(r@.subrange(0, n_left as int) =~= before.subrange(0, n_left as int));
            }
            k = k + 1;
        }
        proof {
            let want = seam_seeds(s, cx as int, cy as int, store@);
            let l = left_seeds(s, cx as int, cy as int, store@);
            assert(want.len() == r@.len());
            assert forall|j: int| 0 <= j < r@.len() implies r@[j] == want[j] by {
                if j < n_left {
                    assert(r@[j] == r@.subrange(0, n_left as int)[j]);
                } else {
                    assert(r@[n_left + (j - n_left)] == bottom_seed(s, bottom@, start as int, j - n_left));
                }
            }
            assert(r@ =~= want);
        }
    } else {
        proof {
            assert(r@ =~= seam_seeds(s, cx as int, cy as int, store@));
        }
    }
    r
}

} // verus!
