use vstd::prelude::*;

verus! {

/// Dimensions of one chunk's grid and of the grid of chunks, plus the
/// largest corner radius the relaxation ladder may unpin.
#[derive(Clone, Copy, Debug)]
pub struct ChunkShape {
    pub grid_x: u32,
    pub grid_y: u32,
    pub grid_z: u32,
    pub chunks_x: u32,
    pub chunks_y: u32,
    pub max_unpin_radius: u32,
}

impl ChunkShape {
    /// Number of cells in one chunk.
    pub open spec fn cell_count(self) -> int {
        self.grid_x * self.grid_y * self.grid_z
    }

    /// Number of chunks in the world.
    pub open spec fn chunk_count(self) -> int {
        self.chunks_x * self.chunks_y
    }

    /// Width of the stitched world in cells (neighbouring chunks share a column).
    pub open spec fn world_width(self) -> int {
        self.chunks_x * (self.grid_x - 1) + 1
    }

    /// Height of the stitched world in cells (neighbouring chunks share a row).
    pub open spec fn world_height(self) -> int {
        self.chunks_y * (self.grid_y - 1) + 1
    }

    /// Every dimension is positive and every derived count fits in a `u32`.
    pub open spec fn wf(self) -> bool {
        &&& self.grid_x >= 1
        &&& self.grid_y >= 1
        &&& self.grid_z >= 1
        &&& self.chunks_x >= 1
        &&& self.chunks_y >= 1
        &&& self.cell_count() <= u32::MAX
        &&& self.chunk_count() <= u32::MAX
        &&& self.world_width() <= u32::MAX
        &&& self.world_height() <= u32::MAX
    }

    /// Row-major index of a local cell: x varies fastest, then y, then z.
    pub open spec fn index_of(self, x: int, y: int, z: int) -> int {
        x + y * self.grid_x + z * (self.grid_x * self.grid_y)
    }

    pub open spec fn in_grid(self, x: int, y: int, z: int) -> bool {
        0 <= x < self.grid_x && 0 <= y < self.grid_y && 0 <= z < self.grid_z
    }

    /// Position of a chunk in the generation order (rows bottom to top, each
    /// row left to right).
    pub open spec fn chunk_index(self, cx: int, cy: int) -> int {
        cy * self.chunks_x + cx
    }

    pub open spec fn in_world(self, cx: int, cy: int) -> bool {
        0 <= cx < self.chunks_x && 0 <= cy < self.chunks_y
    }

    /// Builds a shape, or `None` when a dimension is zero or a derived count
    /// does not fit in a `u32`.
    pub fn new(
        grid_x: u32,
        grid_y: u32,
        grid_z: u32,
        chunks_x: u32,
        chunks_y: u32,
        max_unpin_radius: u32,
    ) -> (r: Option<ChunkShape>)
        ensures
            r.is_some() <==> (ChunkShape { grid_x, grid_y, grid_z, chunks_x, chunks_y, max_unpin_radius }).wf(),
            r.is_some() ==> r.unwrap() == (ChunkShape { grid_x, grid_y, grid_z, chunks_x, chunks_y, max_unpin_radius }),
    {
        let s = ChunkShape { grid_x, grid_y, grid_z, chunks_x, chunks_y, max_unpin_radius };
        if grid_x == 0 || grid_y == 0 || grid_z == 0 || chunks_x == 0 || chunks_y == 0 {
            return None;
        }
        proof {
            lemma_u32_product_fits(grid_x as int, grid_y as int);
        }
        let xy = (grid_x as u64) * (grid_y as u64);
        if xy > u32::MAX as u64 {
            proof {
                assert(s.cell_count() >= xy) by (nonlinear_arith)
                    requires s.cell_count() == xy * grid_z, grid_z >= 1;
            }
            return None;
        }
        proof {
            lemma_u32_product_fits(xy as int, grid_z as int);
        }
        let cells = xy * (grid_z as u64);
        proof {
            lemma_u32_product_fits(chunks_x as int, chunks_y as int);
            lemma_u32_product_fits(chunks_x as int, grid_x - 1);
            lemma_u32_product_fits(chunks_y as int, grid_y - 1);
        }
        let chunks = (chunks_x as u64) * (chunks_y as u64);
        let width = (chunks_x as u64) * ((grid_x - 1) as u64) + 1;
        let height = (chunks_y as u64) * ((grid_y - 1) as u64) + 1;
        if cells > u32::MAX as u64 || chunks > u32::MAX as u64 || width > u32::MAX as u64
            || height > u32::MAX as u64 {
            return None;
        }
        Some(s)
    }

    /// Cells per chunk.
    pub fn cells(&self) -> (r: usize)
        requires
            self.wf(),
        ensures
            r == self.cell_count(),
    {
        proof {
            lemma_index_in_range(*self, 0, 0, 0);
        }
        (self.grid_x * self.grid_y * self.grid_z) as usize
    }

    /// Chunks in the world.
    pub fn total_chunks(&self) -> (r: u32)
        requires
            self.wf(),
        ensures
            r == self.chunk_count(),
    {
        self.chunks_x * self.chunks_y
    }

    /// Row-major index of the local cell `(x, y, z)`.
    pub fn index_from_coords(&self, x: u32, y: u32, z: u32) -> (r: usize)
        requires
            self.wf(),
            self.in_grid(x as int, y as int, z as int),
        ensures
            r == self.index_of(x as int, y as int, z as int),
            r < self.cell_count(),
    {
        proof {
            lemma_index_in_range(*self, x as int, y as int, z as int);
        }
        (x + y * self.grid_x + z * (self.grid_x * self.grid_y)) as usize
    }
}

/// The product of two values of at most `u32::MAX` fits in a `u64`.
pub proof fn lemma_u32_product_fits(a: int, b: int)
    requires
        0 <= a <= u32::MAX,
        0 <= b <= u32::MAX,
    ensures
        0 <= a * b < u64::MAX,
{
    assert(0 <= a * b <= u32::MAX as int * u32::MAX as int) by (nonlinear_arith)
        requires 0 <= a <= u32::MAX, 0 <= b <= u32::MAX;
}

/// Every in-grid cell has an index below the cell count.
pub proof fn lemma_index_in_range(s: ChunkShape, x: int, y: int, z: int)
    requires
        s.wf(),
        s.in_grid(x, y, z),
    ensures
        0 <= s.index_of(x, y, z) < s.cell_count(),
        s.grid_x * s.grid_y <= s.cell_count(),
        y * s.grid_x <= s.grid_x * s.grid_y,
{
    let gx = s.grid_x as int;
    let gy = s.grid_y as int;
    let gz = s.grid_z as int;
    assert(x + y * gx < gx * (y + 1)) by (nonlinear_arith)
        requires 0 <= x < gx, y >= 0;
    assert(gx * (y + 1) <= gx * gy) by (nonlinear_arith)
        requires y + 1 <= gy, gx >= 1;
    assert(z * (gx * gy) + gx * gy <= gx * gy * gz) by (nonlinear_arith)
        requires z + 1 <= gz, gx >= 1, gy >= 1;
    assert(0 <= y * gx && 0 <= z * (gx * gy)) by (nonlinear_arith)
        requires y >= 0, z >= 0, gx >= 1, gy >= 1;
    assert(gx * gy <= gx * gy * gz) by (nonlinear_arith)
        requires gz >= 1, gx >= 1, gy >= 1;
    assert(y * gx <= gx * gy) by (nonlinear_arith)
        requires 0 <= y < gy, gx >= 1;
}

} // verus!
