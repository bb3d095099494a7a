use vstd::prelude::*;
use crate::model::{ModelAssignment, SeedEntry};
use crate::shape::ChunkShape;

verus! {

/// A chunk with both a left and a bottom neighbour: its two seams meet at a
/// shared corner, the only place where relaxation applies.
pub open spec fn doubly_seeded(cx: int, cy: int) -> bool {
    cx > 0 && cy > 0
}

/// The L-shaped region next to the shared corner that radius `radius`
/// unpins: the first `radius` cells of the left column and the `radius`
/// cells of the bottom row right of the corner. Radius 0 unpins nothing.
pub open spec fn in_corner(x: int, y: int, radius: int) -> bool {
    (x == 0 && y < radius) || (y == 0 && x > 0 && x <= radius)
}

/// Whether a seed survives the unpinning at `radius`.
pub open spec fn kept_at(radius: int) -> spec_fn(SeedEntry) -> bool {
    |e: SeedEntry| !in_corner(e.x as int, e.y as int, radius)
}

/// The seed set used at `radius`: the full set without the corner region.
pub open spec fn relaxed(seeds: Seq<SeedEntry>, radius: int) -> Seq<SeedEntry> {
    seeds.filter(kept_at(radius))
}

/// A solved grid that has one value per cell and keeps every pinned cell.
pub open spec fn pins_kept(s: ChunkShape, seeds: Seq<SeedEntry>, grid: Seq<ModelAssignment>) -> bool {
    &&& grid.len() == s.cell_count()
    &&& forall|k: int| 0 <= k < seeds.len() ==> {
        let e = #[trigger] seeds[k];
        &&& s.in_grid(e.x as int, e.y as int, e.z as int)
        &&& grid[s.index_of(e.x as int, e.y as int, e.z as int)] == e.model
    }
}

/// Drops the seeds that lie in the corner region of `radius`, keeping the
/// order of the others.
pub fn unpin_corner(seeds: &Vec<SeedEntry>, radius: u32) -> (r: Vec<SeedEntry>)
    ensures
        r@ == relaxed(seeds@, radius as int),
{
    let mut r: Vec<SeedEntry> = Vec::new();
    let mut i: usize = 0;
    while i < seeds.len()
        invariant
            i <= seeds@.len(),
            r@ == relaxed(seeds@.subrange(0, i as int), radius as int),
        decreases seeds.len() - i,
    {
        let e = seeds[i];
        let inside = (e.x == 0 && e.y < radius) || (e.y == 0 && e.x > 0 && e.x <= radius);
        if !inside {
            r.push(e);
        }
        proof {
            let next = seeds@.subrange(0, i + 1);
            assert(next.drop_last() =~= seeds@.subrange(0, i as int));
            assert(next.last() == e);
            reveal(Seq::filter);
        }
        i = i + 1;
    }
    proof {
        assert(seeds@.subrange(0, seeds@.len() as int) =~= seeds@);
    }
    r
}

/// Whether `grid` has one value per cell and keeps every seed of `seeds`.
pub fn keeps_pins(shape: &ChunkShape, seeds: &Vec<SeedEntry>, grid: &Vec<ModelAssignment>) -> (r: bool)
    requires
        shape.wf(),
    ensures
        r == pins_kept(*shape, seeds@, grid@),
{
    if grid.len() != shape.cells() {
        return false;
    }
    let mut k: usize = 0;
    while k < seeds.len()
        invariant
            shape.wf(),
            grid@.len() == shape.cell_count(),
            k <= seeds@.len(),
            forall|j: int| 0 <= j < k ==> {
                let e = #[trigger] seeds@[j];
                &&& shape.in_grid(e.x as int, e.y as int, e.z as int)
                &&& grid@[shape.index_of(e.x as int, e.y as int, e.z as int)] == e.model
            },
        decreases seeds.len() - k,
    {
        let e = seeds[k];
        if e.x >= shape.grid_x || e.y >= shape.grid_y || e.z >= shape.grid_z {
            return false;
        }
        let idx = shape.index_from_coords(e.x, e.y, e.z);
        if grid[idx] != e.model {
            return false;
        }
        k = k + 1;
    }
    true
}

} // verus!
