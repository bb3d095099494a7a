use vstd::prelude::*;
use crate::model::{SeedEntry, FACE_COUNT};
use crate::shape::ChunkShape;

verus! {

/// Whether face direction `d` is marked in the face set `faces`.
pub open spec fn has_face(faces: u8, d: u8) -> bool {
    (faces >> d) & 1u8 == 1u8
}

/// The border zones of one seed: its cell index paired with each face
/// direction that the seed marks, in direction order.
pub open spec fn seed_zones(s: ChunkShape, e: SeedEntry) -> Seq<(usize, u8)> {
    let idx = s.index_of(e.x as int, e.y as int, e.z as int) as usize;
    Seq::new(FACE_COUNT as nat, |d: int| (idx, d as u8)).filter(|p: (usize, u8)| has_face(e.faces, p.1))
}

/// The border zones of all seeds, seed after seed.
pub open spec fn zones_of(s: ChunkShape, seeds: Seq<SeedEntry>) -> Seq<(usize, u8)>
    decreases seeds.len(),
{
    if seeds.len() == 0 {
        Seq::empty()
    } else {
        zones_of(s, seeds.drop_last()) + seed_zones(s, seeds.last())
    }
}

/// Every seed lies inside the chunk.
pub open spec fn seeds_in_grid(s: ChunkShape, seeds: Seq<SeedEntry>) -> bool {
    forall|k: int| 0 <= k < seeds.len() ==> #[trigger] s.in_grid(seeds[k].x as int, seeds[k].y as int, seeds[k].z as int)
}

/// The (cell index, face direction) pairs that tell the solver which faces
/// of the pinned cells are constrained from outside the chunk.
pub fn border_zones(shape: &ChunkShape, seeds: &Vec<SeedEntry>) -> (r: Vec<(usize, u8)>)
    requires
        shape.wf(),
        seeds_in_grid(*shape, seeds@),
    ensures
        r@ == zones_of(*shape, seeds@),
{
    let s = *shape;
    let mut r: Vec<(usize, u8)> = Vec::new();
    let mut i: usize = 0;
    while i < seeds.len()
        invariant
            s == *shape,
            s.wf(),
            seeds_in_grid(s, seeds@),
            i <= seeds@.len(),
            r@ == zones_of(s, seeds@.subrange(0, i as int)),
        decreases seeds.len() - i,
    {
        let e = seeds[i];
        assert(s.in_grid(seeds@[i as int].x as int, seeds@[i as int].y as int, seeds@[i as int].z as int));
        let idx = shape.index_from_coords(e.x, e.y, e.z);
        let ghost base = r@;
        let ghost all = Seq::new(FACE_COUNT as nat, |d: int| (idx, d as u8));
        let ghost pred = |p: (usize, u8)| has_face(e.faces, p.1);
        let mut d: u8 = 0;
        while d < FACE_COUNT
            invariant
                d <= FACE_COUNT,
                all == Seq::new(FACE_COUNT as nat, |d: int| (idx, d as u8)),
                pred == (|p: (usize, u8)| has_face(e.faces, p.1)),
                r@ == base + all.subrange(0, d as int).filter(pred),
            decreases FACE_COUNT - d,
        {
            let ghost before = r@;
            if (e.faces >> d) & 1u8 == 1u8 {
                r.push((idx, d));
            }
            proof {
                let next = all.subrange(0, d + 1);
                assert(next.drop_last() =~= all.subrange(0, d as int));
                assert(next.last() == (idx, d));
                reveal(Seq::filter);
                if has_face(e.faces, d) {
                    assert(r@ =~= base + next.filter(pred));
                } else {
                    assert(r@ =~= base + next.filter(pred));
                }
            }
            d = d + 1;
        }
        proof {
            assert(all.subrange(0, FACE_COUNT as int) =~= all);
            let next = seeds@.subrange(0, i + 1);
            assert(next.drop_last() =~= seeds@.subrange(0, i as int));
            assert(next.last() == e);
            assert(seed_zones(s, e) == all.filter(pred));
        }
        i = i + 1;
    }
    proof {
        assert(seeds@.subrange(0, seeds@.len() as int) =~= seeds@);
    }
    r
}

} // verus!
