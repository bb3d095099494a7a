use vstd::prelude::*;
use crate::relax::doubly_seeded;
use crate::shape::ChunkShape;

verus! {

/// Column of the chunk at position `index` of the generation order.
pub open spec fn chunk_x_of(s: ChunkShape, index: int) -> int {
    index % (s.chunks_x as int)
}

/// Row of the chunk at position `index` of the generation order.
pub open spec fn chunk_y_of(s: ChunkShape, index: int) -> int {
    index / (s.chunks_x as int)
}

/// Where generation stands after one attempt: the position of the chunk to
/// attempt next and the radius to attempt it at, or `None` when the run is
/// aborted. A success moves to the next chunk with full seeding; a failure
/// of a doubly-seeded chunk below the largest radius retries one radius
/// wider; any other failure is fatal.
pub open spec fn ladder_next(s: ChunkShape, index: int, radius: int, solved: bool) -> Option<(int, int)> {
    if solved {
        Some((index + 1, 0))
    } else if doubly_seeded(chunk_x_of(s, index), chunk_y_of(s, index)) && radius < s.max_unpin_radius {
        Some((index, radius + 1))
    } else {
        None
    }
}

/// Where generation stands after a sequence of attempt outcomes, starting
/// from chunk `index` at `radius`.
pub open spec fn ladder_run(s: ChunkShape, index: int, radius: int, outcomes: Seq<bool>) -> Option<(int, int)>
    decreases outcomes.len(),
{
    if outcomes.len() == 0 {
        Some((index, radius))
    } else {
        match ladder_next(s, index, radius, outcomes[0]) {
            Some(p) => ladder_run(s, p.0, p.1, outcomes.drop_first()),
            None => None,
        }
    }
}

/// Progress never goes back: whatever the outcomes of later attempts, the
/// chunk position reached is at least the one started from, and it stays
/// equal only while the radius grows.
pub proof fn lemma_progress_monotone(s: ChunkShape, index: int, radius: int, outcomes: Seq<bool>)
    ensures
        ladder_run(s, index, radius, outcomes) matches Some(p) ==> p.0 >= index,
        ladder_run(s, index, radius, outcomes) matches Some(p) ==> (p.0 == index ==> p.1 >= radius),
    decreases outcomes.len(),
{
    if outcomes.len() > 0 {
        match ladder_next(s, index, radius, outcomes[0]) {
            Some(p) => {
                lemma_progress_monotone(s, p.0, p.1, outcomes.drop_first());
            },
            None => {},
        }
    }
}

/// The ladder stops at the first success: once chunk `index` succeeds at
/// some radius, no later attempt is made on that chunk, neither pinned nor
/// at any radius.
pub proof fn lemma_ladder_stops_at_first_success(s: ChunkShape, index: int, radius: int, later: Seq<bool>)
    ensures
        ladder_run(s, index, radius, seq![true] + later) matches Some(p) ==> p.0 > index,
{
    let all = seq![true] + later;
    assert(all[0]);
    assert(all.drop_first() =~= later);
    lemma_progress_monotone(s, index + 1, 0, later);
}

} // verus!
