//! The guarantees that hold across the library's functions, stated once
//! over all inputs and proved from the contracts in [`crate::tool`].

use vstd::prelude::*;

use crate::coordinates::dist_sq;
use crate::coordinates::MapCoordinate;
use crate::errors::ToolError;
use crate::tool::closest_beats;
use crate::tool::closest_pick;
use crate::tool::comparable;
use crate::tool::find_closest_outcome;
use crate::tool::find_most_loaded_outcome;
use crate::tool::grid_entries;
use crate::tool::load;
use crate::tool::loaded_beats;
use crate::tool::loaded_pick;
use crate::tool::uniform_variant;
use crate::tool::ContentKind;
use crate::tool::Observation;
use crate::tool::WorldSnapshot;

verus! {

/// Both queries fail with `WorldNotDiscovered` on a snapshot in which no
/// cell has ever been observed; the host reports such a world as the
/// unexplored sentinel.
pub proof fn lemma_unexplored_world_not_discovered(
    snapshot: WorldSnapshot,
    reference: MapCoordinate,
    kind: ContentKind,
    closest: Result<MapCoordinate, ToolError>,
    most_loaded: Result<MapCoordinate, ToolError>,
)
    requires
        !snapshot.is_explored(),
        find_closest_outcome(snapshot, reference, kind, closest),
        find_most_loaded_outcome(snapshot, reference, kind, most_loaded),
    ensures
        closest == Result::<MapCoordinate, ToolError>::Err(ToolError::WorldNotDiscovered),
        most_loaded == Result::<MapCoordinate, ToolError>::Err(ToolError::WorldNotDiscovered),
{
}

/// Both queries fail with `ContentNotDiscovered` on a snapshot with
/// observed cells but no observation of the requested kind.
pub proof fn lemma_missing_kind_content_not_discovered(
    snapshot: WorldSnapshot,
    reference: MapCoordinate,
    kind: ContentKind,
    closest: Result<MapCoordinate, ToolError>,
    most_loaded: Result<MapCoordinate, ToolError>,
)
    requires
        snapshot.is_explored(),
        grid_entries(snapshot.grid(), kind).len() == 0,
        find_closest_outcome(snapshot, reference, kind, closest),
        find_most_loaded_outcome(snapshot, reference, kind, most_loaded),
    ensures
        closest == Result::<MapCoordinate, ToolError>::Err(ToolError::ContentNotDiscovered),
        most_loaded == Result::<MapCoordinate, ToolError>::Err(ToolError::ContentNotDiscovered),
{
}

/// Witnesses that `c` is the coordinate the nearest-cell query owes: the
/// observation at position `i` has minimal squared distance to `p` over the
/// whole list, and every earlier observation lies strictly farther away, so
/// that on an exact tie the earliest observation wins. Squared distances
/// compare exactly as Euclidean distances do.
pub open spec fn minimal_distance_witness(
    s: Seq<Observation>,
    p: MapCoordinate,
    c: MapCoordinate,
    i: int,
) -> bool {
    &&& 0 <= i < s.len()
    &&& c == s[i].0
    &&& forall|j: int| 0 <= j < s.len() ==> dist_sq(s[i].0, p) <= dist_sq(#[trigger] s[j].0, p)
    &&& forall|j: int| 0 <= j < i ==> dist_sq(s[i].0, p) < dist_sq(#[trigger] s[j].0, p)
}

/// The nearest-cell query returns the coordinate with minimum Euclidean
/// distance to the reference point among the observations of the requested
/// kind; on an exact tie, the observation earliest in row-major scan order
/// wins.
pub proof fn lemma_find_closest_minimizes(
    snapshot: WorldSnapshot,
    reference: MapCoordinate,
    kind: ContentKind,
    r: Result<MapCoordinate, ToolError>,
)
    requires
        snapshot.is_explored(),
        grid_entries(snapshot.grid(), kind).len() > 0,
        find_closest_outcome(snapshot, reference, kind, r),
    ensures
        r is Ok,
        exists|i: int|
            #[trigger] minimal_distance_witness(
                grid_entries(snapshot.grid(), kind),
                reference,
                r->Ok_0,
                i,
            ),
{
    let s = grid_entries(snapshot.grid(), kind);
    let i = choose|i: int| #[trigger] closest_pick(s, reference, i) && r->Ok_0 == s[i].0;
    assert(closest_pick(s, reference, i));
    assert forall|j: int| 0 <= j < s.len() implies dist_sq(s[i].0, reference) <= dist_sq(
        #[trigger] s[j].0,
        reference,
    ) by {
        assert(closest_beats(s, reference, i, j));
    }
    assert forall|j: int| 0 <= j < i implies dist_sq(s[i].0, reference) < dist_sq(
        #[trigger] s[j].0,
        reference,
    ) by {
        assert(closest_beats(s, reference, i, j));
    }
    assert(minimal_distance_witness(s, reference, r->Ok_0, i));
}

/// Witnesses that `c` is the coordinate the most-loaded query owes: the
/// observation at position `i` has maximal load over the whole list, lies
/// no farther from `p` than any observation of equal load, and no earlier
/// observation matches both its load and its distance, so that the earliest
/// observation wins a full tie.
pub open spec fn maximal_load_witness(
    s: Seq<Observation>,
    p: MapCoordinate,
    c: MapCoordinate,
    i: int,
) -> bool {
    &&& 0 <= i < s.len()
    &&& c == s[i].0
    &&& forall|j: int| 0 <= j < s.len() ==> load(s[i].1) >= load(#[trigger] s[j].1)
    &&& forall|j: int|
        0 <= j < s.len() && load(#[trigger] s[j].1) == load(s[i].1) ==> dist_sq(s[i].0, p)
            <= dist_sq(s[j].0, p)
    &&& forall|j: int|
        0 <= j < i ==> !(load(#[trigger] s[j].1) == load(s[i].1) && dist_sq(s[j].0, p) == dist_sq(
            s[i].0,
            p,
        ))
}

/// The most-loaded query returns the coordinate with maximum load among
/// the observations of the requested kind, provided they all carry the
/// same quantity variant, as the host guarantees for a well-formed kind;
/// on a load tie, the observation closer to the reference point wins, and
/// on a tie of both load and distance, the observation earliest in
/// row-major scan order wins.
pub proof fn lemma_find_most_loaded_maximizes(
    snapshot: WorldSnapshot,
    reference: MapCoordinate,
    kind: ContentKind,
    r: Result<MapCoordinate, ToolError>,
)
    requires
        snapshot.is_explored(),
        grid_entries(snapshot.grid(), kind).len() > 0,
        uniform_variant(grid_entries(snapshot.grid(), kind)),
        find_most_loaded_outcome(snapshot, reference, kind, r),
    ensures
        r is Ok,
        exists|i: int|
            #[trigger] maximal_load_witness(
                grid_entries(snapshot.grid(), kind),
                reference,
                r->Ok_0,
                i,
            ),
{
    let s = grid_entries(snapshot.grid(), kind);
    let i = choose|i: int| #[trigger] loaded_pick(s, reference, i) && r->Ok_0 == s[i].0;
    assert(loaded_pick(s, reference, i));
    assert forall|j: int| 0 <= j < s.len() implies load(s[i].1) >= load(#[trigger] s[j].1) by {
        assert(comparable(s, j));
        assert(loaded_beats(s, reference, i, j));
    }
    assert forall|j: int|
        0 <= j < s.len() && load(#[trigger] s[j].1) == load(s[i].1) implies dist_sq(s[i].0,
        reference) <= dist_sq(s[j].0, reference) by {
        assert(comparable(s, j));
        assert(loaded_beats(s, reference, i, j));
    }
    assert forall|j: int|
        0 <= j < i implies !(load(#[trigger] s[j].1) == load(s[i].1) && dist_sq(s[j].0, reference)
        == dist_sq(s[i].0, reference)) by {
        assert(comparable(s, j));
        assert(loaded_beats(s, reference, i, j));
    }
    assert(maximal_load_witness(s, reference, r->Ok_0, i));
}

/// Rebuilding the index from an unchanged snapshot and re-querying yields
/// identical results: each query's outcome is a function of the snapshot,
/// the reference point and the kind alone.
pub proof fn lemma_requery_identical(
    snapshot: WorldSnapshot,
    reference: MapCoordinate,
    kind: ContentKind,
    closest_first: Result<MapCoordinate, ToolError>,
    closest_second: Result<MapCoordinate, ToolError>,
    most_loaded_first: Result<MapCoordinate, ToolError>,
    most_loaded_second: Result<MapCoordinate, ToolError>,
)
    requires
        find_closest_outcome(snapshot, reference, kind, closest_first),
        find_closest_outcome(snapshot, reference, kind, closest_second),
        find_most_loaded_outcome(snapshot, reference, kind, most_loaded_first),
        find_most_loaded_outcome(snapshot, reference, kind, most_loaded_second),
    ensures
        closest_first == closest_second,
        most_loaded_first == most_loaded_second,
{
    if snapshot.is_explored() {
        let s = grid_entries(snapshot.grid(), kind);
        if s.len() != 0 {
            let a = choose|i: int|
                #[trigger] closest_pick(s, reference, i) && closest_first->Ok_0 == s[i].0;
            let b = choose|i: int|
                #[trigger] closest_pick(s, reference, i) && closest_second->Ok_0 == s[i].0;
            assert(closest_beats(s, reference, a, b) && closest_beats(s, reference, b, a));
            assert(a == b);
            let c = choose|i: int|
                #[trigger] loaded_pick(s, reference, i) && most_loaded_first->Ok_0 == s[i].0;
            let d = choose|i: int|
                #[trigger] loaded_pick(s, reference, i) && most_loaded_second->Ok_0 == s[i].0;
            assert(loaded_beats(s, reference, c, d) && loaded_beats(s, reference, d, c));
            assert(c == d);
        }
    }
}

} // verus!
