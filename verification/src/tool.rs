//! The resource index and the two spatial queries over it.
//!
//! A snapshot of the grid, as the host reports it, is either the sentinel
//! "nothing observed yet" or a rectangular array of optional cells, where a
//! missing cell has not been discovered. [`TileMapper::collection`] scans a
//! snapshot in row-major order and groups every discovered, non-empty cell
//! by the kind of resource it holds; [`TileMapper::find_closest`] and
//! [`TileMapper::find_most_loaded`] answer the two queries over that index.

use vstd::prelude::*;

use crate::coordinates::dist_sq;
use crate::coordinates::MapCoordinate;
use crate::errors::ToolError;

verus! {

/// The kind of resource a cell holds, independent of the carried amount.
/// Two cells holding different amounts of the same resource fall under the
/// same kind.
#[derive(Debug, Clone, Copy, PartialEq, Eq, Structural)]
pub enum ContentKind {
    Rock,
    Tree,
    Garbage,
    Fire,
    Coin,
    Bin,
    Crate,
    Bank,
    Water,
    Market,
    Fish,
    Building,
    Bush,
    JollyBlock,
    Scarecrow,
}

/// The amount of a resource in a cell: either a discrete count, or an
/// interval whose magnitude `end - start` is the comparable measure.
#[derive(Debug, Clone, Copy, PartialEq, Eq, Structural)]
pub enum Quantity {
    /// A discrete amount, such as a number of rock units.
    Scalar(usize),
    /// An interval; its magnitude `end - start` is what the most-loaded
    /// query compares.
    Extent { start: usize, end: usize },
}

/// A discovered cell: either empty, or holding an amount of some resource.
#[derive(Debug, Clone, Copy, PartialEq, Eq, Structural)]
pub enum Cell {
    /// Discovered, but holding nothing.
    Empty,
    /// Discovered and holding the given amount of the given resource kind.
    Resource(ContentKind, Quantity),
}

/// A point-in-time view of the grid as known to the caller: either the
/// sentinel meaning that no cell has ever been observed, or a grid of rows
/// in which `None` marks a cell that is still undiscovered.
#[derive(Debug)]
pub enum WorldSnapshot {
    /// No cell has ever been observed; distinct from a grid whose observed
    /// cells are all empty.
    Unexplored,
    /// The grid, row by row; `None` cells have not been discovered yet.
    Explored(Vec<Vec<Option<Cell>>>),
}

/// One observation recorded by the index: where a resource was seen, and
/// how much of it.
pub type Observation = (MapCoordinate, Quantity);

impl WorldSnapshot {
    /// Whether the host has observed at least one cell.
    pub open spec fn is_explored(&self) -> bool {
        self is Explored
    }

    /// The rows of the snapshot as mathematical sequences; empty for the
    /// unexplored sentinel.
    pub open spec fn grid(&self) -> Seq<Seq<Option<Cell>>> {
        match self {
            WorldSnapshot::Explored(rows) => rows@.map_values(|row: Vec<Option<Cell>>| row@),
            WorldSnapshot::Unexplored => Seq::empty(),
        }
    }
}

/// The observations contributed by one cell at column `col` of row `row`:
/// a single observation if the cell is discovered and holds a resource of
/// kind `kind`, and nothing otherwise.
pub open spec fn cell_entries(cell: Option<Cell>, col: int, row: int, kind: ContentKind) -> Seq<
    Observation,
> {
    match cell {
        Option::Some(Cell::Resource(k, q)) => if k == kind {
            seq![(MapCoordinate { width: col as usize, height: row as usize }, q)]
        } else {
            Seq::empty()
        },
        _ => Seq::empty(),
    }
}

/// The observations of kind `kind` among the first `n` cells of row `row`,
/// in column order.
pub open spec fn row_entries_upto(
    row: Seq<Option<Cell>>,
    r: int,
    n: int,
    kind: ContentKind,
) -> Seq<Observation>
    decreases n,
{
    if n <= 0 {
        Seq::empty()
    } else {
        row_entries_upto(row, r, n - 1, kind) + cell_entries(row[n - 1], n - 1, r, kind)
    }
}

/// The observations of kind `kind` in row `row`, in column order.
pub open spec fn row_entries(row: Seq<Option<Cell>>, r: int, kind: ContentKind) -> Seq<
    Observation,
> {
    row_entries_upto(row, r, row.len() as int, kind)
}

/// The observations of kind `kind` among the first `n` rows of the grid,
/// in row-major order.
pub open spec fn grid_entries_upto(
    grid: Seq<Seq<Option<Cell>>>,
    n: int,
    kind: ContentKind,
) -> Seq<Observation>
    decreases n,
{
    if n <= 0 {
        Seq::empty()
    } else {
        grid_entries_upto(grid, n - 1, kind) + row_entries(grid[n - 1], n - 1, kind)
    }
}

/// The observations of kind `kind` in the whole grid, in row-major order.
/// This sequence is what both queries are specified against.
pub open spec fn grid_entries(grid: Seq<Seq<Option<Cell>>>, kind: ContentKind) -> Seq<
    Observation,
> {
    grid_entries_upto(grid, grid.len() as int, kind)
}

/// One bucket of the index: a kind together with the observations of that
/// kind, in scan order.
pub type Bucket = (ContentKind, Vec<Observation>);

/// A mapping from resource kind to the list of observations of that kind,
/// in the row-major order in which they were scanned. The order of the
/// buckets themselves carries no meaning.
pub struct ResourceIndex {
    /// One bucket per kind seen so far; no two buckets share a kind.
    pub buckets: Vec<Bucket>,
}

/// No two buckets are keyed by the same kind.
pub open spec fn buckets_distinct(bs: Seq<Bucket>) -> bool {
    forall|i: int, j: int|
        0 <= i < j < bs.len() ==> (#[trigger] bs[i]).0 != (#[trigger] bs[j]).0
}

/// Whether some bucket is keyed by `kind`.
pub open spec fn buckets_have(bs: Seq<Bucket>, kind: ContentKind) -> bool {
    exists|i: int| 0 <= i < bs.len() && (#[trigger] bs[i]).0 == kind
}

/// The position of a bucket keyed by `kind`, when one exists.
pub open spec fn bucket_position(bs: Seq<Bucket>, kind: ContentKind) -> int {
    choose|i: int| 0 <= i < bs.len() && (#[trigger] bs[i]).0 == kind
}

/// The observations recorded for `kind`, or the empty sequence when no
/// bucket is keyed by `kind`.
pub open spec fn buckets_entries(bs: Seq<Bucket>, kind: ContentKind) -> Seq<Observation> {
    if buckets_have(bs, kind) {
        bs[bucket_position(bs, kind)].1@
    } else {
        Seq::empty()
    }
}

impl ResourceIndex {
    /// No two buckets are keyed by the same kind.
    pub open spec fn wf(&self) -> bool {
        buckets_distinct(self.buckets@)
    }

    /// Whether some bucket is keyed by `kind`.
    pub open spec fn has_kind(&self, kind: ContentKind) -> bool {
        buckets_have(self.buckets@, kind)
    }

    /// The observations recorded for `kind`, or the empty sequence when no
    /// bucket is keyed by `kind`.
    pub open spec fn entries_of(&self, kind: ContentKind) -> Seq<Observation> {
        buckets_entries(self.buckets@, kind)
    }

    /// An index with no observations at all.
    pub fn empty() -> (index: ResourceIndex)
        ensures
            index.wf(),
            forall|k: ContentKind| !(#[trigger] index.has_kind(k)),
            forall|k: ContentKind| #[trigger] index.entries_of(k) == Seq::<Observation>::empty(),
    {
        ResourceIndex { buckets: Vec::new() }
    }

    /// The observations recorded for `kind`, or `None` when the index has
    /// no bucket for that kind.
    pub fn get(&self, kind: ContentKind) -> (r: Option<&Vec<Observation>>)
        requires
            self.wf(),
        ensures
            match r {
                Option::Some(v) => self.has_kind(kind) && v@ == self.entries_of(kind),
                Option::None => !self.has_kind(kind),
            },
    {
        let mut i: usize = 0;
        while i < self.buckets.len()
            invariant
                self.wf(),
                i <= self.buckets@.len(),
                forall|j: int| 0 <= j < i ==> (#[trigger] self.buckets@[j]).0 != kind,
            decreases self.buckets@.len() - i,
        {
            if self.buckets[i].0 == kind {
                proof {
                    lemma_bucket_position_unique(self.buckets@, kind, i as int);
                }
                return Option::Some(&self.buckets[i].1);
            }
            i += 1;
        }
        Option::None
    }

    /// Appends one observation to the bucket for `kind`, creating the
    /// bucket if this is the first observation of that kind.
    fn push_observation(&mut self, kind: ContentKind, observation: Observation)
        requires
            old(self).wf(),
        ensures
            final(self).wf(),
            final(self).entries_of(kind) == old(self).entries_of(kind).push(observation),
            forall|k: ContentKind|
                k != kind ==> #[trigger] final(self).entries_of(k) == old(self).entries_of(k),
            forall|k: ContentKind|
                #[trigger] final(self).has_kind(k) <==> (old(self).has_kind(k) || k == kind),
    {
        let ghost old_buckets = self.buckets@;
        let mut i: usize = 0;
        while i < self.buckets.len()
            invariant
                buckets_distinct(old_buckets),
                old(self).buckets@ == old_buckets,
                i <= self.buckets@.len(),
                self.buckets@ == old_buckets,
                forall|j: int| 0 <= j < i ==> (#[trigger] self.buckets@[j]).0 != kind,
            decreases self.buckets@.len() - i,
        {
            if self.buckets[i].0 == kind {
                self.buckets[i].1.push(observation);
                proof {
                    lemma_bucket_updated(old_buckets, self.buckets@, i as int, kind, observation);
                }
                return;
            }
            i += 1;
        }
        let mut list: Vec<Observation> = Vec::new();
        list.push(observation);
        self.buckets.push((kind, list));
        proof {
            lemma_bucket_appended(old_buckets, self.buckets@, kind, observation);
        }
    }
}

/// The comparable measure of a quantity: the scalar count, or the magnitude
/// `end - start` of an extent (zero for a degenerate extent whose end lies
/// before its start).
pub open spec fn load(q: Quantity) -> int {
    match q {
        Quantity::Scalar(n) => n as int,
        Quantity::Extent { start, end } => if start <= end {
            end - start
        } else {
            0
        },
    }
}

/// Which of the two quantity variants an observation carries.
pub open spec fn is_scalar(q: Quantity) -> bool {
    q is Scalar
}

/// Observation `i` wins the nearest-cell comparison against observation `j`:
/// it lies strictly closer to `p`, or equally close while standing no later
/// in scan order.
pub open spec fn closest_beats(s: Seq<Observation>, p: MapCoordinate, i: int, j: int) -> bool {
    ||| dist_sq(s[i].0, p) < dist_sq(s[j].0, p)
    ||| (dist_sq(s[i].0, p) == dist_sq(s[j].0, p) && i <= j)
}

/// Observation `i` is the one the nearest-cell query returns: it wins the
/// comparison against every observation in the list.
pub open spec fn closest_pick(s: Seq<Observation>, p: MapCoordinate, i: int) -> bool {
    &&& 0 <= i < s.len()
    &&& forall|j: int| 0 <= j < s.len() ==> closest_beats(s, p, i, j)
}

/// What the nearest-cell query returns when the world is explored and the
/// observations of the requested kind are `s`: the error when nothing of
/// that kind was seen, and otherwise the coordinate of the winning
/// observation.
pub open spec fn closest_outcome(
    s: Seq<Observation>,
    p: MapCoordinate,
    r: Result<MapCoordinate, ToolError>,
) -> bool {
    if s.len() == 0 {
        r == Result::<MapCoordinate, ToolError>::Err(ToolError::ContentNotDiscovered)
    } else {
        r matches Result::Ok(c) && exists|i: int| #[trigger] closest_pick(s, p, i) && c == s[i].0
    }
}

/// Observation `i` carries the same quantity variant as the first
/// observation of the list, so the most-loaded comparison can measure it.
pub open spec fn comparable(s: Seq<Observation>, i: int) -> bool {
    is_scalar(s[i].1) == is_scalar(s[0].1)
}

/// Observation `i` wins the most-loaded comparison against observation `j`:
/// strictly more load, or equal load but strictly closer to `p`, or equal
/// load at equal distance while standing no later in scan order.
pub open spec fn loaded_beats(s: Seq<Observation>, p: MapCoordinate, i: int, j: int) -> bool {
    ||| load(s[i].1) > load(s[j].1)
    ||| (load(s[i].1) == load(s[j].1) && dist_sq(s[i].0, p) < dist_sq(s[j].0, p))
    ||| (load(s[i].1) == load(s[j].1) && dist_sq(s[i].0, p) == dist_sq(s[j].0, p) && i <= j)
}

/// Observation `i` is the one the most-loaded query returns: its variant
/// matches the first observation's, and it wins the comparison against
/// every observation whose variant also matches. An observation of the
/// mismatched variant, which can only arise from a malformed mixed-variant
/// kind, is silently skipped by the query and excluded here.
pub open spec fn loaded_pick(s: Seq<Observation>, p: MapCoordinate, i: int) -> bool {
    &&& 0 <= i < s.len()
    &&& comparable(s, i)
    &&& forall|j: int| 0 <= j < s.len() && comparable(s, j) ==> loaded_beats(s, p, i, j)
}

/// Every observation of the list carries the same quantity variant as the
/// first one. A well-formed kind satisfies this: the host guarantees that
/// one kind of resource is always measured the same way.
pub open spec fn uniform_variant(s: Seq<Observation>) -> bool {
    forall|i: int| 0 <= i < s.len() ==> #[trigger] comparable(s, i)
}

/// What the most-loaded query returns when the world is explored and the
/// observations of the requested kind are `s`.
pub open spec fn loaded_outcome(
    s: Seq<Observation>,
    p: MapCoordinate,
    r: Result<MapCoordinate, ToolError>,
) -> bool {
    if s.len() == 0 {
        r == Result::<MapCoordinate, ToolError>::Err(ToolError::ContentNotDiscovered)
    } else {
        r matches Result::Ok(c) && exists|i: int| #[trigger] loaded_pick(s, p, i) && c == s[i].0
    }
}

/// The full contract of [`TileMapper::find_closest`].
pub open spec fn find_closest_outcome(
    snapshot: WorldSnapshot,
    reference: MapCoordinate,
    kind: ContentKind,
    r: Result<MapCoordinate, ToolError>,
) -> bool {
    if snapshot.is_explored() {
        closest_outcome(grid_entries(snapshot.grid(), kind), reference, r)
    } else {
        r == Result::<MapCoordinate, ToolError>::Err(ToolError::WorldNotDiscovered)
    }
}

/// The full contract of [`TileMapper::find_most_loaded`].
pub open spec fn find_most_loaded_outcome(
    snapshot: WorldSnapshot,
    reference: MapCoordinate,
    kind: ContentKind,
    r: Result<MapCoordinate, ToolError>,
) -> bool {
    if snapshot.is_explored() {
        loaded_outcome(grid_entries(snapshot.grid(), kind), reference, r)
    } else {
        r == Result::<MapCoordinate, ToolError>::Err(ToolError::WorldNotDiscovered)
    }
}

/// Whether a quantity is a scalar count, decided at run time.
fn quantity_is_scalar(q: &Quantity) -> (r: bool)
    ensures
        r == is_scalar(*q),
{
    match q {
        Quantity::Scalar(_) => true,
        Quantity::Extent { .. } => false,
    }
}

/// The comparable measure of a quantity, decided at run time.
fn quantity_load(q: &Quantity) -> (r: usize)
    ensures
        r as int == load(*q),
{
    match q {
        Quantity::Scalar(n) => *n,
        Quantity::Extent { start, end } => if *end >= *start {
            *end - *start
        } else {
            0
        },
    }
}

/// One pass over a non-empty observation list, keeping the observation that
/// lies strictly closer to `reference` than the best seen so far, so that
/// the earliest observation wins exact distance ties.
fn closest_entry(observations: &Vec<Observation>, reference: &MapCoordinate) -> (r: MapCoordinate)
    requires
        observations@.len() > 0,
    ensures
        exists|i: int|
            #[trigger] closest_pick(observations@, *reference, i) && r == observations@[i].0,
{
    let mut best = observations[0].0;
    let ghost mut best_i: int = 0;
    let mut idx: usize = 1;
    while idx < observations.len()
        invariant
            1 <= idx <= observations@.len(),
            0 <= best_i < idx,
            best == observations@[best_i].0,
            forall|j: int| 0 <= j < idx ==> closest_beats(observations@, *reference, best_i, j),
        decreases observations@.len() - idx,
    {
        let ghost previous = best_i;
        if observations[idx].0.closer_than(&best, reference) {
            best = observations[idx].0;
            proof {
                best_i = idx as int;
            }
        }
        proof {
            assert forall|j: int| 0 <= j < idx + 1 implies closest_beats(
                observations@,
                *reference,
                best_i,
                j,
            ) by {
                if j < idx {
                    assert(closest_beats(observations@, *reference, previous, j));
                }
            }
        }
        idx += 1;
    }
    proof {
        assert(closest_pick(observations@, *reference, best_i));
    }
    best
}

/// One pass over a non-empty observation list, keeping the observation with
/// the strictly larger load; on equal load the candidate is adopted only
/// when strictly closer to `reference`, so the earliest observation keeps
/// precedence at equal load and equal distance. The first observation fixes
/// which quantity variant is measured; an observation of the other variant
/// is skipped.
fn most_loaded_entry(observations: &Vec<Observation>, reference: &MapCoordinate) -> (r:
    MapCoordinate)
    requires
        observations@.len() > 0,
    ensures
        exists|i: int|
            #[trigger] loaded_pick(observations@, *reference, i) && r == observations@[i].0,
{
    let first = observations[0];
    let scalar_kind = quantity_is_scalar(&first.1);
    let mut best = first.0;
    let mut best_load = quantity_load(&first.1);
    let ghost mut best_i: int = 0;
    let mut idx: usize = 1;
    while idx < observations.len()
        invariant
            1 <= idx <= observations@.len(),
            0 <= best_i < idx,
            scalar_kind == is_scalar(observations@[0].1),
            comparable(observations@, best_i),
            best == observations@[best_i].0,
            best_load as int == load(observations@[best_i].1),
            forall|j: int|
                0 <= j < idx && comparable(observations@, j) ==> loaded_beats(
                    observations@,
                    *reference,
                    best_i,
                    j,
                ),
        decreases observations@.len() - idx,
    {
        let observation = observations[idx];
        if quantity_is_scalar(&observation.1) == scalar_kind {
            let current_load = quantity_load(&observation.1);
            if current_load > best_load {
                best = observation.0;
                best_load = current_load;
                proof {
                    best_i = idx as int;
                }
            } else if current_load == best_load && observation.0.closer_than(&best, reference) {
                best = observation.0;
                best_load = current_load;
                proof {
                    best_i = idx as int;
                }
            }
        }
        idx += 1;
    }
    proof {
        assert(loaded_pick(observations@, *reference, best_i));
    }
    best
}

/// The read-side mapper: builds a [`ResourceIndex`] from a snapshot and
/// answers the two spatial queries. It never mutates the snapshot.
pub struct TileMapper {}

impl TileMapper {
    /// Scans the snapshot in row-major order and groups every discovered,
    /// non-empty cell by the kind of resource it holds, recording the
    /// coordinate as `(column, row)` and the carried amount.
    ///
    /// Returns `None` exactly when the snapshot is the unexplored sentinel;
    /// a grid whose observed cells are all empty yields an index with no
    /// buckets, so that callers can tell "nothing seen yet" from "nothing
    /// matches".
    pub fn collection(snapshot: &WorldSnapshot) -> (result: Option<ResourceIndex>)
        ensures
            match result {
                Option::None => !snapshot.is_explored(),
                Option::Some(index) => {
                    &&& snapshot.is_explored()
                    &&& index.wf()
                    &&& forall|k: ContentKind|
                        #[trigger] index.entries_of(k) == grid_entries(snapshot.grid(), k)
                    &&& forall|k: ContentKind|
                        #[trigger] index.has_kind(k) <==> grid_entries(
                            snapshot.grid(),
                            k,
                        ).len() != 0
                },
            },
    {
        match snapshot {
            WorldSnapshot::Unexplored => Option::None,
            WorldSnapshot::Explored(rows) => {
                let ghost g = snapshot.grid();
                let mut index = ResourceIndex::empty();
                let mut r: usize = 0;
                while r < rows.len()
                    invariant
                        g.len() == rows@.len(),
                        forall|j: int| 0 <= j < g.len() ==> #[trigger] g[j] == rows@[j]@,
                        r <= rows@.len(),
                        index.wf(),
                        forall|k: ContentKind|
                            #[trigger] index.entries_of(k) == grid_entries_upto(g, r as int, k),
                        forall|k: ContentKind|
                            #[trigger] index.has_kind(k) <==> grid_entries_upto(
                                g,
                                r as int,
                                k,
                            ).len() != 0,
                    decreases rows@.len() - r,
                {
                    let mut c: usize = 0;
                    while c < rows[r].len()
                        invariant
                            g.len() == rows@.len(),
                            forall|j: int| 0 <= j < g.len() ==> #[trigger] g[j] == rows@[j]@,
                            r < rows@.len(),
                            c <= rows@[r as int]@.len(),
                            index.wf(),
                            forall|k: ContentKind|
                                #[trigger] index.entries_of(k) == grid_entries_upto(g, r as int, k)
                                    + row_entries_upto(g[r as int], r as int, c as int, k),
                            forall|k: ContentKind|
                                #[trigger] index.has_kind(k) <==> (grid_entries_upto(g, r as int, k)
                                    + row_entries_upto(g[r as int], r as int, c as int, k)).len()
                                    != 0,
                        decreases rows@[r as int]@.len() - c,
                    {
                        match rows[r][c] {
                            Option::Some(Cell::Resource(kind, quantity)) => {
                                let coordinate = MapCoordinate::new(c, r);
                                index.push_observation(kind, (coordinate, quantity));
                                proof {
                                    assert forall|k: ContentKind|
                                        #[trigger] index.entries_of(k) == grid_entries_upto(
                                            g,
                                            r as int,
                                            k,
                                        ) + row_entries_upto(
                                            g[r as int],
                                            r as int,
                                            c as int + 1,
                                            k,
                                        ) by {
                                        let before = grid_entries_upto(g, r as int, k)
                                            + row_entries_upto(g[r as int], r as int, c as int, k);
                                        let step = cell_entries(
                                            g[r as int][c as int],
                                            c as int,
                                            r as int,
                                            k,
                                        );
                                        if k == kind {
                                            assert(index.entries_of(k) =~= before + step);
                                        } else {
                                            assert(before + step =~= before);
                                        }
                                    }
                                }
                            },
                            _ => {
                                proof {
                                    assert forall|k: ContentKind|
                                        #[trigger] index.entries_of(k) == grid_entries_upto(
                                            g,
                                            r as int,
                                            k,
                                        ) + row_entries_upto(
                                            g[r as int],
                                            r as int,
                                            c as int + 1,
                                            k,
                                        ) by {
                                        let before = grid_entries_upto(g, r as int, k)
                                            + row_entries_upto(g[r as int], r as int, c as int, k);
                                        let step = cell_entries(
                                            g[r as int][c as int],
                                            c as int,
                                            r as int,
                                            k,
                                        );
                                        assert(before + step =~= before);
                                    }
                                }
                            },
                        }
                        c += 1;
                    }
                    r += 1;
                }
                Option::Some(index)
            },
        }
    }

    /// The nearest-cell query against a pre-built index, for callers that
    /// issue several queries per snapshot and want to avoid rescanning.
    ///
    /// Fails with `ContentNotDiscovered` exactly when the index records no
    /// observation of `kind`; otherwise returns the coordinate of the
    /// observation nearest to `reference`, the earliest-scanned one when
    /// several lie exactly equally near.
    pub fn find_closest_in_index(
        index: &ResourceIndex,
        reference: MapCoordinate,
        kind: ContentKind,
    ) -> (r: Result<MapCoordinate, ToolError>)
        requires
            index.wf(),
        ensures
            closest_outcome(index.entries_of(kind), reference, r),
    {
        match index.get(kind) {
            Option::Some(observations) => {
                if observations.len() > 0 {
                    Result::Ok(closest_entry(observations, &reference))
                } else {
                    Result::Err(ToolError::ContentNotDiscovered)
                }
            },
            Option::None => Result::Err(ToolError::ContentNotDiscovered),
        }
    }

    /// The most-loaded-cell query against a pre-built index.
    ///
    /// Fails with `ContentNotDiscovered` exactly when the index records no
    /// observation of `kind`; otherwise returns the coordinate of the
    /// observation carrying the most load, ties broken first by distance to
    /// `reference` and then in favour of the earliest-scanned observation.
    pub fn find_most_loaded_in_index(
        index: &ResourceIndex,
        reference: MapCoordinate,
        kind: ContentKind,
    ) -> (r: Result<MapCoordinate, ToolError>)
        requires
            index.wf(),
        ensures
            loaded_outcome(index.entries_of(kind), reference, r),
    {
        match index.get(kind) {
            Option::Some(observations) => {
                if observations.len() > 0 {
                    Result::Ok(most_loaded_entry(observations, &reference))
                } else {
                    Result::Err(ToolError::ContentNotDiscovered)
                }
            },
            Option::None => Result::Err(ToolError::ContentNotDiscovered),
        }
    }

    /// Finds the discovered cell of kind `kind` nearest to `reference`.
    ///
    /// Fails with `WorldNotDiscovered` when the snapshot is the unexplored
    /// sentinel and with `ContentNotDiscovered` when the world has
    /// observations but none of `kind`; otherwise returns the coordinate of
    /// the nearest matching cell, the earliest in row-major scan order when
    /// several lie exactly equally near. The index is rebuilt from the
    /// snapshot on every call.
    pub fn find_closest(
        &self,
        snapshot: &WorldSnapshot,
        reference: MapCoordinate,
        kind: ContentKind,
    ) -> (r: Result<MapCoordinate, ToolError>)
        ensures
            find_closest_outcome(*snapshot, reference, kind, r),
    {
        match TileMapper::collection(snapshot) {
            Option::None => Result::Err(ToolError::WorldNotDiscovered),
            Option::Some(index) => TileMapper::find_closest_in_index(&index, reference, kind),
        }
    }

    /// Finds the discovered cell of kind `kind` carrying the most load.
    ///
    /// Fails with `WorldNotDiscovered` when the snapshot is the unexplored
    /// sentinel and with `ContentNotDiscovered` when the world has
    /// observations but none of `kind`; otherwise returns the coordinate of
    /// the matching cell with the largest load, ties broken first in favour
    /// of the cell strictly closer to `reference` and then in favour of the
    /// earliest cell in row-major scan order. The index is rebuilt from the
    /// snapshot on every call.
    pub fn find_most_loaded(
        &self,
        snapshot: &WorldSnapshot,
        reference: MapCoordinate,
        kind: ContentKind,
    ) -> (r: Result<MapCoordinate, ToolError>)
        ensures
            find_most_loaded_outcome(*snapshot, reference, kind, r),
    {
        match TileMapper::collection(snapshot) {
            Option::None => Result::Err(ToolError::WorldNotDiscovered),
            Option::Some(index) => TileMapper::find_most_loaded_in_index(&index, reference, kind),
        }
    }
}

/// In a distinct bucket list, a bucket observed to be keyed by `kind` at
/// position `i` is the bucket that `bucket_position` designates.
proof fn lemma_bucket_position_unique(bs: Seq<Bucket>, kind: ContentKind, i: int)
    requires
        buckets_distinct(bs),
        0 <= i < bs.len(),
        bs[i].0 == kind,
    ensures
        buckets_have(bs, kind),
        bucket_position(bs, kind) == i,
        buckets_entries(bs, kind) == bs[i].1@,
{
    assert(buckets_have(bs, kind));
    let p = bucket_position(bs, kind);
    assert(0 <= p < bs.len() && bs[p].0 == kind);
    if p < i {
        assert(bs[p].0 != bs[i].0);
    } else if i < p {
        assert(bs[i].0 != bs[p].0);
    }
}

/// After appending `observation` to the list of the bucket at position `i`,
/// the one keyed by `kind`, the index maps `kind` to its old list plus the
/// observation and every other kind to what it mapped to before.
proof fn lemma_bucket_updated(
    old_b: Seq<Bucket>,
    new_b: Seq<Bucket>,
    i: int,
    kind: ContentKind,
    observation: Observation,
)
    requires
        buckets_distinct(old_b),
        0 <= i < old_b.len(),
        new_b.len() == old_b.len(),
        old_b[i].0 == kind,
        new_b[i].0 == kind,
        new_b[i].1@ == old_b[i].1@.push(observation),
        forall|j: int| 0 <= j < old_b.len() && j != i ==> #[trigger] new_b[j] == old_b[j],
    ensures
        buckets_distinct(new_b),
        buckets_entries(new_b, kind) == buckets_entries(old_b, kind).push(observation),
        forall|k: ContentKind|
            k != kind ==> #[trigger] buckets_entries(new_b, k) == buckets_entries(old_b, k),
        forall|k: ContentKind|
            #[trigger] buckets_have(new_b, k) <==> buckets_have(old_b, k),
{
    assert(forall|j: int| 0 <= j < new_b.len() ==> (#[trigger] new_b[j]).0 == old_b[j].0);
    assert(buckets_distinct(new_b));
    assert forall|k: ContentKind| #[trigger] buckets_have(new_b, k) <==> buckets_have(
        old_b,
        k,
    ) by {
        if buckets_have(old_b, k) {
            let j = bucket_position(old_b, k);
            assert(new_b[j].0 == k);
        }
        if buckets_have(new_b, k) {
            let j = bucket_position(new_b, k);
            assert(old_b[j].0 == k);
        }
    }
    lemma_bucket_position_unique(old_b, kind, i);
    lemma_bucket_position_unique(new_b, kind, i);
    assert forall|k: ContentKind|
        k != kind implies #[trigger] buckets_entries(new_b, k) == buckets_entries(old_b, k) by {
        if buckets_have(old_b, k) {
            let j = bucket_position(old_b, k);
            assert(j != i);
            assert(new_b[j] == old_b[j]);
            lemma_bucket_position_unique(new_b, k, j);
        }
    }
}

/// After appending a fresh bucket for `kind` holding exactly `observation`,
/// the index maps `kind` to that single observation and every other kind to
/// what it mapped to before.
proof fn lemma_bucket_appended(
    old_b: Seq<Bucket>,
    new_b: Seq<Bucket>,
    kind: ContentKind,
    observation: Observation,
)
    requires
        buckets_distinct(old_b),
        forall|j: int| 0 <= j < old_b.len() ==> (#[trigger] old_b[j]).0 != kind,
        new_b.len() == old_b.len() + 1,
        forall|j: int| 0 <= j < old_b.len() ==> #[trigger] new_b[j] == old_b[j],
        new_b[old_b.len() as int].0 == kind,
        new_b[old_b.len() as int].1@ == Seq::<Observation>::empty().push(observation),
    ensures
        buckets_distinct(new_b),
        buckets_entries(new_b, kind) == buckets_entries(old_b, kind).push(observation),
        forall|k: ContentKind|
            k != kind ==> #[trigger] buckets_entries(new_b, k) == buckets_entries(old_b, k),
        forall|k: ContentKind|
            #[trigger] buckets_have(new_b, k) <==> (buckets_have(old_b, k) || k == kind),
{
    let n = old_b.len() as int;
    assert(buckets_distinct(new_b)) by {
        assert forall|p: int, q: int| 0 <= p < q < new_b.len() implies (#[trigger] new_b[p]).0 != (
        #[trigger] new_b[q]).0 by {
            if q < n {
                assert(new_b[p] == old_b[p] && new_b[q] == old_b[q]);
            } else {
                assert(new_b[p] == old_b[p] && old_b[p].0 != kind);
            }
        }
    }
    assert(!buckets_have(old_b, kind));
    lemma_bucket_position_unique(new_b, kind, n);
    assert(buckets_entries(new_b, kind) == buckets_entries(old_b, kind).push(observation));
    assert forall|k: ContentKind| #[trigger] buckets_have(new_b, k) <==> (buckets_have(old_b, k)
        || k == kind) by {
        if buckets_have(old_b, k) {
            let j = bucket_position(old_b, k);
            assert(new_b[j].0 == k);
        }
        if buckets_have(new_b, k) && k != kind {
            let j = bucket_position(new_b, k);
            assert(j != n);
            assert(old_b[j].0 == k);
        }
    }
    assert forall|k: ContentKind|
        k != kind implies #[trigger] buckets_entries(new_b, k) == buckets_entries(old_b, k) by {
        if buckets_have(old_b, k) {
            let j = bucket_position(old_b, k);
            assert(new_b[j] == old_b[j]);
            lemma_bucket_position_unique(new_b, k, j);
        }
    }
}

} // verus!
