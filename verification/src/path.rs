//! A random walk over neighboring cells that never turns straight back and
//! never crosses a boundary that a path has already claimed.

use crate::bridge::pick_one;
use crate::coord::{Coordinate, Direction};
use crate::edge::{
    lemma_edge_key_midpoint, lemma_edge_key_unordered, lemma_midpoint_identifies_key,
    ClaimedEdgeSet, EdgeKey,
};
use crate::layout::{cell_center, center_of, edge_midpoint, LatticePoint};
use vstd::pervasive::unreached;
use vstd::prelude::*;

verus! {

/// Where a walk stands.
#[derive(Clone, Copy, Debug, PartialEq, Eq, Structural)]
pub enum Phase {
    /// Made, not begun.
    Start,
    /// Ready to try the first candidate of a step.
    Walking,
    /// The last candidate of this step was turned down; another may be tried.
    BlockedRetry,
    /// Over: the step budget is used up, or the walk was stuck.
    Done,
}

/// Why a candidate was turned down.
#[derive(Clone, Copy, Debug, PartialEq, Eq, Structural)]
pub enum Rejection {
    /// The step would go straight back over the edge just crossed.
    Reversal,
    /// The boundary to the candidate is already claimed.
    Claimed,
}

/// One accepted step, as the three points of the curve that draws it.
#[derive(Clone, Copy, Debug, PartialEq, Eq, Structural)]
pub struct PathSegment {
    /// The midpoint of the edge crossed by the step before, if there was one.
    pub previous_edge_point: Option<LatticePoint>,
    /// The center of the cell that the step enters.
    pub cell_center: LatticePoint,
    /// The midpoint of the edge that the step crosses.
    pub current_edge_point: LatticePoint,
}

/// What became of a candidate.
#[derive(Clone, Copy, Debug, PartialEq, Eq, Structural)]
pub enum StepOutcome {
    Accepted(PathSegment),
    Rejected(Rejection),
}

/// The state of one walk. It remembers the cell it stands on and the edge it
/// crossed last, and nothing of the segments it has handed out.
#[derive(Clone, Copy, Debug, PartialEq, Eq, Structural)]
pub struct PathBuilder {
    pub phase: Phase,
    /// The cell the walk stands on.
    pub last_tile: Coordinate,
    /// The midpoint of the edge crossed last.
    pub last_edge: Option<LatticePoint>,
    /// Steps that may still be taken.
    pub steps_left: u32,
    /// Candidates that may still be tried for the current step.
    pub retries_left: u32,
    /// Candidates that may be tried for each step.
    pub retry_limit: u32,
    /// Whether the walk ended before its step budget was used up.
    pub stuck: bool,
}

impl PathBuilder {
    /// The counters agree with the phase.
    pub open spec fn wf(self) -> bool {
        &&& self.retries_left <= self.retry_limit
        &&& (self.phase == Phase::Start ==> self.last_edge.is_none() && self.retries_left
            == self.retry_limit && !self.stuck)
        &&& (self.phase == Phase::Walking ==> self.steps_left > 0 && self.retries_left
            == self.retry_limit && self.retry_limit > 0 && !self.stuck)
        &&& (self.phase == Phase::BlockedRetry ==> self.steps_left > 0 && 0 < self.retries_left
            < self.retry_limit && !self.stuck)
        &&& (self.phase == Phase::Done ==> (self.stuck <==> self.steps_left > 0))
    }

    /// Whether a candidate may be offered.
    pub open spec fn is_active(self) -> bool {
        self.phase == Phase::Walking || self.phase == Phase::BlockedRetry
    }

    /// The boundary between the cell the walk stands on and `candidate`.
    pub open spec fn edge_to(self, candidate: Coordinate) -> EdgeKey {
        EdgeKey::spec_new(self.last_tile, candidate)
    }

    /// Whether a step to `candidate` would cross the edge crossed last.
    pub open spec fn reverses(self, candidate: Coordinate) -> bool {
        self.last_edge matches Some(p) && p@ == self.edge_to(candidate).spec_midpoint()
    }

    /// The state after a candidate was turned down: one retry less, and the
    /// walk is over and stuck when none is left.
    pub open spec fn after_rejection(self) -> PathBuilder {
        PathBuilder {
            phase: if self.retries_left == 1 {
                Phase::Done
            } else {
                Phase::BlockedRetry
            },
            retries_left: (self.retries_left - 1) as u32,
            stuck: self.retries_left == 1,
            ..self
        }
    }

    /// The state after a step to `candidate` over the edge with midpoint
    /// `point`: one step less, all retries back, and the walk is over when
    /// no step is left.
    pub open spec fn after_step(self, candidate: Coordinate, point: LatticePoint) -> PathBuilder {
        PathBuilder {
            phase: if self.steps_left == 1 {
                Phase::Done
            } else {
                Phase::Walking
            },
            last_tile: candidate,
            last_edge: Some(point),
            steps_left: (self.steps_left - 1) as u32,
            retries_left: self.retry_limit,
            retry_limit: self.retry_limit,
            stuck: false,
        }
    }

    /// A walk that will start on `start`, take at most `step_budget` steps
    /// and try at most `retry_limit` candidates for each.
    pub fn new(start: Coordinate, step_budget: u32, retry_limit: u32) -> (walk: PathBuilder)
        ensures
            walk.wf(),
            walk == (PathBuilder {
                phase: Phase::Start,
                last_tile: start,
                last_edge: None,
                steps_left: step_budget,
                retries_left: retry_limit,
                retry_limit,
                stuck: false,
            }),
    {
        PathBuilder {
            phase: Phase::Start,
            last_tile: start,
            last_edge: None,
            steps_left: step_budget,
            retries_left: retry_limit,
            retry_limit,
            stuck: false,
        }
    }

    /// Leaves `Start`: the walk is ready for its first candidate, or over at
    /// once when it may take no step (not stuck) or try no candidate (stuck).
    pub fn begin(&mut self)
        requires
            old(self).wf(),
            old(self).phase == Phase::Start,
        ensures
            final(self).wf(),
            *final(self) == (PathBuilder {
                phase: if old(self).steps_left == 0 || old(self).retry_limit == 0 {
                    Phase::Done
                } else {
                    Phase::Walking
                },
                stuck: old(self).steps_left > 0 && old(self).retry_limit == 0,
                ..*old(self)
            }),
    {
        if self.steps_left == 0 {
            self.phase = Phase::Done;
        } else if self.retry_limit == 0 {
            self.phase = Phase::Done;
            self.stuck = true;
        } else {
            self.phase = Phase::Walking;
        }
    }

    /// Ends a walk that cannot go on. It is stuck unless it was over already.
    pub fn give_up(&mut self)
        requires
            old(self).wf(),
        ensures
            final(self).wf(),
            *final(self) == (PathBuilder {
                phase: Phase::Done,
                stuck: old(self).steps_left > 0,
                ..*old(self)
            }),
    {
        self.phase = Phase::Done;
        self.stuck = self.steps_left > 0;
    }

    /// Offers `candidate`, a neighbor of the cell the walk stands on, as the
    /// next cell.
    ///
    /// The candidate is turned down when the step would cross the edge
    /// crossed last, or when the boundary to it is claimed. Otherwise the
    /// boundary is claimed, the walk moves on to the candidate, and the
    /// segment of the step is handed out.
    pub fn offer(&mut self, claimed: &mut ClaimedEdgeSet, candidate: Coordinate) -> (outcome:
        StepOutcome)
        requires
            old(self).wf(),
            old(self).is_active(),
            old(claimed).wf(),
            old(self).last_tile@.is_neighbor(candidate@),
        ensures
            final(self).wf(),
            final(claimed).wf(),
            old(self).reverses(candidate) ==> {
                &&& outcome == StepOutcome::Rejected(Rejection::Reversal)
                &&& *final(self) == old(self).after_rejection()
                &&& final(claimed)@ == old(claimed)@
            },
            !old(self).reverses(candidate) && old(claimed)@.contains(old(self).edge_to(candidate))
                ==> {
                &&& outcome == StepOutcome::Rejected(Rejection::Claimed)
                &&& *final(self) == old(self).after_rejection()
                &&& final(claimed)@ == old(claimed)@
            },
            !old(self).reverses(candidate) && !old(claimed)@.contains(old(self).edge_to(candidate))
                ==> {
                &&& outcome matches StepOutcome::Accepted(segment)
                &&& segment.previous_edge_point == old(self).last_edge
                &&& segment.cell_center@ == center_of(candidate@)
                &&& segment.current_edge_point@ == old(self).edge_to(candidate).spec_midpoint()
                &&& *final(self) == old(self).after_step(candidate, segment.current_edge_point)
                &&& final(claimed)@ == old(claimed)@.insert(old(self).edge_to(candidate))
                &&& final(claimed)@.len() == old(claimed)@.len() + 1
            },
    {
        let edge = EdgeKey::new(self.last_tile, candidate);
        let back = candidate.direction_to(self.last_tile);
        let ghost facing: Direction = choose|d: Direction|
            candidate@ == #[trigger] self.last_tile@.step(d);
        proof {
            assert(candidate@ == self.last_tile@.step(facing));
            assert(self.last_tile@ == candidate@.step(facing.spec_opposite()));
            lemma_edge_key_midpoint(self.last_tile, candidate, facing);
        }
        let point = match back {
            Some(d) => edge_midpoint(candidate, d),
            None => unreached(),
        };
        assert(point@ == edge.spec_midpoint());
        let reversal = match self.last_edge {
            Some(p) => p == point,
            None => false,
        };
        if reversal || claimed.contains(edge) {
            self.retries_left = self.retries_left - 1;
            if self.retries_left == 0 {
                self.phase = Phase::Done;
                self.stuck = true;
            } else {
                self.phase = Phase::BlockedRetry;
            }
            StepOutcome::Rejected(
                if reversal {
                    Rejection::Reversal
                } else {
                    Rejection::Claimed
                },
            )
        } else {
            claimed.insert(edge);
            let segment = PathSegment {
                previous_edge_point: self.last_edge,
                cell_center: cell_center(candidate),
                current_edge_point: point,
            };
            self.last_tile = candidate;
            self.last_edge = Some(point);
            self.steps_left = self.steps_left - 1;
            self.retries_left = self.retry_limit;
            self.phase = if self.steps_left == 0 {
                Phase::Done
            } else {
                Phase::Walking
            };
            StepOutcome::Accepted(segment)
        }
    }

    /// Where the end-of-path marker goes: the midpoint of the edge crossed
    /// last, if the walk took a step.
    pub fn end_marker(&self) -> (marker: Option<LatticePoint>)
        requires
            self.phase == Phase::Done,
        ensures
            marker == self.last_edge,
    {
        self.last_edge
    }
}

/// The boundary crossed by step `i` of a trail of cells.
pub open spec fn trail_key(cells: Seq<Coordinate>, i: int) -> EdgeKey {
    EdgeKey::spec_new(cells[i], cells[i + 1])
}

/// The boundaries crossed by a trail of cells.
pub open spec fn trail_keys(cells: Seq<Coordinate>) -> Set<EdgeKey> {
    Set::new(|k: EdgeKey| exists|i: int| 0 <= i < cells.len() - 1 && trail_key(cells, i) == k)
}

/// Step `i` of the trail goes from cell `i` to its neighbor cell `i + 1`, and
/// segment `i` holds the midpoint of the edge crossed before, the center of
/// the cell entered and the midpoint of the edge crossed.
pub open spec fn step_follows(cells: Seq<Coordinate>, segments: Seq<PathSegment>, i: int) -> bool {
    &&& cells[i]@.is_neighbor(cells[i + 1]@)
    &&& segments[i].cell_center@ == center_of(cells[i + 1]@)
    &&& segments[i].current_edge_point@ == trail_key(cells, i).spec_midpoint()
    &&& segments[i].previous_edge_point == (if i == 0 {
        None
    } else {
        Some(segments[i - 1].current_edge_point)
    })
}

/// The segments are those of the trail, one for each step.
pub open spec fn segments_follow(cells: Seq<Coordinate>, segments: Seq<PathSegment>) -> bool {
    &&& cells.len() == segments.len() + 1
    &&& forall|i: int| 0 <= i < segments.len() ==> #[trigger] step_follows(cells, segments, i)
}

/// No boundary of the trail was claimed before, and none is crossed twice.
pub open spec fn claims_fresh(cells: Seq<Coordinate>, before: Set<EdgeKey>) -> bool {
    &&& forall|i: int| 0 <= i < cells.len() - 1 ==> !before.contains(#[trigger] trail_key(cells, i))
    &&& forall|i: int, j: int|
        0 <= i < j < cells.len() - 1 ==> #[trigger] trail_key(cells, i) != #[trigger] trail_key(
            cells,
            j,
        )
}

/// Step `i` does not cross the edge that step `i - 1` crossed.
pub open spec fn turns(segments: Seq<PathSegment>, i: int) -> bool {
    segments[i].current_edge_point != segments[i - 1].current_edge_point
}

/// No step crosses the edge that the step before it crossed.
pub open spec fn never_reverses(segments: Seq<PathSegment>) -> bool {
    forall|i: int| 0 < i < segments.len() ==> #[trigger] turns(segments, i)
}

/// The point of the end-of-path marker: the edge crossed last, if any.
pub open spec fn marker_of(segments: Seq<PathSegment>) -> Option<LatticePoint> {
    if segments.len() == 0 {
        None
    } else {
        Some(segments[segments.len() - 1].current_edge_point)
    }
}

/// One more step keeps a trail in order: when the boundary to `candidate`
/// was neither claimed before nor crossed by the trail, and the step does not
/// cross the edge crossed last, the longer trail still follows its segments,
/// claims only fresh boundaries and never reverses.
pub proof fn lemma_trail_grows(
    cells: Seq<Coordinate>,
    segments: Seq<PathSegment>,
    before: Set<EdgeKey>,
    candidate: Coordinate,
    segment: PathSegment,
)
    requires
        segments_follow(cells, segments),
        claims_fresh(cells, before),
        never_reverses(segments),
        cells.last()@.is_neighbor(candidate@),
        !before.contains(EdgeKey::spec_new(cells.last(), candidate)),
        !trail_keys(cells).contains(EdgeKey::spec_new(cells.last(), candidate)),
        marker_of(segments) matches Some(p) ==> p != segment.current_edge_point,
        segment.previous_edge_point == marker_of(segments),
        segment.cell_center@ == center_of(candidate@),
        segment.current_edge_point@ == EdgeKey::spec_new(cells.last(), candidate).spec_midpoint(),
    ensures
        segments_follow(cells.push(candidate), segments.push(segment)),
        claims_fresh(cells.push(candidate), before),
        never_reverses(segments.push(segment)),
        trail_keys(cells.push(candidate)) == trail_keys(cells).insert(
            EdgeKey::spec_new(cells.last(), candidate),
        ),
        marker_of(segments.push(segment)) == Some(segment.current_edge_point),
{
    let n = segments.len() as int;
    let key = EdgeKey::spec_new(cells.last(), candidate);
    let longer = cells.push(candidate);
    let more = segments.push(segment);
    assert(trail_key(longer, n) == key);
    assert forall|i: int| 0 <= i < n implies trail_key(longer, i) == trail_key(cells, i) by {}
    assert forall|i: int| 0 <= i < n implies trail_key(cells, i) != key by {
        assert(trail_keys(cells).contains(trail_key(cells, i)));
    }
    assert forall|i: int| 0 <= i < more.len() implies #[trigger] step_follows(longer, more, i) by {
        if i < n {
            assert(step_follows(cells, segments, i));
            assert(trail_key(longer, i) == trail_key(cells, i));
        }
    }
    assert forall|i: int| 0 < i < more.len() implies #[trigger] turns(more, i) by {
        if i < n {
            assert(turns(segments, i));
        }
    }
    assert forall|i: int| 0 <= i < longer.len() - 1 implies !before.contains(
        #[trigger] trail_key(longer, i),
    ) by {
        if i < n {
            assert(trail_key(longer, i) == trail_key(cells, i));
        }
    }
    assert forall|i: int, j: int| 0 <= i < j < longer.len() - 1 implies #[trigger] trail_key(
        longer,
        i,
    ) != #[trigger] trail_key(longer, j) by {
        assert(trail_key(longer, i) == trail_key(cells, i));
        if j < n {
            assert(trail_key(longer, j) == trail_key(cells, j));
        }
    }
    assert(trail_keys(longer) =~= trail_keys(cells).insert(key)) by {
        assert forall|k: EdgeKey| trail_keys(longer).contains(k) <==> trail_keys(cells).insert(
            key,
        ).contains(k) by {
            if trail_keys(longer).contains(k) {
                let i = choose|i: int| 0 <= i < longer.len() - 1 && trail_key(longer, i) == k;
                if i < n {
                    assert(trail_key(cells, i) == k);
                }
            }
            if trail_keys(cells).contains(k) {
                let i = choose|i: int| 0 <= i < cells.len() - 1 && trail_key(cells, i) == k;
                assert(trail_key(longer, i) == k);
            }
            if k == key {
                assert(trail_key(longer, n) == k);
            }
        }
    }
}

/// What can stop a walk on `last` short of its budget: it may try no
/// candidate, `last` has a neighbor out of range, or a boundary of `last` is
/// claimed.
pub open spec fn hemmed_in(last: Coordinate, claimed: Set<EdgeKey>, retry_limit: u32) -> bool {
    ||| retry_limit == 0
    ||| !last.has_neighbors()
    ||| exists|c: Coordinate|
        last@.is_neighbor(c@) && #[trigger] claimed.contains(EdgeKey::spec_new(last, c))
}

/// A step that would cross the edge that the trail crossed last would cross
/// a boundary of the trail.
pub proof fn lemma_reversal_is_claimed(
    cells: Seq<Coordinate>,
    segments: Seq<PathSegment>,
    candidate: Coordinate,
)
    requires
        segments_follow(cells, segments),
        cells.last()@.is_neighbor(candidate@),
        marker_of(segments) matches Some(p) && p@ == EdgeKey::spec_new(
            cells.last(),
            candidate,
        ).spec_midpoint(),
    ensures
        trail_keys(cells).contains(EdgeKey::spec_new(cells.last(), candidate)),
{
    let n = segments.len() as int;
    let (from, last) = (cells[n - 1], cells[n]);
    let crossed = trail_key(cells, n - 1);
    let key = EdgeKey::spec_new(last, candidate);
    assert(step_follows(cells, segments, n - 1));
    let d1 = choose|d: Direction| last@ == #[trigger] from@.step(d);
    let d2 = choose|d: Direction| candidate@ == #[trigger] last@.step(d);
    lemma_edge_key_midpoint(from, last, d1);
    lemma_edge_key_midpoint(last, candidate, d2);
    lemma_edge_key_unordered(from, last, last, candidate);
    lemma_edge_key_unordered(last, candidate, from, last);
    lemma_midpoint_identifies_key(crossed, key);
}

/// A finished walk.
pub struct Path {
    /// The cells visited, the start first.
    pub cells: Vec<Coordinate>,
    /// One segment for each step taken.
    pub segments: Vec<PathSegment>,
    /// Where the end-of-path marker goes, if a step was taken.
    pub end_marker: Option<LatticePoint>,
    /// Whether the walk ended before its step budget was used up.
    pub stuck: bool,
}

impl PathBuilder {
    /// Walks from `start`: up to `step_budget` steps, each to a neighbor
    /// picked at random, trying at most `retry_limit` candidates for a step.
    /// Every boundary crossed is added to `claimed`.
    ///
    /// Which cells are visited is left to chance. Whatever the picks, the
    /// walk ends; its steps go from neighbor to neighbor; the boundaries it
    /// crosses were free before, differ from each other and are exactly what
    /// `claimed` gains; no step goes back over the edge crossed just before;
    /// the walk is reported as stuck exactly when it took fewer steps than
    /// its budget; and it is stuck only where it stands hemmed in, so that a
    /// walk with retries, on a cell whose boundaries are all free, moves.
    pub fn run(
        start: Coordinate,
        claimed: &mut ClaimedEdgeSet,
        step_budget: u32,
        retry_limit: u32,
    ) -> (path: Path)
        requires
            old(claimed).wf(),
        ensures
            final(claimed).wf(),
            path.cells@[0] == start,
            segments_follow(path.cells@, path.segments@),
            claims_fresh(path.cells@, old(claimed)@),
            never_reverses(path.segments@),
            final(claimed)@ == old(claimed)@.union(trail_keys(path.cells@)),
            final(claimed)@.len() == old(claimed)@.len() + path.segments@.len(),
            path.end_marker == marker_of(path.segments@),
            path.segments@.len() <= step_budget,
            path.stuck <==> path.segments@.len() < step_budget,
            path.stuck ==> hemmed_in(path.cells@.last(), final(claimed)@, retry_limit),
    {
        let ghost before = claimed@;
        let mut walk = PathBuilder::new(start, step_budget, retry_limit);
        walk.begin();
        let mut cells: Vec<Coordinate> = Vec::new();
        cells.push(start);
        let mut segments: Vec<PathSegment> = Vec::new();
        proof {
            claimed.lemma_finite();
            assert(claimed@ =~= before.union(trail_keys(cells@)));
        }
        while walk.phase != Phase::Done
            invariant
                walk.wf(),
                walk.phase != Phase::Start,
                walk.retry_limit == retry_limit,
                claimed.wf(),
                before.finite(),
                cells@.len() > 0,
                cells@[0] == start,
                cells@[cells@.len() - 1] == walk.last_tile,
                walk.steps_left + segments@.len() == step_budget,
                walk.last_edge == marker_of(segments@),
                segments_follow(cells@, segments@),
                claims_fresh(cells@, before),
                never_reverses(segments@),
                claimed@ == before.union(trail_keys(cells@)),
                claimed@.len() == before.len() + segments@.len(),
                walk.stuck ==> hemmed_in(walk.last_tile, claimed@, retry_limit),
            decreases
                    (if walk.phase == Phase::Done {
                        0int
                    } else {
                        1int
                    }),
                    walk.steps_left,
                    walk.retries_left,
        {
            if !walk.last_tile.can_step() {
                walk.give_up();
            } else {
                let around = walk.last_tile.neighbors();
                let candidate = pick_one(&around);
                let ghost at: int = choose|i: int| 0 <= i < 6 && around@[i] == candidate;
                assert(walk.last_tile@.is_neighbor(around@[at]@));
                let ghost earlier = walk;
                let ghost claimed_earlier = claimed@;
                let ghost cells_earlier = cells@;
                let ghost segments_earlier = segments@;
                match walk.offer(claimed, candidate) {
                    StepOutcome::Accepted(segment) => {
                        cells.push(candidate);
                        segments.push(segment);
                        proof {
                            lemma_trail_grows(
                                cells_earlier,
                                segments_earlier,
                                before,
                                candidate,
                                segment,
                            );
                            assert(claimed@ =~= before.union(trail_keys(cells@)));
                        }
                    },
                    StepOutcome::Rejected(_) => {
                        proof {
                            if earlier.reverses(candidate) {
                                lemma_reversal_is_claimed(cells@, segments@, candidate);
                            }
                            assert(claimed@.contains(EdgeKey::spec_new(walk.last_tile, candidate)));
                        }
                    },
                }
            }
        }
        Path { cells, segments, end_marker: walk.end_marker(), stuck: walk.stuck }
    }
}

} // verus!
