//! Lane-packed iteration with masked convergence.
//!
//! Eight iterates move together. A stepper proposes the next iterate of each
//! lane; the proposal is clamped into the lane's bracket, and a lane that has
//! converged keeps its iterate. The loop ends when every lane has converged or
//! at a cap on the number of steps.
use crate::double::{clamped, law_clamp_lands_in_bracket, Double};
use crate::lanes::LANES;
use vstd::prelude::*;

verus! {

/// One lane's iterate, and whether it has converged.
#[derive(Clone, Copy, Debug, PartialEq, Eq, Structural)]
pub struct LaneState {
    pub sigma: Double,
    pub converged: bool,
}

/// The interval that a lane is kept in.
#[derive(Clone, Copy, Debug, PartialEq, Eq, Structural)]
pub struct Bracket {
    pub lo: Double,
    pub hi: Double,
}

/// What a stepper finds at an iterate: the proposed next one, the magnitude of
/// the residual, and the residual that counts as none.
#[derive(Clone, Copy, Debug, PartialEq, Eq, Structural)]
pub struct Probe {
    pub proposal: Double,
    pub residual: Double,
    pub allowed: Double,
}

/// When the length of a step alone makes a lane converge.
#[derive(Clone, Copy, Debug, PartialEq, Eq, Structural)]
pub enum StepTest {
    /// Never.
    Ignore,
    /// When the step is shorter than the tolerance.
    Below(Double),
    /// When the step is no longer than the tolerance.
    AtMost(Double),
}

/// How one lane is solved: its bracket and its step test.
#[derive(Clone, Copy, Debug, PartialEq, Eq, Structural)]
pub struct Course {
    pub bracket: Bracket,
    pub test: StepTest,
}

impl Bracket {
    /// The bracket holds a number.
    pub open spec fn proper(self) -> bool {
        self.lo.at_most(self.hi)
    }

    /// The number lies in the bracket.
    pub open spec fn holds(self, x: Double) -> bool {
        self.lo.at_most(x) && x.at_most(self.hi)
    }
}

impl StepTest {
    /// A step of length `gap` makes the lane converge.
    pub open spec fn met(self, gap: Double) -> bool {
        match self {
            StepTest::Ignore => false,
            StepTest::Below(tol) => gap.below(tol),
            StepTest::AtMost(tol) => gap.at_most(tol),
        }
    }

    /// Whether a step of length `gap` makes the lane converge.
    pub fn meets(&self, gap: Double) -> (r: bool)
        ensures
            r == self.met(gap),
    {
        match self {
            StepTest::Ignore => false,
            StepTest::Below(tol) => gap.lt(*tol),
            StepTest::AtMost(tol) => gap.le(*tol),
        }
    }
}

/// The evaluation that an iteration drives.
pub trait Stepper {
    /// What a lane is evaluated for.
    type Lane;

    /// The evaluation answers alike whenever it is asked alike.
    spec fn dependable(&self) -> bool;

    /// What is found in the lane at the iterate `sigma`.
    spec fn found(&self, lane: Self::Lane, sigma: Double) -> Probe;

    /// The length of the step from `sigma` to `next`.
    spec fn length(&self, next: Double, sigma: Double) -> Double;

    /// Evaluates the lane at the iterate `sigma`.
    fn probe(&self, lane: &Self::Lane, sigma: Double) -> (r: Probe)
        ensures
            self.dependable() ==> r == self.found(*lane, sigma),
    ;

    /// Measures the step from `sigma` to `next`.
    fn distance(&self, next: Double, sigma: Double) -> (r: Double)
        ensures
            self.dependable() ==> r == self.length(next, sigma),
    ;
}

/// One step of a lane that found `probe`: a converged lane keeps its iterate;
/// another moves to the clamped proposal, and has converged once its residual
/// is within what is allowed or its step, of length `gap`, passes the test.
pub open spec fn stepped(before: LaneState, probe: Probe, gap: Double, course: Course) -> LaneState {
    if before.converged {
        before
    } else {
        LaneState {
            sigma: clamped(probe.proposal, course.bracket.lo, course.bracket.hi),
            converged: course.test.met(gap) || probe.residual.at_most(probe.allowed),
        }
    }
}

/// A lane on its own, `steps` steps on from `begin`.
pub open spec fn lane_after<S: Stepper>(
    stepper: S,
    lane: S::Lane,
    course: Course,
    begin: LaneState,
    steps: nat,
) -> LaneState
    decreases steps,
{
    if steps == 0 {
        begin
    } else {
        let before = lane_after(stepper, lane, course, begin, (steps - 1) as nat);
        let probe = stepper.found(lane, before.sigma);
        let next = clamped(probe.proposal, course.bracket.lo, course.bracket.hi);
        stepped(before, probe, stepper.length(next, before.sigma), course)
    }
}

/// One step of a lane.
pub fn step_lane<S: Stepper>(
    stepper: &S,
    lane: &S::Lane,
    course: &Course,
    before: LaneState,
) -> (after: LaneState)
    ensures
        before.converged ==> after == before,
        course.bracket.proper() && course.bracket.holds(before.sigma) ==> course.bracket.holds(
            after.sigma,
        ),
        stepper.dependable() ==> after == lane_after(*stepper, *lane, *course, before, 1),
{
    proof {
        reveal_with_fuel(lane_after, 2);
    }
    if before.converged {
        return before;
    }
    let probe = stepper.probe(lane, before.sigma);
    let next = probe.proposal.clamp(course.bracket.lo, course.bracket.hi);
    proof {
        if course.bracket.proper() {
            law_clamp_lands_in_bracket(probe.proposal, course.bracket.lo, course.bracket.hi);
        }
    }
    let close = match course.test {
        StepTest::Ignore => false,
        _ => course.test.meets(stepper.distance(next, before.sigma)),
    };
    LaneState { sigma: next, converged: close || probe.residual.le(probe.allowed) }
}

/// Whether every lane has converged.
pub fn all_converged(states: &[LaneState; LANES]) -> (r: bool)
    ensures
        r == forall|j: int| 0 <= j < LANES ==> (#[trigger] states[j]).converged,
{
    let mut j: usize = 0;
    while j < LANES
        invariant
            j <= LANES,
            forall|i: int| 0 <= i < j ==> (#[trigger] states@[i]).converged,
        decreases LANES - j,
    {
        if !states[j].converged {
            assert(!states@[j as int].converged);
            return false;
        }
        j += 1;
    }
    true
}

/// One step of every lane.
pub fn step_all<S: Stepper>(
    stepper: &S,
    lanes: &[S::Lane; LANES],
    courses: &[Course; LANES],
    before: &[LaneState; LANES],
) -> (after: [LaneState; LANES])
    ensures
        forall|j: int| 0 <= j < LANES && before[j].converged ==> #[trigger] after[j] == before[j],
        forall|j: int|
            0 <= j < LANES && courses[j].bracket.proper() && courses[j].bracket.holds(
                before[j].sigma,
            ) ==> courses[j].bracket.holds((#[trigger] after[j]).sigma),
        stepper.dependable() ==> forall|j: int|
            0 <= j < LANES ==> #[trigger] after[j] == lane_after(
                *stepper,
                lanes[j],
                courses[j],
                before[j],
                1,
            ),
{
    let mut after: [LaneState; LANES] = *before;
    let mut j: usize = 0;
    while j < LANES
        invariant
            j <= LANES,
            forall|i: int| 0 <= i < j && before@[i].converged ==> after@[i] == before@[i],
            forall|i: int|
                0 <= i < j && courses@[i].bracket.proper() && courses@[i].bracket.holds(
                    before@[i].sigma,
                ) ==> courses@[i].bracket.holds(after@[i].sigma),
            stepper.dependable() ==> forall|i: int|
                0 <= i < j ==> after@[i] == lane_after(
                    *stepper,
                    lanes@[i],
                    courses@[i],
                    before@[i],
                    1,
                ),
        decreases LANES - j,
    {
        after[j] = step_lane(stepper, &lanes[j], &courses[j], before[j]);
        j += 1;
    }
    after
}

/// Runs the iteration: at most `cap` steps, stopping as soon as every lane has
/// converged.
///
/// Each lane ends where it would end on its own after the full number of steps.
/// Whatever the stepper answers, a lane that begins converged ends as it began,
/// and a lane that begins in a proper bracket ends in it.
pub fn iterate<S: Stepper>(
    stepper: &S,
    lanes: &[S::Lane; LANES],
    courses: &[Course; LANES],
    begin: &[LaneState; LANES],
    cap: usize,
) -> (end: [LaneState; LANES])
    ensures
        forall|j: int| 0 <= j < LANES && begin[j].converged ==> #[trigger] end[j] == begin[j],
        forall|j: int|
            0 <= j < LANES && courses[j].bracket.proper() && courses[j].bracket.holds(
                begin[j].sigma,
            ) ==> courses[j].bracket.holds((#[trigger] end[j]).sigma),
        stepper.dependable() ==> forall|j: int|
            0 <= j < LANES ==> #[trigger] end[j] == lane_after(
                *stepper,
                lanes[j],
                courses[j],
                begin[j],
                cap as nat,
            ),
{
    let mut now: [LaneState; LANES] = *begin;
    let mut count: usize = 0;
    while count < cap
        invariant
            count <= cap,
            forall|j: int| 0 <= j < LANES && begin[j].converged ==> #[trigger] now[j] == begin[j],
            forall|j: int|
                0 <= j < LANES && courses[j].bracket.proper() && courses[j].bracket.holds(
                    begin[j].sigma,
                ) ==> courses[j].bracket.holds((#[trigger] now[j]).sigma),
            stepper.dependable() ==> forall|j: int|
                0 <= j < LANES ==> #[trigger] now[j] == lane_after(
                    *stepper,
                    lanes[j],
                    courses[j],
                    begin[j],
                    count as nat,
                ),
        decreases cap - count,
    {
        let after = step_all(stepper, lanes, courses, &now);
        proof {
            assert forall|j: int|
                0 <= j < LANES && courses[j].bracket.proper() && courses[j].bracket.holds(
                    begin[j].sigma,
                ) implies courses[j].bracket.holds((#[trigger] after[j]).sigma) by {
                assert(courses[j].bracket.holds(now[j].sigma));
            }
            assert forall|j: int| 0 <= j < LANES && begin[j].converged implies #[trigger] after[j]
                == begin[j] by {
                assert(now[j] == begin[j]);
            }
            if stepper.dependable() {
                assert forall|j: int| 0 <= j < LANES implies #[trigger] after[j] == lane_after(
                    *stepper,
                    lanes[j],
                    courses[j],
                    begin[j],
                    (count + 1) as nat,
                ) by {
                    reveal_with_fuel(lane_after, 2);
                    assert(now[j] == lane_after(*stepper, lanes[j], courses[j], begin[j], count as nat));
                }
            }
        }
        now = after;
        count += 1;
        if all_converged(&now) {
            proof {
                if stepper.dependable() {
                    assert forall|j: int| 0 <= j < LANES implies #[trigger] now[j] == lane_after(
                        *stepper,
                        lanes[j],
                        courses[j],
                        begin[j],
                        cap as nat,
                    ) by {
                        assert(now[j].converged);
                        law_converged_lane_is_frozen(
                            *stepper,
                            lanes[j],
                            courses[j],
                            begin[j],
                            count as nat,
                            cap as nat,
                        );
                    }
                }
            }
            return now;
        }
    }
    now
}

/// A lane that has converged is frozen: later steps keep it as it is.
pub proof fn law_converged_lane_is_frozen<S: Stepper>(
    stepper: S,
    lane: S::Lane,
    course: Course,
    begin: LaneState,
    steps: nat,
    later: nat,
)
    requires
        steps <= later,
        lane_after(stepper, lane, course, begin, steps).converged,
    ensures
        lane_after(stepper, lane, course, begin, later) == lane_after(
            stepper,
            lane,
            course,
            begin,
            steps,
        ),
    decreases later,
{
    if steps < later {
        law_converged_lane_is_frozen(stepper, lane, course, begin, steps, (later - 1) as nat);
    }
}

/// No iterate leaves its bracket, whatever is proposed, once the lane begins
/// in it.
pub proof fn law_iterates_stay_in_bracket<S: Stepper>(
    stepper: S,
    lane: S::Lane,
    course: Course,
    begin: LaneState,
    steps: nat,
)
    requires
        course.bracket.proper(),
        course.bracket.holds(begin.sigma),
    ensures
        course.bracket.holds(lane_after(stepper, lane, course, begin, steps).sigma),
    decreases steps,
{
    if steps > 0 {
        law_iterates_stay_in_bracket(stepper, lane, course, begin, (steps - 1) as nat);
        let before = lane_after(stepper, lane, course, begin, (steps - 1) as nat);
        let probe = stepper.found(lane, before.sigma);
        law_clamp_lands_in_bracket(probe.proposal, course.bracket.lo, course.bracket.hi);
    }
}

/// A step in full. A lane that has converged stays; another moves to what is
/// proposed, or to the end of its bracket that the proposal is beyond, and to
/// the lower end where nothing is proposed. It has then converged exactly when
/// the residual where it stood was within what is allowed, or the step was short
/// enough for its test.
pub proof fn law_step_follows_the_proposal<S: Stepper>(
    stepper: S,
    lane: S::Lane,
    course: Course,
    begin: LaneState,
    steps: nat,
)
    requires
        course.bracket.lo.at_most(course.bracket.hi),
    ensures
        ({
            let before = lane_after(stepper, lane, course, begin, steps);
            let after = lane_after(stepper, lane, course, begin, steps + 1);
            let probe = stepper.found(lane, before.sigma);
            let lo = course.bracket.lo;
            let hi = course.bracket.hi;
            let length = stepper.length(after.sigma, before.sigma);
            let short = match course.test {
                StepTest::Ignore => false,
                StepTest::Below(tol) => length.below(tol),
                StepTest::AtMost(tol) => length.below(tol) || length.at_most(tol),
            };
            &&& before.converged ==> after == before
            &&& !before.converged ==> {
                &&& lo.at_most(probe.proposal) && probe.proposal.at_most(hi) ==> after.sigma
                    == probe.proposal
                &&& probe.proposal.below(lo) || probe.proposal.nan() ==> after.sigma == lo
                &&& hi.below(probe.proposal) ==> after.sigma == hi
                &&& after.converged <==> short || probe.residual.at_most(probe.allowed)
            }
        }),
        lane_after(stepper, lane, course, begin, 0) == begin,
{
}

} // verus!
