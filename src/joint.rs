use vstd::prelude::*;

use crate::angle::{congruent, nearest_angle, nearest_spec, wrappable, FULL_TURN, HALF_TURN};

verus! {

/// Bounds of one joint, in angle units.
///
/// A continuous joint has no hard bound: its `min` and `max` carry no meaning
/// and its angle matters only up to whole turns.
#[derive(Clone, Copy, Debug, PartialEq, Eq)]
pub struct JointLimit {
    pub min: i64,
    pub max: i64,
    pub continuous: bool,
}

impl JointLimit {
    /// A bounded joint has a non-empty range.
    pub open spec fn wf(&self) -> bool {
        self.continuous || self.min <= self.max
    }

    /// A bounded joint with angles in `[min, max]`.
    pub fn bounded(min: i64, max: i64) -> (r: JointLimit)
        requires
            min <= max,
        ensures
            r == (JointLimit { min, max, continuous: false }),
            r.wf(),
    {
        JointLimit { min, max, continuous: false }
    }

    /// A continuous joint.
    pub fn continuous() -> (r: JointLimit)
        ensures
            r == (JointLimit { min: 0, max: 0, continuous: true }),
            r.wf(),
    {
        JointLimit { min: 0, max: 0, continuous: true }
    }
}

/// Every joint of the chain has well-formed limits.
pub open spec fn limits_wf(limits: Seq<JointLimit>) -> bool {
    forall|i: int| 0 <= i < limits.len() ==> #[trigger] limits[i].wf()
}

/// The angle that a uniform random word `draw` selects for a joint: a value of
/// `[min, max]` for a bounded joint, of `[-HALF_TURN, HALF_TURN)` for a
/// continuous one.
pub open spec fn draw_angle(limit: JointLimit, draw: u64) -> int {
    if limit.continuous {
        -HALF_TURN + (draw as int) % (FULL_TURN as int)
    } else {
        limit.min + (draw as int) % (limit.max - limit.min + 1)
    }
}

/// The angle of `limit`'s joint selected by `draw`.
pub fn random_joint_position(limit: JointLimit, draw: u64) -> (r: i64)
    requires
        limit.wf(),
    ensures
        r == draw_angle(limit, draw),
        !limit.continuous ==> limit.min <= r <= limit.max,
        limit.continuous ==> -HALF_TURN <= r < HALF_TURN,
{
    if limit.continuous {
        let off: u64 = draw % (FULL_TURN as u64);
        -HALF_TURN + off as i64
    } else {
        let width: u128 = (limit.max as i128 - limit.min as i128 + 1) as u128;
        let off: u128 = (draw as u128) % width;
        (limit.min as i128 + off as i128) as i64
    }
}

/// Draws one configuration: joint `i` takes the angle that `draws[i]` selects
/// within its limits.
pub fn generate_random_joint_positions_from_limits(
    limits: &Vec<JointLimit>,
    draws: &Vec<u64>,
) -> (r: Vec<i64>)
    requires
        limits_wf(limits@),
        draws@.len() == limits@.len(),
    ensures
        r@.len() == limits@.len(),
        forall|i: int| 0 <= i < r@.len() ==> #[trigger] r@[i] == draw_angle(limits@[i], draws@[i]),
        forall|i: int|
            0 <= i < r@.len() && !limits@[i].continuous ==> limits@[i].min <= #[trigger] r@[i]
                <= limits@[i].max,
        forall|i: int|
            0 <= i < r@.len() && limits@[i].continuous ==> -HALF_TURN <= #[trigger] r@[i]
                < HALF_TURN,
{
    let mut r: Vec<i64> = Vec::new();
    let mut i: usize = 0;
    while i < limits.len()
        invariant
            limits_wf(limits@),
            draws@.len() == limits@.len(),
            i <= limits@.len(),
            r@.len() == i,
            forall|j: int| 0 <= j < i ==> #[trigger] r@[j] == draw_angle(limits@[j], draws@[j]),
            forall|j: int|
                0 <= j < i && !limits@[j].continuous ==> limits@[j].min <= #[trigger] r@[j]
                    <= limits@[j].max,
            forall|j: int|
                0 <= j < i && limits@[j].continuous ==> -HALF_TURN <= #[trigger] r@[j]
                    < HALF_TURN,
        decreases limits@.len() - i,
    {
        assert(limits@[i as int].wf());
        let a = random_joint_position(limits[i], draws[i]);
        r.push(a);
        i = i + 1;
    }
    r
}

/// The references of all continuous joints can be wrapped around.
pub open spec fn wrappable_at_continuous(reference: Seq<i64>, limits: Seq<JointLimit>) -> bool {
    forall|i: int|
        0 <= i < limits.len() && #[trigger] limits[i].continuous ==> wrappable(reference[i] as int)
}

/// The repair of `candidate` toward `reference`: each continuous joint takes
/// the congruent angle nearest to the reference, the others stay.
pub open spec fn repaired(reference: Seq<i64>, candidate: Seq<i64>, limits: Seq<JointLimit>) -> Seq<int> {
    Seq::new(
        candidate.len(),
        |i: int|
            if limits[i].continuous {
                nearest_spec(reference[i] as int, candidate[i] as int)
            } else {
                candidate[i] as int
            },
    )
}

/// Replaces each continuous joint of `candidate` by the congruent angle nearest
/// to the same joint of `reference`; bounded joints are left as they are.
pub fn modify_to_nearest_angle(
    reference: &Vec<i64>,
    candidate: &mut Vec<i64>,
    limits: &Vec<JointLimit>,
)
    requires
        reference@.len() == limits@.len(),
        old(candidate)@.len() == limits@.len(),
        wrappable_at_continuous(reference@, limits@),
    ensures
        final(candidate)@.len() == old(candidate)@.len(),
        forall|i: int|
            0 <= i < limits@.len() ==> final(candidate)@[i] as int == #[trigger] repaired(
                reference@,
                old(candidate)@,
                limits@,
            )[i],
{
    let ghost orig = candidate@;
    let mut i: usize = 0;
    while i < limits.len()
        invariant
            reference@.len() == limits@.len(),
            orig.len() == limits@.len(),
            candidate@.len() == limits@.len(),
            wrappable_at_continuous(reference@, limits@),
            i <= limits@.len(),
            forall|j: int|
                0 <= j < i ==> candidate@[j] as int == #[trigger] repaired(reference@, orig, limits@)[j],
            forall|j: int| i <= j < limits@.len() ==> candidate@[j] == #[trigger] orig[j],
        decreases limits@.len() - i,
    {
        if limits[i].continuous {
            let a = nearest_angle(reference[i], candidate[i]);
            candidate.set(i, a);
        }
        assert(candidate@[i as int] as int == repaired(reference@, orig, limits@)[i as int]);
        i = i + 1;
    }
}

/// The configuration that a restart sets: a draw within the limits, with each
/// continuous joint moved to the turn nearest to `initial`.
pub open spec fn restart_spec(initial: Seq<i64>, limits: Seq<JointLimit>, draws: Seq<u64>) -> Seq<int> {
    Seq::new(
        limits.len(),
        |i: int|
            if limits[i].continuous {
                nearest_spec(initial[i] as int, draw_angle(limits[i], draws[i]))
            } else {
                draw_angle(limits[i], draws[i])
            },
    )
}

/// Draws a fresh configuration and repairs it toward `initial`.
pub fn restart_configuration(initial: &Vec<i64>, limits: &Vec<JointLimit>, draws: &Vec<u64>) -> (r: Vec<i64>)
    requires
        limits_wf(limits@),
        initial@.len() == limits@.len(),
        draws@.len() == limits@.len(),
        wrappable_at_continuous(initial@, limits@),
    ensures
        r@.len() == limits@.len(),
        forall|i: int|
            0 <= i < r@.len() ==> r@[i] as int == #[trigger] restart_spec(initial@, limits@, draws@)[i],
        forall|i: int|
            0 <= i < r@.len() && !limits@[i].continuous ==> limits@[i].min <= #[trigger] r@[i]
                <= limits@[i].max,
        forall|i: int|
            0 <= i < r@.len() && limits@[i].continuous ==> initial@[i] - HALF_TURN <= #[trigger] r@[i]
                < initial@[i] + HALF_TURN,
{
    let mut r = generate_random_joint_positions_from_limits(limits, draws);
    let ghost drawn = r@;
    modify_to_nearest_angle(initial, &mut r, limits);
    assert forall|i: int| 0 <= i < r@.len() implies r@[i] as int == #[trigger] restart_spec(initial@, limits@, draws@)[i] by {
        assert(r@[i] as int == repaired(initial@, drawn, limits@)[i]);
    }
    assert forall|i: int| 0 <= i < r@.len() && !limits@[i].continuous implies limits@[i].min <= #[trigger] r@[i] <= limits@[i].max by {
        assert(r@[i] as int == repaired(initial@, drawn, limits@)[i]);
    }
    assert forall|i: int| 0 <= i < r@.len() && limits@[i].continuous implies initial@[i] - HALF_TURN <= #[trigger] r@[i] < initial@[i] + HALF_TURN by {
        assert(r@[i] as int == repaired(initial@, drawn, limits@)[i]);
        let base = initial@[i] - HALF_TURN;
        let c = drawn[i] as int - base;
        assert(0 <= c % (FULL_TURN as int) < FULL_TURN);
    }
    r
}

} // verus!

verus! {

/// A repaired continuous joint names the same direction as the candidate and
/// lies within half a turn of the reference.
pub proof fn lemma_repair_wraps(
    reference: Seq<i64>,
    candidate: Seq<i64>,
    limits: Seq<JointLimit>,
    i: int,
)
    requires
        reference.len() == limits.len(),
        candidate.len() == limits.len(),
        0 <= i < limits.len(),
        limits[i].continuous,
    ensures
        congruent(repaired(reference, candidate, limits)[i], candidate[i] as int),
        reference[i] - HALF_TURN <= repaired(reference, candidate, limits)[i],
        repaired(reference, candidate, limits)[i] <= reference[i] + HALF_TURN,
{
    let base = reference[i] - HALF_TURN;
    let f = FULL_TURN as int;
    let c = candidate[i] as int - base;
    assert(0 <= c % f < f);
    assert(c == f * (c / f) + c % f) by (nonlinear_arith)
        requires
            f > 0,
    ;
    let r = base + c % f;
    assert(r - candidate[i] == -(f * (c / f)));
    assert((-(f * (c / f))) % f == 0) by (nonlinear_arith)
        requires
            f > 0,
    ;
}

} // verus!
