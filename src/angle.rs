use vstd::prelude::*;

verus! {

/// One full turn of a joint, in angle units.
pub const FULL_TURN: i64 = 1_000_000_000;

/// Half a turn, in angle units.
pub const HALF_TURN: i64 = 500_000_000;

/// `a` and `b` denote the same direction: they differ by whole turns.
pub open spec fn congruent(a: int, b: int) -> bool {
    (a - b) % (FULL_TURN as int) == 0
}

/// A reference angle around which every congruent angle within half a turn
/// is representable in an `i64`.
pub open spec fn wrappable(reference: int) -> bool {
    i64::MIN + HALF_TURN <= reference && reference <= i64::MAX - HALF_TURN
}

/// The angle congruent to `candidate` that lies in
/// `[reference - HALF_TURN, reference + HALF_TURN)`.
pub open spec fn nearest_spec(reference: int, candidate: int) -> int {
    let base = reference - HALF_TURN;
    base + (candidate - base) % (FULL_TURN as int)
}

/// Returns the angle congruent to `candidate` nearest to `reference`.
pub fn nearest_angle(reference: i64, candidate: i64) -> (r: i64)
    requires
        wrappable(reference as int),
    ensures
        r == nearest_spec(reference as int, candidate as int),
        congruent(r as int, candidate as int),
        reference - HALF_TURN <= r < reference + HALF_TURN,
{
    let base: i128 = reference as i128 - HALF_TURN as i128;
    let d: i128 = candidate as i128 - base;
    let m: i128 = d % (FULL_TURN as i128);
    let off: i128 = if m < 0 { m + FULL_TURN as i128 } else { m };
    proof {
        let f = FULL_TURN as int;
        assert(-f < m < f);
        assert(m as int == d as int - f * ((d as int) / f) || m as int == d as int - f * ((d as int) / f) + f || m as int == d as int - f * ((d as int) / f) - f);
    }
    (base + off) as i64
}

} // verus!
