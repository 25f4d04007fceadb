use vstd::prelude::*;
use vstd::seq_lib::seq_to_set_distributes_over_add;

verus! {

/// A point of the workspace, in the caller's length unit.
#[derive(Clone, Copy, Debug, PartialEq, Eq, Hash)]
pub struct Point3 {
    pub x: i64,
    pub y: i64,
    pub z: i64,
}

/// The half-open axis `min, min + step, ...` of the values below `max`.
pub open spec fn axis(min: int, max: int, step: int) -> Seq<int>
    decreases (if min < max { max - min } else { 0 }),
{
    if step <= 0 || min >= max {
        Seq::empty()
    } else {
        seq![min] + axis(min + step, max, step)
    }
}

/// A sequence of `i64` seen as integers.
pub open spec fn ints(v: Seq<i64>) -> Seq<int> {
    v.map_values(|a: i64| a as int)
}

/// `p` lies in the half-open box `[lo, hi)`.
pub open spec fn in_box(p: Point3, lo: Point3, hi: Point3) -> bool {
    lo.x <= p.x < hi.x && lo.y <= p.y < hi.y && lo.z <= p.z < hi.z
}

/// The axis as `i64` values.
pub open spec fn axis64(min: i64, max: i64, step: i64) -> Seq<i64> {
    axis(min as int, max as int, step as int).map_values(|a: int| a as i64)
}

/// The points of one row of the grid: `x` runs over `xs`.
pub open spec fn row(xs: Seq<i64>, y: i64, z: i64) -> Seq<Point3> {
    xs.map_values(|x: i64| Point3 { x, y, z })
}

/// The points of one layer of the grid: `y` runs over `ys`, then `x` over `xs`.
pub open spec fn layer(xs: Seq<i64>, ys: Seq<i64>, z: i64) -> Seq<Point3>
    decreases ys.len(),
{
    if ys.len() == 0 {
        Seq::empty()
    } else {
        layer(xs, ys.drop_last(), z) + row(xs, ys.last(), z)
    }
}

/// The points of the grid: `z` runs over `zs`, then `y` over `ys`, then `x`
/// over `xs`.
pub open spec fn grid(xs: Seq<i64>, ys: Seq<i64>, zs: Seq<i64>) -> Seq<Point3>
    decreases zs.len(),
{
    if zs.len() == 0 {
        Seq::empty()
    } else {
        grid(xs, ys, zs.drop_last()) + layer(xs, ys, zs.last())
    }
}

/// The grid of the box `[min_point, max_point)` at spacing `step`.
pub open spec fn region_grid(min_point: Point3, max_point: Point3, step: i64) -> Seq<Point3> {
    grid(
        axis64(min_point.x, max_point.x, step),
        axis64(min_point.y, max_point.y, step),
        axis64(min_point.z, max_point.z, step),
    )
}

/// The values `min, min + step, ...` below `max`.
pub fn grid_axis(min: i64, max: i64, step: i64) -> (r: Vec<i64>)
    requires
        step > 0,
    ensures
        ints(r@) == axis(min as int, max as int, step as int),
        r@ == axis64(min, max, step),
        forall|i: int| 0 <= i < r@.len() ==> min <= #[trigger] r@[i] < max,
{
    let mut r: Vec<i64> = Vec::new();
    let mut v: i64 = min;
    let mut done: bool = min >= max;
    while !done
        invariant
            step > 0,
            done ==> ints(r@) == axis(min as int, max as int, step as int),
            !done ==> v < max && ints(r@) + axis(v as int, max as int, step as int) == axis(
                min as int,
                max as int,
                step as int,
            ),
            forall|i: int| 0 <= i < r@.len() ==> min <= #[trigger] r@[i] < max,
            min <= v,
        decreases (if done { 0 } else { max - v + 1 }),
    {
        let ghost prev = r@;
        r.push(v);
        assert(ints(r@) =~= ints(prev).push(v as int));
        assert(axis(v as int, max as int, step as int) == seq![v as int] + axis(
            v + step,
            max as int,
            step as int,
        ));
        if (max as i128) - (v as i128) <= step as i128 {
            assert(axis(v + step, max as int, step as int) == Seq::<int>::empty());
            assert(ints(r@) =~= ints(prev) + axis(v as int, max as int, step as int));
            done = true;
        } else {
            assert(ints(r@) + axis(v + step, max as int, step as int) =~= ints(prev) + axis(
                v as int,
                max as int,
                step as int,
            ));
            v = v + step;
        }
    }
    assert(r@ =~= axis64(min, max, step)) by {
        assert forall|i: int| 0 <= i < r@.len() implies r@[i] == #[trigger] axis64(min, max, step)[i] by {
            assert(ints(r@)[i] == r@[i] as int);
        }
    }
    r
}

/// Appends the row of points `(x, y, z)`, `x` running over `xs`.
fn push_row(r: &mut Vec<Point3>, xs: &Vec<i64>, y: i64, z: i64, lo: Point3, hi: Point3)
    requires
        forall|i: int| 0 <= i < xs@.len() ==> lo.x <= #[trigger] xs@[i] < hi.x,
        lo.y <= y < hi.y,
        lo.z <= z < hi.z,
        forall|k: int| 0 <= k < old(r)@.len() ==> in_box(#[trigger] old(r)@[k], lo, hi),
    ensures
        final(r)@ == old(r)@ + row(xs@, y, z),
        forall|k: int| 0 <= k < final(r)@.len() ==> in_box(#[trigger] final(r)@[k], lo, hi),
{
    let ghost start = r@;
    let mut i: usize = 0;
    while i < xs.len()
        invariant
            forall|j: int| 0 <= j < xs@.len() ==> lo.x <= #[trigger] xs@[j] < hi.x,
            lo.y <= y < hi.y,
            lo.z <= z < hi.z,
            i <= xs@.len(),
            r@ == start + row(xs@.take(i as int), y, z),
            forall|k: int| 0 <= k < r@.len() ==> in_box(#[trigger] r@[k], lo, hi),
        decreases xs@.len() - i,
    {
        let ghost prev = r@;
        r.push(Point3 { x: xs[i], y, z });
        assert(row(xs@.take(i + 1), y, z) =~= row(xs@.take(i as int), y, z).push(
            Point3 { x: xs@[i as int], y, z },
        ));
        i = i + 1;
    }
    assert(xs@.take(i as int) =~= xs@);
}

/// Appends the layer of points at height `z`: `y` running over `ys`, then `x`
/// over `xs`.
fn push_layer(r: &mut Vec<Point3>, xs: &Vec<i64>, ys: &Vec<i64>, z: i64, lo: Point3, hi: Point3)
    requires
        forall|i: int| 0 <= i < xs@.len() ==> lo.x <= #[trigger] xs@[i] < hi.x,
        forall|i: int| 0 <= i < ys@.len() ==> lo.y <= #[trigger] ys@[i] < hi.y,
        lo.z <= z < hi.z,
        forall|k: int| 0 <= k < old(r)@.len() ==> in_box(#[trigger] old(r)@[k], lo, hi),
    ensures
        final(r)@ == old(r)@ + layer(xs@, ys@, z),
        forall|k: int| 0 <= k < final(r)@.len() ==> in_box(#[trigger] final(r)@[k], lo, hi),
{
    let ghost start = r@;
    let mut j: usize = 0;
    while j < ys.len()
        invariant
            forall|i: int| 0 <= i < xs@.len() ==> lo.x <= #[trigger] xs@[i] < hi.x,
            forall|i: int| 0 <= i < ys@.len() ==> lo.y <= #[trigger] ys@[i] < hi.y,
            lo.z <= z < hi.z,
            j <= ys@.len(),
            r@ == start + layer(xs@, ys@.take(j as int), z),
            forall|k: int| 0 <= k < r@.len() ==> in_box(#[trigger] r@[k], lo, hi),
        decreases ys@.len() - j,
    {
        push_row(r, xs, ys[j], z, lo, hi);
        assert(ys@.take(j + 1).drop_last() =~= ys@.take(j as int));
        assert(r@ =~= start + layer(xs@, ys@.take(j + 1), z));
        j = j + 1;
    }
    assert(ys@.take(j as int) =~= ys@);
}

/// The grid points of the box `[min_point, max_point)` at spacing
/// `unit_check_length`: `z` outermost, then `y`, then `x`.
pub fn region_targets(max_point: Point3, min_point: Point3, unit_check_length: i64) -> (r: Vec<Point3>)
    requires
        unit_check_length > 0,
    ensures
        r@ == region_grid(min_point, max_point, unit_check_length),
        forall|k: int| 0 <= k < r@.len() ==> in_box(#[trigger] r@[k], min_point, max_point),
{
    let xs = grid_axis(min_point.x, max_point.x, unit_check_length);
    let ys = grid_axis(min_point.y, max_point.y, unit_check_length);
    let zs = grid_axis(min_point.z, max_point.z, unit_check_length);
    let mut r: Vec<Point3> = Vec::new();
    let mut k: usize = 0;
    assert(r@ =~= Seq::<Point3>::empty());
    while k < zs.len()
        invariant
            forall|i: int| 0 <= i < xs@.len() ==> min_point.x <= #[trigger] xs@[i] < max_point.x,
            forall|i: int| 0 <= i < ys@.len() ==> min_point.y <= #[trigger] ys@[i] < max_point.y,
            forall|i: int| 0 <= i < zs@.len() ==> min_point.z <= #[trigger] zs@[i] < max_point.z,
            k <= zs@.len(),
            r@ == grid(xs@, ys@, zs@.take(k as int)),
            forall|q: int| 0 <= q < r@.len() ==> in_box(#[trigger] r@[q], min_point, max_point),
        decreases zs@.len() - k,
    {
        push_layer(&mut r, &xs, &ys, zs[k], min_point, max_point);
        assert(zs@.take(k + 1).drop_last() =~= zs@.take(k as int));
        k = k + 1;
    }
    assert(zs@.take(k as int) =~= zs@);
    r
}

/// The first `n` targets whose flag is set, in order.
pub open spec fn reached_upto(targets: Seq<Point3>, reached: Seq<bool>, n: nat) -> Seq<Point3>
    decreases n,
{
    if n == 0 {
        Seq::empty()
    } else {
        let rest = reached_upto(targets, reached, (n - 1) as nat);
        if reached[n - 1] {
            rest.push(targets[n - 1])
        } else {
            rest
        }
    }
}

/// The targets whose flag is set, in order.
pub open spec fn reached_points(targets: Seq<Point3>, reached: Seq<bool>) -> Seq<Point3> {
    reached_upto(targets, reached, targets.len())
}

/// Keeps the targets whose flag is set, in order.
pub fn collect_reached(targets: &Vec<Point3>, reached: &Vec<bool>) -> (r: Vec<Point3>)
    requires
        reached@.len() == targets@.len(),
    ensures
        r@ == reached_points(targets@, reached@),
        forall|k: int| 0 <= k < r@.len() ==> targets@.contains(#[trigger] r@[k]),
{
    let mut r: Vec<Point3> = Vec::new();
    let mut i: usize = 0;
    while i < targets.len()
        invariant
            reached@.len() == targets@.len(),
            i <= targets@.len(),
            r@ == reached_upto(targets@, reached@, i as nat),
            forall|k: int| 0 <= k < r@.len() ==> targets@.contains(#[trigger] r@[k]),
        decreases targets@.len() - i,
    {
        if reached[i] {
            r.push(targets[i]);
            assert(targets@[i as int] == r@[r@.len() - 1]);
        }
        i = i + 1;
    }
    r
}

/// The grid points of the box `[min_point, max_point)` at spacing
/// `unit_check_length` that were reached: `reached[i]` tells whether the
/// `i`-th point of `region_targets` was solved.
pub fn get_reachable_region(
    max_point: Point3,
    min_point: Point3,
    unit_check_length: i64,
    reached: &Vec<bool>,
) -> (r: Vec<Point3>)
    requires
        unit_check_length > 0,
        reached@.len() == region_grid(min_point, max_point, unit_check_length).len(),
    ensures
        r@ == reached_points(region_grid(min_point, max_point, unit_check_length), reached@),
        forall|k: int| 0 <= k < r@.len() ==> in_box(#[trigger] r@[k], min_point, max_point),
{
    let targets = region_targets(max_point, min_point, unit_check_length);
    collect_reached(&targets, reached)
}

} // verus!

verus! {

/// The first `n` flags of a prefix decide as they do in the whole.
proof fn lemma_prefix_collect(t1: Seq<Point3>, f1: Seq<bool>, t2: Seq<Point3>, f2: Seq<bool>, n: nat)
    requires
        t1.len() == f1.len(),
        n <= t1.len(),
    ensures
        reached_upto(t1 + t2, f1 + f2, n) == reached_upto(t1, f1, n),
    decreases n,
{
    if n > 0 {
        lemma_prefix_collect(t1, f1, t2, f2, (n - 1) as nat);
    }
}

/// Collecting over the first `t1.len() + n` targets of `t1 + t2` is collecting
/// over `t1`, then over the first `n` of `t2`.
proof fn lemma_concat_collect(t1: Seq<Point3>, f1: Seq<bool>, t2: Seq<Point3>, f2: Seq<bool>, n: nat)
    requires
        t1.len() == f1.len(),
        t2.len() == f2.len(),
        n <= t2.len(),
    ensures
        reached_upto(t1 + t2, f1 + f2, t1.len() + n) == reached_upto(t1, f1, t1.len())
            + reached_upto(t2, f2, n),
    decreases n,
{
    if n == 0 {
        lemma_prefix_collect(t1, f1, t2, f2, t1.len());
        assert(reached_upto(t1, f1, t1.len()) + reached_upto(t2, f2, 0) =~= reached_upto(
            t1,
            f1,
            t1.len(),
        ));
    } else {
        lemma_concat_collect(t1, f1, t2, f2, (n - 1) as nat);
        let m = t1.len() + n;
        assert((f1 + f2)[m - 1] == f2[n - 1]);
        assert((t1 + t2)[m - 1] == t2[n - 1]);
        let a = reached_upto(t1, f1, t1.len());
        let b = reached_upto(t2, f2, (n - 1) as nat);
        assert((a + b).push(t2[n - 1]) =~= a + b.push(t2[n - 1]));
    }
}

/// Collecting the reached points is independent of how the targets are split
/// among workers: collecting each part and concatenating the parts gives the
/// collection of the whole, and merging the parts in either order yields the
/// same set of points.
pub proof fn lemma_split_collect(t1: Seq<Point3>, f1: Seq<bool>, t2: Seq<Point3>, f2: Seq<bool>)
    requires
        t1.len() == f1.len(),
        t2.len() == f2.len(),
    ensures
        reached_points(t1 + t2, f1 + f2) == reached_points(t1, f1) + reached_points(t2, f2),
        (reached_points(t2, f2) + reached_points(t1, f1)).to_set() == reached_points(
            t1 + t2,
            f1 + f2,
        ).to_set(),
{
    lemma_concat_collect(t1, f1, t2, f2, t2.len());
    assert((t1 + t2).len() == t1.len() + t2.len());
    seq_to_set_distributes_over_add(reached_points(t1, f1), reached_points(t2, f2));
    seq_to_set_distributes_over_add(reached_points(t2, f2), reached_points(t1, f1));
    assert(reached_points(t1, f1).to_set().union(reached_points(t2, f2).to_set())
        =~= reached_points(t2, f2).to_set().union(reached_points(t1, f1).to_set()));
}

} // verus!
