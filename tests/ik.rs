use std::collections::HashSet;

use openrr_planner::{
    collect_reached, generate_random_joint_positions_from_limits, get_reachable_region,
    grid_axis, modify_to_nearest_angle, nearest_angle, random_joint_position,
    region_targets, restart_configuration, JointLimit, Point3, RandomInitializeIkSolver, Report,
    Step, FULL_TURN, HALF_TURN,
};

/// What a run of the restarting solver did, driven as an application drives it.
struct Run {
    calls: usize,
    reseeds: usize,
    arm: Vec<i64>,
    result: Result<(), String>,
}

/// Drives a solve with an engine that answers from `answers` in turn; a
/// converging answer moves the arm to `solution`.
fn drive(num_max_try: usize, initial: &[i64], answers: &[Report<String>], solution: &[i64]) -> Run {
    let solver = RandomInitializeIkSolver::new((), num_max_try);
    let limits = vec![JointLimit::bounded(-100, 100), JointLimit::continuous()];
    let mut arm = initial.to_vec();
    let mut run = Run { calls: 0, reseeds: 0, arm: vec![], result: Ok(()) };
    let mut step = solver.first_step("none".to_string());
    let mut try_idx = 0usize;
    loop {
        match step {
            Step::Attempt | Step::Reseed => {
                if matches!(step, Step::Reseed) {
                    run.reseeds += 1;
                    let draws = vec![7u64 + try_idx as u64, 11];
                    arm = restart_configuration(&initial.to_vec(), &limits, &draws);
                    try_idx += 1;
                }
                run.calls += 1;
                let report = answers[try_idx].clone();
                if matches!(report, Report::Converged) {
                    arm = solution.to_vec();
                } else {
                    arm = vec![-1, -1];
                }
                step = solver.next_step(try_idx, report);
            }
            Step::Accept => break,
            Step::GiveUp(e) => {
                arm = initial.to_vec();
                run.result = Err(e);
                break;
            }
            Step::Abort(e) => {
                run.result = Err(e);
                break;
            }
        }
    }
    run.arm = arm;
    run
}

fn failed(tag: &str) -> Report<String> {
    Report::NotConverged(tag.to_string())
}

#[test]
fn nearest_angle_wraps_toward_reference() {
    assert_eq!(nearest_angle(0, FULL_TURN + 10), 10);
    assert_eq!(nearest_angle(0, -FULL_TURN - 10), -10);
    assert_eq!(nearest_angle(3 * FULL_TURN, 5), 3 * FULL_TURN + 5);
    assert_eq!(nearest_angle(0, HALF_TURN), -HALF_TURN);
    assert_eq!(nearest_angle(100, 100), 100);
    for cand in [-7 * FULL_TURN + 3, -1, 0, 999, HALF_TURN + 1, 5 * FULL_TURN - 2] {
        for reference in [-FULL_TURN, -3, 0, 42, 2 * FULL_TURN + 17] {
            let r = nearest_angle(reference, cand);
            assert_eq!((r - cand).rem_euclid(FULL_TURN), 0);
            assert!((r - reference).abs() <= HALF_TURN);
        }
    }
}

#[test]
fn random_joint_position_exact_values() {
    assert_eq!(random_joint_position(JointLimit::bounded(10, 20), 25), 13);
    assert_eq!(random_joint_position(JointLimit::bounded(-5, -5), 12345), -5);
    assert_eq!(random_joint_position(JointLimit::continuous(), 7), -HALF_TURN + 7);
    assert_eq!(
        random_joint_position(JointLimit::bounded(i64::MIN, i64::MAX), u64::MAX),
        i64::MAX
    );
}

#[test]
fn generated_bounded_joints_stay_within_limits() {
    let limits = vec![
        JointLimit::bounded(-300, 200),
        JointLimit::continuous(),
        JointLimit::bounded(0, 0),
        JointLimit::bounded(i64::MIN, i64::MAX),
    ];
    let mut seed: u64 = 0x9e37_79b9_7f4a_7c15;
    for _ in 0..500 {
        let draws: Vec<u64> = (0..4)
            .map(|_| {
                seed ^= seed << 13;
                seed ^= seed >> 7;
                seed ^= seed << 17;
                seed
            })
            .collect();
        let c = generate_random_joint_positions_from_limits(&limits, &draws);
        assert_eq!(c.len(), 4);
        assert!(-300 <= c[0] && c[0] <= 200);
        assert!(-HALF_TURN <= c[1] && c[1] < HALF_TURN);
        assert_eq!(c[2], 0);
    }
}

#[test]
fn modify_to_nearest_angle_changes_continuous_joints_only() {
    let limits = vec![JointLimit::continuous(), JointLimit::bounded(-2 * FULL_TURN, 2 * FULL_TURN)];
    let reference = vec![0, 0];
    let mut candidate = vec![FULL_TURN + 5, FULL_TURN + 5];
    modify_to_nearest_angle(&reference, &mut candidate, &limits);
    assert_eq!(candidate, vec![5, FULL_TURN + 5]);
}

#[test]
fn restart_configuration_repairs_toward_initial() {
    let limits = vec![JointLimit::continuous(), JointLimit::bounded(10, 20)];
    let initial = vec![2 * FULL_TURN, 15];
    let r = restart_configuration(&initial, &limits, &vec![7, 25]);
    assert_eq!(r, vec![2 * FULL_TURN - HALF_TURN + 7, 13]);
}

#[test]
fn first_success_ends_the_solve() {
    let answers = vec![failed("a"), failed("b"), Report::Converged, failed("d")];
    let run = drive(4, &[3, 4], &answers, &[9, 9]);
    assert_eq!(run.calls, 3);
    assert_eq!(run.reseeds, 2);
    assert_eq!(run.result, Ok(()));
    assert_eq!(run.arm, vec![9, 9]);
}

#[test]
fn exhaustion_restores_initial_configuration() {
    let answers = vec![failed("a"), failed("b"), failed("c")];
    let run = drive(3, &[3, 4], &answers, &[9, 9]);
    assert_eq!(run.calls, 3);
    assert_eq!(run.result, Err("c".to_string()));
    assert_eq!(run.arm, vec![3, 4]);
}

#[test]
fn single_attempt_never_reseeds() {
    let run = drive(1, &[3, 4], &[failed("only")], &[9, 9]);
    assert_eq!(run.calls, 1);
    assert_eq!(run.reseeds, 0);
    assert_eq!(run.result, Err("only".to_string()));
    let run = drive(1, &[3, 4], &[Report::Converged], &[9, 9]);
    assert_eq!((run.calls, run.reseeds), (1, 0));
    assert_eq!(run.arm, vec![9, 9]);
}

#[test]
fn no_attempt_allowed_gives_up() {
    let run = drive(0, &[3, 4], &[], &[9, 9]);
    assert_eq!(run.calls, 0);
    assert_eq!(run.result, Err("none".to_string()));
    assert_eq!(run.arm, vec![3, 4]);
}

#[test]
fn malformed_input_aborts_at_once() {
    let answers = vec![failed("a"), Report::Malformed("length".to_string()), failed("c")];
    let run = drive(5, &[3, 4], &answers, &[9, 9]);
    assert_eq!(run.calls, 2);
    assert_eq!(run.reseeds, 1);
    assert_eq!(run.result, Err("length".to_string()));
}

#[test]
fn grid_axis_is_half_open() {
    assert_eq!(grid_axis(0, 10, 3), vec![0, 3, 6, 9]);
    assert_eq!(grid_axis(0, 9, 3), vec![0, 3, 6]);
    assert_eq!(grid_axis(5, 5, 1), Vec::<i64>::new());
    assert_eq!(grid_axis(5, -5, 1), Vec::<i64>::new());
    assert_eq!(grid_axis(i64::MAX - 2, i64::MAX, 5), vec![i64::MAX - 2]);
    assert_eq!(grid_axis(-900_000, 900_000, 100_000).len(), 18);
}

fn scenario_box() -> (Point3, Point3, i64) {
    let min = Point3 { x: 0, y: -900_000, z: 0 };
    let max = Point3 { x: 800_000, y: 900_000, z: 900_000 };
    (min, max, 100_000)
}

/// A deterministic engine that solves a corner of the box.
fn solvable(p: &Point3) -> bool {
    p.x + p.z <= 300_000 && -200_000 <= p.y && p.y < 200_000
}

#[test]
fn region_scenario_counts() {
    let (min, max, step) = scenario_box();
    let targets = region_targets(max, min, step);
    assert_eq!(targets.len(), 8 * 18 * 9);
    assert_eq!(targets[0], Point3 { x: 0, y: -900_000, z: 0 });
    assert_eq!(targets[1], Point3 { x: 100_000, y: -900_000, z: 0 });
    assert_eq!(targets[8], Point3 { x: 0, y: -800_000, z: 0 });
    assert_eq!(targets[8 * 18], Point3 { x: 0, y: -900_000, z: 100_000 });
    let reached: Vec<bool> = targets.iter().map(solvable).collect();
    let region = get_reachable_region(max, min, step, &reached);
    assert_eq!(region.len(), 40);
    for p in &region {
        assert!(min.x <= p.x && p.x < max.x);
        assert!(min.y <= p.y && p.y < max.y);
        assert!(min.z <= p.z && p.z < max.z);
        assert!(solvable(p));
    }
}

#[test]
fn region_independent_of_worker_split() {
    let (min, max, step) = scenario_box();
    let targets = region_targets(max, min, step);
    let reached: Vec<bool> = targets.iter().map(solvable).collect();
    let whole: HashSet<Point3> = get_reachable_region(max, min, step, &reached).into_iter().collect();
    for chunk in [1usize, 8, 144, 500, 1296] {
        let mut merged: HashSet<Point3> = HashSet::new();
        let parts: Vec<(Vec<Point3>, Vec<bool>)> = targets
            .chunks(chunk)
            .zip(reached.chunks(chunk))
            .map(|(t, f)| (t.to_vec(), f.to_vec()))
            .collect();
        for (t, f) in parts.iter().rev() {
            merged.extend(collect_reached(t, f));
        }
        assert_eq!(merged, whole);
    }
}

#[test]
fn collect_reached_keeps_order() {
    let t = vec![
        Point3 { x: 1, y: 0, z: 0 },
        Point3 { x: 2, y: 0, z: 0 },
        Point3 { x: 3, y: 0, z: 0 },
    ];
    assert_eq!(collect_reached(&t, &vec![true, false, true]), vec![t[0], t[2]]);
    assert_eq!(collect_reached(&t, &vec![false, false, false]), Vec::<Point3>::new());
}
