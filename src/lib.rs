//! Randomized-restart inverse kinematics and reachable-workspace sampling.
//!
//! Angles are fixed-point integers: one full turn is [`angle::FULL_TURN`]
//! units. Positions are integers in a length unit chosen by the caller.
//!
//! The single-shot kinematics engine and the arm stay with the caller, which
//! drives a solve step by step through [`restart::RandomInitializeIkSolver`].
pub mod angle;
pub mod joint;
pub mod region;
pub mod restart;

pub use angle::{nearest_angle, FULL_TURN, HALF_TURN};
pub use joint::{
    generate_random_joint_positions_from_limits, modify_to_nearest_angle, random_joint_position,
    restart_configuration, JointLimit,
};
pub use region::{collect_reached, get_reachable_region, grid_axis, region_targets, Point3};
pub use restart::{RandomInitializeIkSolver, Report, Step};
