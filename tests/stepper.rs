use rapier_sync::stepper::{
    event_sink, plan_step, EventSink, SimulationToRenderTime, TimeScale, TimestepMode,
};

const MS: u64 = 1_000_000;
const ONE: TimeScale = TimeScale { num: 1, den: 1 };

#[test]
fn fixed_mode_steps_once_whatever_elapsed() {
    let mode = TimestepMode::Fixed { dt: 16 * MS, substeps: 4 };
    assert!(mode.is_valid());
    let mut acc = SimulationToRenderTime { diff: 0 };
    for elapsed in [0, 5 * MS, 100 * MS] {
        let plan = plan_step(mode, elapsed, &mut acc, true);
        assert_eq!(plan.steps, 1);
        assert_eq!(plan.substeps, 4);
        assert_eq!(plan.substep_dt, 4 * MS as u128);
        assert_eq!(plan.integration_dt, 16 * MS);
        assert!(!plan.snapshot_before_last);
        assert_eq!(acc.diff, 0);
    }
}

#[test]
fn variable_mode_scales_and_caps() {
    let mode = TimestepMode::Variable {
        max_dt: 20 * MS,
        time_scale: TimeScale { num: 1, den: 2 },
        substeps: 2,
    };
    let mut acc = SimulationToRenderTime { diff: 7 };
    let plan = plan_step(mode, 10 * MS, &mut acc, false);
    assert_eq!(plan.steps, 1);
    assert_eq!(plan.integration_dt, 5 * MS);
    assert_eq!(plan.substep_dt, (5 * MS / 2) as u128);
    let plan = plan_step(mode, 100 * MS, &mut acc, false);
    assert_eq!(plan.integration_dt, 20 * MS);
    assert_eq!(plan.substep_dt, 10 * MS as u128);
    assert_eq!(acc.diff, 7);
}

#[test]
fn interpolated_mode_drains_the_accumulator() {
    let dt = 10 * MS;
    let mode = TimestepMode::Interpolated { dt, time_scale: ONE, substeps: 1 };
    let mut acc = SimulationToRenderTime { diff: 0 };
    let plan = plan_step(mode, 25 * MS, &mut acc, true);
    assert_eq!(plan.steps, 3);
    assert_eq!(acc.diff, -5 * MS as i64);
    assert!(plan.snapshot_before_last);
    assert_eq!(plan.substep_dt, dt as u128);
    // Not enough time for a step: nothing runs and nothing is snapshot.
    let plan = plan_step(mode, 3 * MS, &mut acc, true);
    assert_eq!(plan.steps, 0);
    assert_eq!(acc.diff, -2 * MS as i64);
    assert!(!plan.snapshot_before_last);
    let f = acc.blend_fraction(dt);
    assert_eq!((f.num, f.den), (8 * MS as i128, dt));
}

#[test]
fn interpolated_time_scale_applies_to_substeps() {
    let mode = TimestepMode::Interpolated {
        dt: 12 * MS,
        time_scale: TimeScale { num: 1, den: 2 },
        substeps: 3,
    };
    let mut acc = SimulationToRenderTime { diff: 0 };
    let plan = plan_step(mode, 12 * MS, &mut acc, false);
    assert_eq!(plan.steps, 1);
    assert_eq!(plan.substep_dt, 2 * MS as u128);
    assert_eq!(plan.integration_dt, 12 * MS);
    assert!(!plan.snapshot_before_last);
}

#[test]
fn one_step_of_elapsed_time_blends_to_the_end_pose() {
    let dt = 16 * MS;
    let mode = TimestepMode::Interpolated { dt, time_scale: ONE, substeps: 2 };
    let mut acc = SimulationToRenderTime { diff: 0 };
    let plan = plan_step(mode, dt, &mut acc, true);
    assert_eq!(plan.steps, 1);
    assert_eq!(acc.diff, 0);
    let f = acc.blend_fraction(dt);
    assert_eq!(f.num, f.den as i128);
}

#[test]
fn blend_fraction_stays_within_bounds() {
    let dt = 10 * MS;
    let mode = TimestepMode::Interpolated { dt, time_scale: ONE, substeps: 1 };
    for start in [0i64, 3 * MS as i64, -(9 * MS as i64), 9 * MS as i64] {
        for elapsed in [0, 1, 4 * MS, 10 * MS, 33 * MS] {
            let mut acc = SimulationToRenderTime { diff: start };
            plan_step(mode, elapsed, &mut acc, true);
            let f = acc.blend_fraction(dt);
            assert!(f.num >= 0 && f.num <= f.den as i128, "start {start} elapsed {elapsed}");
        }
    }
}

#[test]
fn invalid_modes_are_detected() {
    assert!(!TimestepMode::Fixed { dt: 10, substeps: 0 }.is_valid());
    assert!(!TimestepMode::Fixed { dt: 0, substeps: 1 }.is_valid());
    assert!(!TimestepMode::Interpolated { dt: 10, time_scale: TimeScale { num: 1, den: 0 }, substeps: 1 }.is_valid());
    assert!(!TimestepMode::Variable { max_dt: 10, time_scale: ONE, substeps: 0 }.is_valid());
    assert!(TimestepMode::Variable { max_dt: 10, time_scale: ONE, substeps: 1 }.is_valid());
}

#[test]
fn hook_takes_precedence_over_queue() {
    assert_eq!(event_sink(true, true), EventSink::Hook);
    assert_eq!(event_sink(true, false), EventSink::Hook);
    assert_eq!(event_sink(false, true), EventSink::Queue);
    assert_eq!(event_sink(false, false), EventSink::Ignore);
}
