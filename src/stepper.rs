use vstd::prelude::*;

verus! {

/// A factor applied to simulated time, as a ratio of two integers.
#[derive(Clone, Copy, Debug, PartialEq, Eq, Structural)]
pub struct TimeScale {
    pub num: u32,
    pub den: u32,
}

/// How each host update advances the simulation. Durations are in
/// nanoseconds.
#[derive(Clone, Copy, Debug, PartialEq, Eq, Structural)]
pub enum TimestepMode {
    /// Exactly one step of `dt`, split in `substeps`, whatever time elapsed.
    Fixed { dt: u64, substeps: u32 },
    /// One step of the elapsed time, scaled and capped at `max_dt`.
    Variable { max_dt: u64, time_scale: TimeScale, substeps: u32 },
    /// As many steps of `dt` as the accumulated frame time calls for, so
    /// that rendering can blend between the last two simulated poses.
    Interpolated { dt: u64, time_scale: TimeScale, substeps: u32 },
}

/// Frame time not yet consumed by simulation steps, in nanoseconds. After
/// the steps of a frame it lies in `(-dt, 0]`.
#[derive(Clone, Copy, Debug, PartialEq, Eq, Structural)]
pub struct SimulationToRenderTime {
    pub diff: i64,
}

/// What one host update asks of the engine: `steps` physics steps, each
/// made of `substeps` sub-steps of `substep_dt` nanoseconds, and whether the
/// poses are to be recorded as interpolation starts just before the last
/// step.
#[derive(Clone, Copy, Debug, PartialEq, Eq, Structural)]
pub struct StepPlan {
    pub steps: u64,
    pub substeps: u32,
    pub substep_dt: u128,
    pub integration_dt: u64,
    pub snapshot_before_last: bool,
}

/// Which sink receives the events of a step.
#[derive(Clone, Copy, Debug, PartialEq, Eq, Structural)]
pub enum EventSink {
    /// The handler the caller installed on the world.
    Hook,
    /// The world's own queue, flushed to the host after the step.
    Queue,
    /// No sink: events are dropped.
    Ignore,
}

/// The sink of a step's events: a handler installed on the world takes
/// precedence over the world's queue, which is used only when the caller
/// asks for host events.
pub fn event_sink(has_hook: bool, create_events: bool) -> (r: EventSink)
    ensures
        has_hook ==> r == EventSink::Hook,
        !has_hook && create_events ==> r == EventSink::Queue,
        !has_hook && !create_events ==> r == EventSink::Ignore,
{
    if has_hook {
        EventSink::Hook
    } else if create_events {
        EventSink::Queue
    } else {
        EventSink::Ignore
    }
}

impl TimestepMode {
    /// At least one sub-step, a positive step length, a positive time-scale
    /// denominator, and a step length that fits a signed accumulator.
    pub open spec fn valid(self) -> bool {
        match self {
            TimestepMode::Fixed { dt, substeps } => substeps >= 1 && 0 < dt <= i64::MAX,
            TimestepMode::Variable { max_dt, time_scale, substeps } => substeps >= 1
                && time_scale.den >= 1,
            TimestepMode::Interpolated { dt, time_scale, substeps } => substeps >= 1
                && 0 < dt <= i64::MAX && time_scale.den >= 1,
        }
    }

    /// Checks the mode where it is configured; stepping assumes it.
    pub fn is_valid(&self) -> (r: bool)
        ensures
            r == self.valid(),
    {
        match self {
            TimestepMode::Fixed { dt, substeps } => *substeps >= 1 && *dt > 0 && *dt <= i64::MAX as u64,
            TimestepMode::Variable { time_scale, substeps, .. } => *substeps >= 1
                && time_scale.den >= 1,
            TimestepMode::Interpolated { dt, time_scale, substeps } => *substeps >= 1 && *dt > 0
                && *dt <= i64::MAX as u64 && time_scale.den >= 1,
        }
    }
}

/// `steps` steps of `dt` drain the accumulated time `acc` to `rest`: none
/// when nothing is pending, else exactly enough to bring it into `(-dt, 0]`.
pub open spec fn drains(acc: int, dt: int, steps: int, rest: int) -> bool {
    &&& rest == acc - steps * dt
    &&& steps == 0 ==> acc <= 0
    &&& steps > 0 ==> -dt < rest <= 0
}

/// `floor(t * scale)` in nanoseconds.
pub open spec fn scaled(t: int, scale: TimeScale) -> int {
    t * scale.num as int / scale.den as int
}

/// Advances the accumulated frame time by `elapsed` nanoseconds and plans
/// the physics steps of this update.
pub fn plan_step(
    mode: TimestepMode,
    elapsed: u64,
    sim_to_render_time: &mut SimulationToRenderTime,
    track_interpolation: bool,
) -> (r: StepPlan)
    requires
        mode.valid(),
        match mode {
            TimestepMode::Interpolated { .. } => old(sim_to_render_time).diff + elapsed <= i64::MAX,
            _ => true,
        },
    ensures
        match mode {
            TimestepMode::Fixed { dt, substeps } => {
                &&& r.steps == 1
                &&& r.substeps == substeps
                &&& r.integration_dt == dt
                &&& r.substep_dt as int == dt as int / substeps as int
                &&& !r.snapshot_before_last
                &&& *final(sim_to_render_time) == *old(sim_to_render_time)
            },
            TimestepMode::Variable { max_dt, time_scale, substeps } => {
                let t = scaled(elapsed as int, time_scale);
                &&& r.steps == 1
                &&& r.substeps == substeps
                &&& r.integration_dt as int == if t < max_dt { t } else { max_dt as int }
                &&& r.substep_dt as int == r.integration_dt as int / substeps as int
                &&& !r.snapshot_before_last
                &&& *final(sim_to_render_time) == *old(sim_to_render_time)
            },
            TimestepMode::Interpolated { dt, time_scale, substeps } => {
                &&& drains(
                    old(sim_to_render_time).diff + elapsed,
                    dt as int,
                    r.steps as int,
                    final(sim_to_render_time).diff as int,
                )
                &&& r.substeps == substeps
                &&& r.integration_dt == dt
                &&& r.substep_dt as int == scaled(dt as int, time_scale) / substeps as int
                &&& r.snapshot_before_last == (track_interpolation && r.steps > 0)
            },
        },
{
    match mode {
        TimestepMode::Fixed { dt, substeps } => StepPlan {
            steps: 1,
            substeps,
            substep_dt: (dt / substeps as u64) as u128,
            integration_dt: dt,
            snapshot_before_last: false,
        },
        TimestepMode::Variable { max_dt, time_scale, substeps } => {
            let t = scale_time(elapsed, time_scale);
            let integration_dt = if t < max_dt as u128 { t as u64 } else { max_dt };
            StepPlan {
                steps: 1,
                substeps,
                substep_dt: (integration_dt / substeps as u64) as u128,
                integration_dt,
                snapshot_before_last: false,
            }
        },
        TimestepMode::Interpolated { dt, time_scale, substeps } => {
            let step = dt as i64;
            let mut diff: i64 = (sim_to_render_time.diff as i128 + elapsed as i128) as i64;
            let ghost acc: int = diff as int;
            let mut steps: u64 = 0;
            while diff > 0
                invariant
                    acc == old(sim_to_render_time).diff + elapsed,
                    acc <= i64::MAX,
                    0 < step <= i64::MAX,
                    step == dt,
                    diff == acc - steps * step,
                    steps > 0 ==> diff > -step,
                    steps == 0 ==> diff == acc,
                decreases diff as int + step as int,
            {
                proof {
                    assert(steps as int <= steps as int * step) by (nonlinear_arith)
                        requires
                            step >= 1,
                            steps >= 0,
                    ;
                }
                diff = diff - step;
                steps = steps + 1;
                proof {
                    assert(diff == acc - steps * step) by (nonlinear_arith)
                        requires
                            diff == acc - (steps - 1) * step - step,
                    ;
                }
            }
            sim_to_render_time.diff = diff;
            let t = scale_time(dt, time_scale);
            StepPlan {
                steps,
                substeps,
                substep_dt: t / substeps as u128,
                integration_dt: dt,
                snapshot_before_last: track_interpolation && steps > 0,
            }
        },
    }
}


/// The fraction `num / den` by which rendering blends from the pose before
/// the last step to the pose after it.
#[derive(Clone, Copy, Debug, PartialEq, Eq, Structural)]
pub struct BlendFraction {
    pub num: i128,
    pub den: u64,
}

impl SimulationToRenderTime {
    /// The blend fraction `(dt + diff) / dt` for steps of `dt` nanoseconds.
    pub fn blend_fraction(&self, dt: u64) -> (r: BlendFraction)
        requires
            dt > 0,
        ensures
            r.num == dt + self.diff,
            r.den == dt,
    {
        BlendFraction { num: dt as i128 + self.diff as i128, den: dt }
    }
}

/// Interpolation bounds. When the accumulated time before a frame lies
/// within one step of zero, the frame's steps leave a blend fraction
/// `(dt + rest) / dt` between 0 and 1. An elapsed time of exactly one step,
/// from an accumulator in `(-dt, 0]`, runs exactly one step, and from a
/// fully drained accumulator it blends fully to the pose after that step.
pub proof fn lemma_blend_fraction_bounds(prev: int, elapsed: int, dt: int, steps: int, rest: int)
    requires
        dt > 0,
        -dt < prev < dt,
        elapsed >= 0,
        steps >= 0,
        drains(prev + elapsed, dt, steps, rest),
    ensures
        0 <= dt + rest <= dt,
        -dt < prev <= 0 && elapsed == dt ==> steps == 1,
        prev == 0 && elapsed == dt ==> rest == 0 && dt + rest == dt,
{
    if steps == 0 {
        assert(steps * dt == 0);
        assert(rest == prev + elapsed);
    }
    if -dt < prev <= 0 && elapsed == dt {
        assert(steps > 0);
        assert(steps == 1) by (nonlinear_arith)
            requires
                dt > 0,
                rest == prev + dt - steps * dt,
                -dt < rest <= 0,
                -dt < prev <= 0,
                steps > 0,
        ;
        assert(steps * dt == dt) by (nonlinear_arith)
            requires
                steps == 1,
        ;
    }
}

/// `floor(t * scale)`.
fn scale_time(t: u64, scale: TimeScale) -> (r: u128)
    requires
        scale.den >= 1,
    ensures
        r == scaled(t as int, scale),
        scale.num <= scale.den ==> r <= t,
{
    assert(t as int * scale.num as int <= u64::MAX as int * u32::MAX as int) by (nonlinear_arith)
        requires
            t <= u64::MAX,
            scale.num <= u32::MAX,
    ;
    let p = t as u128 * scale.num as u128;
    if scale.num <= scale.den {
        assert(t as int * scale.num as int / scale.den as int <= t) by (nonlinear_arith)
            requires
                scale.num <= scale.den,
                scale.den >= 1,
                t >= 0,
        ;
    }
    p / scale.den as u128
}

} // verus!
