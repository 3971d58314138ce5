use vstd::prelude::*;

verus! {

/// Stage of a workout session.
#[derive(Debug, Clone, Copy, PartialEq, Eq, Structural)]
pub enum FitnessPhase {
    WarmUp,
    Peak,
    Recovery,
}

/// Active time, in microseconds, at which the warm-up ends.
pub const WARM_UP_END_MICROS: u64 = 45_000_000;

/// Active time, in microseconds, at which the peak ends.
pub const PEAK_END_MICROS: u64 = 150_000_000;

/// Session metrics of fitness mode. The active time is in microseconds and the
/// effort score in tenths of a point, held at the top of `u64`.
#[derive(Debug, Clone, Copy, PartialEq, Eq, Structural)]
pub struct FitnessMetrics {
    pub swings_performed: u32,
    pub force_pushes_performed: u32,
    pub active_time_micros: u64,
    pub successful_actions: u32,
    pub best_combo: u32,
    pub effort_tenths: u64,
    pub phase: FitnessPhase,
}

/// The phase that a session is in after the given active time.
pub open spec fn phase_for(active_time_micros: u64) -> FitnessPhase {
    if active_time_micros < WARM_UP_END_MICROS {
        FitnessPhase::WarmUp
    } else if active_time_micros < PEAK_END_MICROS {
        FitnessPhase::Peak
    } else {
        FitnessPhase::Recovery
    }
}

impl Default for FitnessMetrics {
    fn default() -> (metrics: Self)
        ensures
            metrics == (FitnessMetrics {
                swings_performed: 0,
                force_pushes_performed: 0,
                active_time_micros: 0,
                successful_actions: 0,
                best_combo: 0,
                effort_tenths: 0,
                phase: FitnessPhase::WarmUp,
            }),
    {
        FitnessMetrics {
            swings_performed: 0,
            force_pushes_performed: 0,
            active_time_micros: 0,
            successful_actions: 0,
            best_combo: 0,
            effort_tenths: 0,
            phase: FitnessPhase::WarmUp,
        }
    }
}

} // verus!
