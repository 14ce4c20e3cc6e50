use vstd::arithmetic::div_mod::lemma_div_is_ordered_by_denominator;
use vstd::prelude::*;

verus! {

/// Denominator of the smoothing weight: a weight of `WEIGHT_SCALE` is 1.
pub const WEIGHT_SCALE: u32 = 1_000_000;

/// Slowest sampling rate accepted, in millihertz (one tick per ten seconds).
pub const SLOWEST_RATE_MHZ: u64 = 100;

/// Milliseconds in a second, times the millihertz in a hertz.
pub const MILLIS_TIMES_MILLIHERTZ: u64 = 1_000_000;

/// Sampling period in milliseconds for a rate in millihertz: the rate is
/// floored at `SLOWEST_RATE_MHZ`, and the period is never shorter than 1 ms.
pub open spec fn period_for(rate_mhz: int) -> int {
    let rate = if rate_mhz < SLOWEST_RATE_MHZ { SLOWEST_RATE_MHZ as int } else { rate_mhz };
    let p = MILLIS_TIMES_MILLIHERTZ as int / rate;
    if p < 1 { 1 } else { p }
}

/// Settings fixed for the life of the agent.
#[derive(Clone, Copy, Debug, PartialEq, Eq, Structural)]
pub struct Config {
    /// Power of the CPU at full utilization.
    pub cpu_tdp_mw: u32,
    /// Weight of the newest reading in an idle-baseline update, in millionths.
    pub smoothing_ppm: u32,
    /// Nominal time between two ticks; also the `dt` of the integration.
    pub period_ms: u32,
    /// Net power below which the machine counts as idle.
    pub idle_learn_mw: u64,
}

impl Config {
    /// The smoothing weight lies in (0, 1] and the period in [1 ms, 10 s].
    pub open spec fn wf(&self) -> bool {
        &&& 0 < self.smoothing_ppm <= WEIGHT_SCALE
        &&& 1 <= self.period_ms <= MILLIS_TIMES_MILLIHERTZ / SLOWEST_RATE_MHZ
    }

    /// Builds a configuration from a sampling rate in millihertz; `None`
    /// exactly when the smoothing weight is outside (0, 1].
    pub fn new(cpu_tdp_mw: u32, smoothing_ppm: u32, sample_rate_mhz: u64, idle_learn_mw: u64) -> (r:
        Option<Config>)
        ensures
            r is None <==> !(0 < smoothing_ppm <= WEIGHT_SCALE),
            r matches Some(c) ==> {
                &&& c.wf()
                &&& c.cpu_tdp_mw == cpu_tdp_mw
                &&& c.smoothing_ppm == smoothing_ppm
                &&& c.period_ms == period_for(sample_rate_mhz as int)
                &&& c.idle_learn_mw == idle_learn_mw
            },
    {
        if smoothing_ppm == 0 || smoothing_ppm > WEIGHT_SCALE {
            return None;
        }
        let rate: u64 = if sample_rate_mhz < SLOWEST_RATE_MHZ {
            SLOWEST_RATE_MHZ
        } else {
            sample_rate_mhz
        };
        let p: u64 = MILLIS_TIMES_MILLIHERTZ / rate;
        proof {
            lemma_div_is_ordered_by_denominator(
                MILLIS_TIMES_MILLIHERTZ as int,
                SLOWEST_RATE_MHZ as int,
                rate as int,
            );
            assert(MILLIS_TIMES_MILLIHERTZ as int / SLOWEST_RATE_MHZ as int == 10_000);
        }
        let period: u64 = if p < 1 { 1 } else { p };
        Some(Config { cpu_tdp_mw, smoothing_ppm, period_ms: period as u32, idle_learn_mw })
    }

    /// The usual settings: 65 W CPU, weight 0.2, one tick per second, 5 W idle threshold.
    pub fn standard() -> (r: Config)
        ensures
            r.wf(),
            r.cpu_tdp_mw == 65_000,
            r.smoothing_ppm == 200_000,
            r.period_ms == 1_000,
            r.idle_learn_mw == 5_000,
    {
        Config { cpu_tdp_mw: 65_000, smoothing_ppm: 200_000, period_ms: 1_000, idle_learn_mw: 5_000 }
    }
}

} // verus!
