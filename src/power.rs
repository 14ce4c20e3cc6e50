use vstd::prelude::*;

verus! {

/// Utilization of a fully busy core, in hundredths of a percent.
pub const FULL_UTILIZATION: u32 = 10_000;

/// Utilization assumed when no core is reported (20 %).
pub const FALLBACK_UTILIZATION: u32 = 2_000;

/// Sum of the per-core utilizations.
pub open spec fn usage_sum(s: Seq<u32>) -> int
    decreases s.len(),
{
    if s.len() == 0 {
        0
    } else {
        usage_sum(s.drop_last()) + s.last()
    }
}

/// Mean utilization over the cores, rounded down; the fallback when there are none.
pub open spec fn average_usage(s: Seq<u32>) -> int {
    if s.len() == 0 {
        FALLBACK_UTILIZATION as int
    } else {
        usage_sum(s) / (s.len() as int)
    }
}

proof fn lemma_usage_sum_bound(s: Seq<u32>)
    requires
        forall|i: int| 0 <= i < s.len() ==> s[i] <= FULL_UTILIZATION,
    ensures
        0 <= usage_sum(s) <= s.len() * FULL_UTILIZATION,
    decreases s.len(),
{
    if s.len() > 0 {
        lemma_usage_sum_bound(s.drop_last());
    }
}

/// Averages per-core utilizations (each at most 100 %) to one figure.
pub fn avg_cpu_usage(usages: &Vec<u32>) -> (r: u32)
    requires
        forall|i: int| 0 <= i < usages@.len() ==> usages@[i] <= FULL_UTILIZATION,
    ensures
        r == average_usage(usages@),
        r <= FULL_UTILIZATION,
{
    let n = usages.len();
    if n == 0 {
        return FALLBACK_UTILIZATION;
    }
    let mut sum: u128 = 0;
    let mut i: usize = 0;
    while i < n
        invariant
            n == usages@.len(),
            0 <= i <= n,
            forall|k: int| 0 <= k < usages@.len() ==> usages@[k] <= FULL_UTILIZATION,
            sum == usage_sum(usages@.subrange(0, i as int)),
            sum <= i * FULL_UTILIZATION,
        decreases n - i,
    {
        proof {
            let s = usages@.subrange(0, i as int + 1);
            assert(s.drop_last() =~= usages@.subrange(0, i as int));
        }
        sum = sum + usages[i] as u128;
        i = i + 1;
    }
    assert(usages@.subrange(0, n as int) =~= usages@);
    proof {
        lemma_usage_sum_bound(usages@);
        assert(usage_sum(usages@) / (n as int) <= FULL_UTILIZATION) by (nonlinear_arith)
            requires
                0 <= usage_sum(usages@) <= n * FULL_UTILIZATION,
                n > 0,
        ;
    }
    (sum / (n as u128)) as u32
}

/// CPU power for a utilization: that share of the CPU's full power, rounded down.
pub fn cpu_power_mw(usage: u32, cpu_tdp_mw: u32) -> (r: u32)
    requires
        usage <= FULL_UTILIZATION,
    ensures
        r == usage * cpu_tdp_mw / (FULL_UTILIZATION as int),
        r <= cpu_tdp_mw,
{
    proof {
        assert(usage * cpu_tdp_mw <= FULL_UTILIZATION * 0xffff_ffffu64) by (nonlinear_arith)
            requires
                usage <= FULL_UTILIZATION,
                cpu_tdp_mw <= 0xffff_ffffu64,
        ;
    }
    let p: u64 = usage as u64 * cpu_tdp_mw as u64;
    proof {
        assert(p <= FULL_UTILIZATION * cpu_tdp_mw) by (nonlinear_arith)
            requires
                p == usage * cpu_tdp_mw,
                usage <= FULL_UTILIZATION,
        ;
        assert((p as int) / (FULL_UTILIZATION as int) <= cpu_tdp_mw) by (nonlinear_arith)
            requires
                0 <= p <= FULL_UTILIZATION * cpu_tdp_mw,
        ;
    }
    (p / FULL_UTILIZATION as u64) as u32
}

/// GPU power: the sensor's reading, or 0 when the GPU cannot be read.
pub open spec fn gpu_reading(reading: Option<u32>) -> int {
    match reading {
        Some(mw) => mw as int,
        None => 0,
    }
}

/// Turns an optional GPU sensor reading into a power figure; an absent GPU draws 0.
pub fn gpu_power_mw(reading: Option<u32>) -> (r: u32)
    ensures
        r == gpu_reading(reading),
{
    match reading {
        Some(mw) => mw,
        None => 0,
    }
}

/// Time to sleep before the next tick: what is left of the period, or 0 on overrun.
pub fn sleep_before_next_tick(period_ms: u64, elapsed_ms: u64) -> (r: u64)
    ensures
        r == if elapsed_ms < period_ms { period_ms - elapsed_ms } else { 0 },
{
    if elapsed_ms < period_ms {
        period_ms - elapsed_ms
    } else {
        0
    }
}

} // verus!
