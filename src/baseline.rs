use vstd::arithmetic::div_mod::{lemma_fundamental_div_mod, lemma_mod_pos_bound};
use vstd::arithmetic::power::{lemma_pow_positive, pow};
use vstd::prelude::*;

use crate::config::{Config, WEIGHT_SCALE};

verus! {

/// How far a reading lies above a baseline, or 0 when it does not.
pub open spec fn excess(reading: int, base: int) -> int {
    if reading > base {
        reading - base
    } else {
        0
    }
}

/// Net (workload) power: the excess of each domain over its idle baseline, summed.
pub open spec fn net_power(gpu: int, cpu: int, idle_gpu: int, idle_cpu: int) -> int {
    excess(gpu, idle_gpu) + excess(cpu, idle_cpu)
}

/// A distance scaled by `1 - w`, rounded down.
pub open spec fn shrink(d: int, w: int) -> int {
    (WEIGHT_SCALE - w) * d / (WEIGHT_SCALE as int)
}

/// The exponential moving average `w * reading + (1 - w) * old`, rounded to a
/// whole milliwatt in the direction of the reading.
pub open spec fn ema_toward(old: int, reading: int, w: int) -> int {
    if old >= reading {
        reading + shrink(old - reading, w)
    } else {
        reading - shrink(reading - old, w)
    }
}

/// Scaling a distance by `1 - w` never grows it, and shrinks any positive one.
pub proof fn lemma_shrink(d: int, w: int)
    requires
        0 <= d,
        0 < w <= WEIGHT_SCALE,
    ensures
        0 <= shrink(d, w) <= d,
        d > 0 ==> shrink(d, w) < d,
        (WEIGHT_SCALE as int) * shrink(d, w) <= (WEIGHT_SCALE - w) * d,
{
    let s = WEIGHT_SCALE as int;
    let x = (s - w) * d;
    assert(0 <= x <= s * d) by (nonlinear_arith)
        requires
            x == (s - w) * d,
            0 <= d,
            0 < w <= s,
    ;
    assert(d > 0 ==> x < s * d) by (nonlinear_arith)
        requires
            x == (s - w) * d,
            0 < w <= s,
    ;
    lemma_fundamental_div_mod(x, s);
    lemma_mod_pos_bound(x, s);
    let q = x / s;
    assert(0 <= q <= d && (x < s * d ==> q < d)) by (nonlinear_arith)
        requires
            x == s * q + x % s,
            0 <= x % s < s,
            0 <= x <= s * d,
            s > 0,
    ;
}

/// The average lies between the old baseline and the reading.
pub proof fn lemma_ema_between(old: int, reading: int, w: int)
    requires
        0 < w <= WEIGHT_SCALE,
    ensures
        old >= reading ==> reading <= ema_toward(old, reading, w) <= old,
        old < reading ==> old <= ema_toward(old, reading, w) <= reading,
{
    if old >= reading {
        lemma_shrink(old - reading, w);
    } else {
        lemma_shrink(reading - old, w);
    }
}

/// Distance between two values.
pub open spec fn distance(a: int, b: int) -> int {
    if a >= b {
        a - b
    } else {
        b - a
    }
}

/// A baseline after `n` smoothing steps toward the same reading.
pub open spec fn ema_iter(start: int, reading: int, w: int, n: nat) -> int
    decreases n,
{
    if n == 0 {
        start
    } else {
        ema_toward(ema_iter(start, reading, w, (n - 1) as nat), reading, w)
    }
}

/// One smoothing step scales the distance to the reading by `1 - w`, rounded down.
pub proof fn lemma_ema_distance(old: int, reading: int, w: int)
    requires
        0 < w <= WEIGHT_SCALE,
    ensures
        distance(ema_toward(old, reading, w), reading) == shrink(distance(old, reading), w),
{
    lemma_shrink(distance(old, reading), w);
}

/// Held at one reading, a baseline follows the smoothing recurrence toward it:
/// its distance to the reading never grows, is at most the starting distance
/// times `(1 - w)^n`, drops by at least one milliwatt per step, and so reaches
/// the reading exactly once `n` is at least the starting distance.
pub proof fn lemma_ema_converges(start: int, reading: int, w: int, n: nat)
    requires
        0 < w <= WEIGHT_SCALE,
    ensures
        distance(ema_iter(start, reading, w, n), reading) <= distance(start, reading),
        pow(WEIGHT_SCALE as int, n) * distance(ema_iter(start, reading, w, n), reading) <= pow(
            (WEIGHT_SCALE - w) as int,
            n,
        ) * distance(start, reading),
        distance(ema_iter(start, reading, w, n), reading) <= if n <= distance(start, reading) {
            distance(start, reading) - n
        } else {
            0
        },
        n >= distance(start, reading) ==> ema_iter(start, reading, w, n) == reading,
    decreases n,
{
    reveal(pow);
    if n > 0 {
        let m = (n - 1) as nat;
        lemma_ema_converges(start, reading, w, m);
        let prev = ema_iter(start, reading, w, m);
        let dp = distance(prev, reading);
        let d0 = distance(start, reading);
        lemma_ema_distance(prev, reading, w);
        lemma_shrink(dp, w);
        let dn = shrink(dp, w);
        let s = WEIGHT_SCALE as int;
        let k = (WEIGHT_SCALE - w) as int;
        lemma_pow_positive(s, m);
        assert(pow(s, m) * dn * s <= pow(s, m) * (k * dp)) by (nonlinear_arith)
            requires
                s * dn <= k * dp,
                pow(s, m) > 0,
        ;
        assert(pow(s, m) * (k * dp) == k * (pow(s, m) * dp)) by (nonlinear_arith);
        assert(k * (pow(s, m) * dp) <= k * (pow(k, m) * d0)) by (nonlinear_arith)
            requires
                pow(s, m) * dp <= pow(k, m) * d0,
                k >= 0,
        ;
        assert(pow(s, n) == s * pow(s, m));
        assert(pow(k, n) == k * pow(k, m));
        assert(pow(s, n) * dn == pow(s, m) * dn * s) by (nonlinear_arith)
            requires
                pow(s, n) == s * pow(s, m),
        ;
        assert(pow(k, n) * d0 == k * (pow(k, m) * d0)) by (nonlinear_arith)
            requires
                pow(k, n) == k * pow(k, m),
        ;
    }
}

/// One smoothing step is the exact average `w * reading + (1 - w) * old`
/// (scaled by `WEIGHT_SCALE`), rounded toward the reading by less than 1 mW.
pub proof fn lemma_ema_rounding(old: int, reading: int, w: int)
    requires
        0 < w <= WEIGHT_SCALE,
    ensures
        ({
            let s = WEIGHT_SCALE as int;
            let exact = w * reading + (s - w) * old;
            let e = ema_toward(old, reading, w);
            &&& old >= reading ==> s * e <= exact < s * e + s
            &&& old < reading ==> s * e - s < exact <= s * e
        }),
{
    let s = WEIGHT_SCALE as int;
    let k = s - w;
    let d = distance(old, reading);
    lemma_fundamental_div_mod(k * d, s);
    lemma_mod_pos_bound(k * d, s);
    assert(k * d >= 0) by (nonlinear_arith)
        requires
            k >= 0,
            d >= 0,
    ;
    if old >= reading {
        assert(w * reading + k * old == s * reading + k * d) by (nonlinear_arith)
            requires
                d == old - reading,
                k == s - w,
        ;
    } else {
        assert(w * reading + k * old == s * reading - k * d) by (nonlinear_arith)
            requires
                d == reading - old,
                k == s - w,
        ;
    }
}

/// Held at one reading, a baseline never crosses it, and each step brings it
/// no farther from it.
pub proof fn lemma_ema_no_overshoot(start: int, reading: int, w: int, n: nat)
    requires
        0 < w <= WEIGHT_SCALE,
    ensures
        start >= reading ==> ema_iter(start, reading, w, n) >= reading,
        start <= reading ==> ema_iter(start, reading, w, n) <= reading,
        n > 0 ==> distance(ema_iter(start, reading, w, n), reading) <= distance(
            ema_iter(start, reading, w, (n - 1) as nat),
            reading,
        ),
    decreases n,
{
    if n > 0 {
        let m = (n - 1) as nat;
        lemma_ema_no_overshoot(start, reading, w, m);
        lemma_ema_between(ema_iter(start, reading, w, m), reading, w);
    }
}

/// The rounding costs at most 1 mW per step: after `n` steps the distance to
/// the reading is at least the starting distance times `(1 - w)^n`, less `n`.
pub proof fn lemma_ema_lower_bound(start: int, reading: int, w: int, n: nat)
    requires
        0 < w <= WEIGHT_SCALE,
    ensures
        pow(WEIGHT_SCALE as int, n) * distance(ema_iter(start, reading, w, n), reading) >= pow(
            (WEIGHT_SCALE - w) as int,
            n,
        ) * distance(start, reading) - n * pow(WEIGHT_SCALE as int, n),
    decreases n,
{
    reveal(pow);
    if n > 0 {
        let m = (n - 1) as nat;
        lemma_ema_lower_bound(start, reading, w, m);
        let prev = ema_iter(start, reading, w, m);
        let dp = distance(prev, reading);
        let d0 = distance(start, reading);
        let s = WEIGHT_SCALE as int;
        let k = (WEIGHT_SCALE - w) as int;
        lemma_ema_distance(prev, reading, w);
        let dn = shrink(dp, w);
        lemma_fundamental_div_mod(k * dp, s);
        lemma_mod_pos_bound(k * dp, s);
        assert(k * dp >= 0) by (nonlinear_arith)
            requires
                k >= 0,
                dp >= 0,
        ;
        assert(s * dn >= k * dp - s);
        lemma_pow_positive(s, m);
        let ps = pow(s, m);
        let pk = pow(k, m);
        assert(ps * (s * dn) >= ps * (k * dp - s)) by (nonlinear_arith)
            requires
                s * dn >= k * dp - s,
                ps > 0,
        ;
        assert(k * (ps * dp) >= k * (pk * d0 - m * ps)) by (nonlinear_arith)
            requires
                ps * dp >= pk * d0 - m * ps,
                k >= 0,
        ;
        assert(k * m * ps <= s * m * ps) by (nonlinear_arith)
            requires
                k <= s,
                ps > 0,
        ;
        let psn = pow(s, n);
        let pkn = pow(k, n);
        assert(psn == s * ps);
        assert(pkn == k * pk);
        assert(psn * dn == ps * (s * dn)) by (nonlinear_arith)
            requires
                psn == s * ps,
        ;
        assert(ps * (k * dp - s) == k * (ps * dp) - psn) by (nonlinear_arith)
            requires
                psn == s * ps,
        ;
        assert(k * (pk * d0 - m * ps) == pkn * d0 - k * m * ps) by (nonlinear_arith)
            requires
                pkn == k * pk,
        ;
        assert(s * m * ps == m * psn) by (nonlinear_arith)
            requires
                psn == s * ps,
        ;
        assert(n * psn == m * psn + psn) by (nonlinear_arith)
            requires
                n == m + 1,
        ;
    }
}

/// Computes `net_power` on machine integers.
pub fn net_power_mw(gpu_mw: u32, cpu_mw: u32, idle_gpu_mw: u32, idle_cpu_mw: u32) -> (r: u64)
    ensures
        r == net_power(gpu_mw as int, cpu_mw as int, idle_gpu_mw as int, idle_cpu_mw as int),
{
    let g: u64 = if gpu_mw > idle_gpu_mw {
        (gpu_mw - idle_gpu_mw) as u64
    } else {
        0
    };
    let c: u64 = if cpu_mw > idle_cpu_mw {
        (cpu_mw - idle_cpu_mw) as u64
    } else {
        0
    };
    g + c
}

/// One step of the smoothed average of a baseline toward a reading.
pub fn ema_step(old: u32, reading: u32, smoothing_ppm: u32) -> (r: u32)
    requires
        0 < smoothing_ppm <= WEIGHT_SCALE,
    ensures
        r == ema_toward(old as int, reading as int, smoothing_ppm as int),
{
    let keep: u64 = (WEIGHT_SCALE - smoothing_ppm) as u64;
    let d: u64 = if old >= reading {
        (old - reading) as u64
    } else {
        (reading - old) as u64
    };
    proof {
        assert(keep * d <= (WEIGHT_SCALE as int) * 0xffff_ffffu64) by (nonlinear_arith)
            requires
                keep <= WEIGHT_SCALE,
                d <= 0xffff_ffffu64,
        ;
        lemma_shrink(d as int, smoothing_ppm as int);
    }
    let s: u64 = keep * d / WEIGHT_SCALE as u64;
    if old >= reading {
        reading + s as u32
    } else {
        reading - s as u32
    }
}

/// Idle power of each domain, in milliwatts.
#[derive(Clone, Copy, Debug, PartialEq, Eq, Structural)]
pub struct Baselines {
    pub gpu_mw: u32,
    pub cpu_mw: u32,
}

/// Baselines after one tick's readings: both move by one smoothing step when
/// the net power over the current baselines is below the idle threshold, and
/// neither moves otherwise.
pub open spec fn learned(b: Baselines, cfg: Config, gpu_mw: u32, cpu_mw: u32) -> Baselines {
    if net_power(gpu_mw as int, cpu_mw as int, b.gpu_mw as int, b.cpu_mw as int)
        < cfg.idle_learn_mw {
        Baselines {
            gpu_mw: ema_toward(b.gpu_mw as int, gpu_mw as int, cfg.smoothing_ppm as int) as u32,
            cpu_mw: ema_toward(b.cpu_mw as int, cpu_mw as int, cfg.smoothing_ppm as int) as u32,
        }
    } else {
        b
    }
}

impl Baselines {
    /// Decides on the pre-update baselines whether the machine is idle, and if
    /// so moves both baselines toward the readings.
    pub fn learn(&mut self, cfg: &Config, gpu_mw: u32, cpu_mw: u32)
        requires
            cfg.wf(),
        ensures
            *final(self) == learned(*old(self), *cfg, gpu_mw, cpu_mw),
    {
        let net = net_power_mw(gpu_mw, cpu_mw, self.gpu_mw, self.cpu_mw);
        if net < cfg.idle_learn_mw {
            self.gpu_mw = ema_step(self.gpu_mw, gpu_mw, cfg.smoothing_ppm);
            self.cpu_mw = ema_step(self.cpu_mw, cpu_mw, cfg.smoothing_ppm);
        }
    }
}

} // verus!
