use vstd::prelude::*;

use vstd::arithmetic::power::pow;

use crate::baseline::{
    distance, ema_iter, ema_toward, excess, learned, lemma_ema_between, lemma_ema_converges,
    lemma_ema_lower_bound, lemma_ema_no_overshoot, net_power, net_power_mw, Baselines,
};
use crate::config::{Config, WEIGHT_SCALE};
use crate::ledger::{credited, debited, Ledger, TakeOutcome};
use crate::power::{
    average_usage, avg_cpu_usage, cpu_power_mw, gpu_power_mw, gpu_reading, FULL_UTILIZATION,
};
use crate::sample::{blake3_hex_of, integrity_text, report, Sample, SampleReport};

verus! {

/// Idle GPU baseline before anything was learned.
pub const SEED_IDLE_GPU_MW: u32 = 20_000;

/// Idle CPU baseline before anything was learned.
pub const SEED_IDLE_CPU_MW: u32 = 15_000;

/// The accounting state: settings, idle baselines, ledger and last snapshot.
/// Every mutation takes `&mut self`, so a caller that shares the engine behind
/// one lock gets each tick, debit and read as one indivisible step.
#[derive(Clone, Copy, Debug, PartialEq, Eq, Structural)]
pub struct Engine {
    pub cfg: Config,
    pub idle: Baselines,
    pub ledger: Ledger,
    pub last: Sample,
}

/// The engine after one tick with the given readings, stamped `ts_ms`: the
/// baselines learn (deciding on their old values), the net power is taken
/// over the new baselines, its energy over the nominal period is credited,
/// and the snapshot is replaced as a whole.
pub open spec fn ticked(e: Engine, gpu_mw: u32, cpu_mw: u32, ts_ms: u64) -> Engine {
    let b = learned(e.idle, e.cfg, gpu_mw, cpu_mw);
    let net = net_power(gpu_mw as int, cpu_mw as int, b.gpu_mw as int, b.cpu_mw as int);
    let bucket = credited(e.ledger.balance_uj, (net * e.cfg.period_ms) as u64);
    Engine {
        cfg: e.cfg,
        idle: b,
        ledger: Ledger { balance_uj: bucket },
        last: Sample {
            ts_ms,
            gpu_mw,
            cpu_mw,
            idle_gpu_mw: b.gpu_mw,
            idle_cpu_mw: b.cpu_mw,
            net_mw: net as u64,
            bucket_uj: bucket,
        },
    }
}

impl Engine {
    pub open spec fn wf(&self) -> bool {
        self.cfg.wf()
    }

    /// A fresh engine: seeded baselines, empty ledger, all-zero snapshot.
    pub fn new(cfg: Config) -> (r: Engine)
        requires
            cfg.wf(),
        ensures
            r.wf(),
            r.cfg == cfg,
            r.idle == (Baselines { gpu_mw: SEED_IDLE_GPU_MW, cpu_mw: SEED_IDLE_CPU_MW }),
            r.ledger.balance_uj == 0,
            r.last == Sample::zero_spec(),
    {
        Engine::seeded(cfg, SEED_IDLE_GPU_MW, SEED_IDLE_CPU_MW)
    }

    /// A fresh engine whose baselines start at the given values.
    pub fn seeded(cfg: Config, idle_gpu_mw: u32, idle_cpu_mw: u32) -> (r: Engine)
        requires
            cfg.wf(),
        ensures
            r.wf(),
            r.cfg == cfg,
            r.idle == (Baselines { gpu_mw: idle_gpu_mw, cpu_mw: idle_cpu_mw }),
            r.ledger.balance_uj == 0,
            r.last == Sample::zero_spec(),
    {
        Engine {
            cfg,
            idle: Baselines { gpu_mw: idle_gpu_mw, cpu_mw: idle_cpu_mw },
            ledger: Ledger::new(),
            last: Sample::zero(),
        }
    }

    /// One tick of the sampler with the given readings and time.
    pub fn tick(&mut self, gpu_mw: u32, cpu_mw: u32, ts_ms: u64) -> (r: Sample)
        requires
            old(self).wf(),
        ensures
            *final(self) == ticked(*old(self), gpu_mw, cpu_mw, ts_ms),
            r == final(self).last,
    {
        self.idle.learn(&self.cfg, gpu_mw, cpu_mw);
        let net = net_power_mw(gpu_mw, cpu_mw, self.idle.gpu_mw, self.idle.cpu_mw);
        proof {
            assert(net * self.cfg.period_ms <= 0x2_0000_0000u64 * 10_000) by (nonlinear_arith)
                requires
                    net <= 0x2_0000_0000u64,
                    self.cfg.period_ms <= 10_000,
            ;
        }
        self.ledger.credit(net * self.cfg.period_ms as u64);
        self.last = Sample {
            ts_ms,
            gpu_mw,
            cpu_mw,
            idle_gpu_mw: self.idle.gpu_mw,
            idle_cpu_mw: self.idle.cpu_mw,
            net_mw: net,
            bucket_uj: self.ledger.balance_uj,
        };
        self.last
    }

    /// One tick from raw readings: per-core utilizations (hundredths of a
    /// percent) and the GPU sensor's reading, absent when the GPU cannot be
    /// read, stamped `ts_ms`.
    pub fn record_readings(
        &mut self,
        core_usages: &Vec<u32>,
        gpu_sensor_mw: Option<u32>,
        ts_ms: u64,
    ) -> (r: Sample)
        requires
            old(self).wf(),
            forall|i: int| 0 <= i < core_usages@.len() ==> core_usages@[i] <= FULL_UTILIZATION,
        ensures
            *final(self) == ticked(
                *old(self),
                gpu_reading(gpu_sensor_mw) as u32,
                (average_usage(core_usages@) * old(self).cfg.cpu_tdp_mw / (
                FULL_UTILIZATION as int)) as u32,
                ts_ms,
            ),
            r == final(self).last,
    {
        let usage = avg_cpu_usage(core_usages);
        let cpu_mw = cpu_power_mw(usage, self.cfg.cpu_tdp_mw);
        let gpu_mw = gpu_power_mw(gpu_sensor_mw);
        self.tick(gpu_mw, cpu_mw, ts_ms)
    }

    /// The last snapshot with its integrity token; changes nothing.
    pub fn sample(&self) -> (r: SampleReport)
        ensures
            r.sample == self.last,
            r.hash@ == blake3_hex_of(integrity_text(self.last.ts_ms, self.last.bucket_uj)),
    {
        report(&self.last)
    }

    /// Debits the ledger when it covers the amount; nothing else changes.
    pub fn take(&mut self, amount_uj: u64) -> (r: TakeOutcome)
        ensures
            (final(self).ledger.balance_uj, r) == debited(old(self).ledger.balance_uj, amount_uj),
            r.ok <==> old(self).ledger.balance_uj >= amount_uj,
            final(self).cfg == old(self).cfg,
            final(self).idle == old(self).idle,
            final(self).last == old(self).last,
    {
        self.ledger.take(amount_uj)
    }

    /// The nominal sampling period, for the loop that drives the ticks.
    pub fn period_ms(&self) -> (r: u64)
        ensures
            r == self.cfg.period_ms,
    {
        self.cfg.period_ms as u64
    }
}

/// The engine after `n` ticks with the same readings and time stamp.
pub open spec fn run_ticks(e: Engine, gpu_mw: u32, cpu_mw: u32, ts_ms: u64, n: nat) -> Engine
    decreases n,
{
    if n == 0 {
        e
    } else {
        ticked(run_ticks(e, gpu_mw, cpu_mw, ts_ms, (n - 1) as nat), gpu_mw, cpu_mw, ts_ms)
    }
}

/// The readings and time stamp of one tick.
#[derive(Clone, Copy, Debug, PartialEq, Eq, Structural)]
pub struct Reading {
    pub gpu_mw: u32,
    pub cpu_mw: u32,
    pub ts_ms: u64,
}

/// The engine after one tick per reading, in order.
pub open spec fn replay_ticks(e: Engine, rs: Seq<Reading>) -> Engine
    decreases rs.len(),
{
    if rs.len() == 0 {
        e
    } else {
        ticked(replay_ticks(e, rs.drop_last()), rs.last().gpu_mw, rs.last().cpu_mw, rs.last().ts_ms)
    }
}

/// The sum over those ticks of the published net power times the nominal period.
pub open spec fn integrated_energy(e: Engine, rs: Seq<Reading>) -> int
    decreases rs.len(),
{
    if rs.len() == 0 {
        0
    } else {
        integrated_energy(e, rs.drop_last()) + replay_ticks(e, rs).last.net_mw * e.cfg.period_ms
    }
}

/// Moving a baseline toward its reading never raises that domain's excess.
proof fn lemma_excess_shrinks(base: u32, reading: u32, w: int)
    requires
        0 < w <= WEIGHT_SCALE,
    ensures
        ema_toward(base as int, reading as int, w) as u32 == ema_toward(base as int, reading as int, w),
        excess(reading as int, ema_toward(base as int, reading as int, w)) <= excess(reading as int, base as int),
{
    lemma_ema_between(base as int, reading as int, w);
}

/// Readings held with the machine idle (net power over the baselines below
/// the learning threshold): every tick learns, each baseline follows the
/// smoothing recurrence toward its reading exactly, never crossing it, the
/// net power never rises, and each baseline equals its reading once the
/// number of ticks reaches the starting distance between them in milliwatts.
pub proof fn lemma_idle_convergence(e: Engine, gpu_mw: u32, cpu_mw: u32, ts_ms: u64, n: nat)
    requires
        e.wf(),
        net_power(gpu_mw as int, cpu_mw as int, e.idle.gpu_mw as int, e.idle.cpu_mw as int)
            < e.cfg.idle_learn_mw,
    ensures
        run_ticks(e, gpu_mw, cpu_mw, ts_ms, n).cfg == e.cfg,
        run_ticks(e, gpu_mw, cpu_mw, ts_ms, n).idle.gpu_mw == ema_iter(
            e.idle.gpu_mw as int,
            gpu_mw as int,
            e.cfg.smoothing_ppm as int,
            n,
        ),
        run_ticks(e, gpu_mw, cpu_mw, ts_ms, n).idle.cpu_mw == ema_iter(
            e.idle.cpu_mw as int,
            cpu_mw as int,
            e.cfg.smoothing_ppm as int,
            n,
        ),
        net_power(
            gpu_mw as int,
            cpu_mw as int,
            run_ticks(e, gpu_mw, cpu_mw, ts_ms, n).idle.gpu_mw as int,
            run_ticks(e, gpu_mw, cpu_mw, ts_ms, n).idle.cpu_mw as int,
        ) <= net_power(gpu_mw as int, cpu_mw as int, e.idle.gpu_mw as int, e.idle.cpu_mw as int),
        e.idle.gpu_mw >= gpu_mw ==> run_ticks(e, gpu_mw, cpu_mw, ts_ms, n).idle.gpu_mw >= gpu_mw,
        e.idle.gpu_mw <= gpu_mw ==> run_ticks(e, gpu_mw, cpu_mw, ts_ms, n).idle.gpu_mw <= gpu_mw,
        e.idle.cpu_mw >= cpu_mw ==> run_ticks(e, gpu_mw, cpu_mw, ts_ms, n).idle.cpu_mw >= cpu_mw,
        e.idle.cpu_mw <= cpu_mw ==> run_ticks(e, gpu_mw, cpu_mw, ts_ms, n).idle.cpu_mw <= cpu_mw,
        n >= distance(e.idle.gpu_mw as int, gpu_mw as int) ==> run_ticks(
            e,
            gpu_mw,
            cpu_mw,
            ts_ms,
            n,
        ).idle.gpu_mw == gpu_mw,
        n >= distance(e.idle.cpu_mw as int, cpu_mw as int) ==> run_ticks(
            e,
            gpu_mw,
            cpu_mw,
            ts_ms,
            n,
        ).idle.cpu_mw == cpu_mw,
    decreases n,
{
    let w = e.cfg.smoothing_ppm as int;
    lemma_ema_converges(e.idle.gpu_mw as int, gpu_mw as int, w, n);
    lemma_ema_converges(e.idle.cpu_mw as int, cpu_mw as int, w, n);
    lemma_ema_no_overshoot(e.idle.gpu_mw as int, gpu_mw as int, w, n);
    lemma_ema_no_overshoot(e.idle.cpu_mw as int, cpu_mw as int, w, n);
    if n > 0 {
        let m = (n - 1) as nat;
        lemma_idle_convergence(e, gpu_mw, cpu_mw, ts_ms, m);
        let p = run_ticks(e, gpu_mw, cpu_mw, ts_ms, m);
        lemma_excess_shrinks(p.idle.gpu_mw, gpu_mw, w);
        lemma_excess_shrinks(p.idle.cpu_mw, cpu_mw, w);
    }
}

/// Readings whose net power is at or above the learning threshold leave both
/// baselines unchanged, however many ticks they are held, and every such tick
/// publishes that same net power.
pub proof fn lemma_busy_baselines_fixed(e: Engine, gpu_mw: u32, cpu_mw: u32, ts_ms: u64, n: nat)
    requires
        e.wf(),
        net_power(gpu_mw as int, cpu_mw as int, e.idle.gpu_mw as int, e.idle.cpu_mw as int)
            >= e.cfg.idle_learn_mw,
    ensures
        run_ticks(e, gpu_mw, cpu_mw, ts_ms, n).idle == e.idle,
        run_ticks(e, gpu_mw, cpu_mw, ts_ms, n).cfg == e.cfg,
        n > 0 ==> run_ticks(e, gpu_mw, cpu_mw, ts_ms, n).last.net_mw == net_power(
            gpu_mw as int,
            cpu_mw as int,
            e.idle.gpu_mw as int,
            e.idle.cpu_mw as int,
        ),
    decreases n,
{
    if n > 0 {
        let m = (n - 1) as nat;
        lemma_busy_baselines_fixed(e, gpu_mw, cpu_mw, ts_ms, m);
        lemma_tick_energy(run_ticks(e, gpu_mw, cpu_mw, ts_ms, m), gpu_mw, cpu_mw, ts_ms);
    }
}

/// One tick publishes the net power over the baselines as they stand after
/// that tick's learning, and credits the ledger with it times the nominal
/// period, however long the tick really took: exactly, whenever the balance
/// leaves room for it.
pub proof fn lemma_tick_energy(e: Engine, gpu_mw: u32, cpu_mw: u32, ts_ms: u64)
    requires
        e.wf(),
    ensures
        ({
            let f = ticked(e, gpu_mw, cpu_mw, ts_ms);
            let net = net_power(gpu_mw as int, cpu_mw as int, f.idle.gpu_mw as int, f.idle.cpu_mw as int);
            &&& f.last.net_mw == net
            &&& 0 <= net * e.cfg.period_ms <= u64::MAX
            &&& f.ledger.balance_uj == credited(e.ledger.balance_uj, (f.last.net_mw * e.cfg.period_ms) as u64)
            &&& f.ledger.balance_uj >= e.ledger.balance_uj
            &&& e.ledger.balance_uj + f.last.net_mw * e.cfg.period_ms <= u64::MAX
                ==> f.ledger.balance_uj == e.ledger.balance_uj + f.last.net_mw * e.cfg.period_ms
        }),
{
    let f = ticked(e, gpu_mw, cpu_mw, ts_ms);
    let net = net_power(gpu_mw as int, cpu_mw as int, f.idle.gpu_mw as int, f.idle.cpu_mw as int);
    assert(0 <= net <= 0x2_0000_0000int);
    assert(0 <= net * e.cfg.period_ms <= 0x2_0000_0000int * 10_000) by (nonlinear_arith)
        requires
            0 <= net <= 0x2_0000_0000int,
            0 <= e.cfg.period_ms <= 10_000,
    ;
}

/// Over any sequence of readings, as long as the total fits the ledger, the
/// ledger grows by exactly the sum of each tick's published net power times
/// the nominal period.
pub proof fn lemma_integration(e: Engine, rs: Seq<Reading>)
    requires
        e.wf(),
        e.ledger.balance_uj + integrated_energy(e, rs) <= u64::MAX,
    ensures
        replay_ticks(e, rs).cfg == e.cfg,
        integrated_energy(e, rs) >= 0,
        replay_ticks(e, rs).ledger.balance_uj == e.ledger.balance_uj + integrated_energy(e, rs),
        replay_ticks(e, rs).ledger.balance_uj >= e.ledger.balance_uj,
    decreases rs.len(),
{
    if rs.len() > 0 {
        let prev = rs.drop_last();
        let p = replay_ticks(e, prev);
        let r = rs.last();
        let f = replay_ticks(e, rs);
        assert(0 <= f.last.net_mw * e.cfg.period_ms) by (nonlinear_arith);
        lemma_integration_nonneg(e, prev);
        lemma_integration(e, prev);
        lemma_tick_energy(p, r.gpu_mw, r.cpu_mw, r.ts_ms);
    }
}

/// The integrated energy is never negative.
proof fn lemma_integration_nonneg(e: Engine, rs: Seq<Reading>)
    ensures
        integrated_energy(e, rs) >= 0,
    decreases rs.len(),
{
    if rs.len() > 0 {
        let f = replay_ticks(e, rs);
        assert(0 <= f.last.net_mw * e.cfg.period_ms) by (nonlinear_arith);
        lemma_integration_nonneg(e, rs.drop_last());
    }
}

/// A tick publishes its snapshot as one value: the balance in it is the
/// ledger's balance right after that same tick, stamped with that tick's time,
/// beside the baselines and net power of that tick.
pub proof fn lemma_snapshot_consistent(e: Engine, gpu_mw: u32, cpu_mw: u32, ts_ms: u64)
    requires
        e.wf(),
    ensures
        ({
            let f = ticked(e, gpu_mw, cpu_mw, ts_ms);
            &&& f.last.ts_ms == ts_ms
            &&& f.last.bucket_uj == f.ledger.balance_uj
            &&& f.last.gpu_mw == gpu_mw
            &&& f.last.cpu_mw == cpu_mw
            &&& f.last.idle_gpu_mw == f.idle.gpu_mw
            &&& f.last.idle_cpu_mw == f.idle.cpu_mw
            &&& f.last.net_mw == net_power(
                gpu_mw as int,
                cpu_mw as int,
                f.idle.gpu_mw as int,
                f.idle.cpu_mw as int,
            )
        }),
{
    lemma_tick_energy(e, gpu_mw, cpu_mw, ts_ms);
}

/// With the GPU unreadable, every tick publishes 0 mW for it; left idle, the
/// GPU baseline never rises from one tick to the next, stays within `n` mW of
/// its start times `(1 - w)^n` (never above it), and reaches 0 once the number
/// of ticks reaches its starting value in milliwatts.
pub proof fn lemma_degraded_gpu(e: Engine, cpu_mw: u32, ts_ms: u64, n: nat)
    requires
        e.wf(),
        net_power(gpu_reading(None), cpu_mw as int, e.idle.gpu_mw as int, e.idle.cpu_mw as int)
            < e.cfg.idle_learn_mw,
    ensures
        n > 0 ==> run_ticks(e, gpu_reading(None) as u32, cpu_mw, ts_ms, n).last.gpu_mw == 0,
        run_ticks(e, gpu_reading(None) as u32, cpu_mw, ts_ms, n).idle.gpu_mw <= e.idle.gpu_mw,
        pow(WEIGHT_SCALE as int, n) * run_ticks(e, gpu_reading(None) as u32, cpu_mw, ts_ms, n).idle.gpu_mw
            <= pow((WEIGHT_SCALE - e.cfg.smoothing_ppm) as int, n) * e.idle.gpu_mw,
        pow(WEIGHT_SCALE as int, n) * run_ticks(e, gpu_reading(None) as u32, cpu_mw, ts_ms, n).idle.gpu_mw
            >= pow((WEIGHT_SCALE - e.cfg.smoothing_ppm) as int, n) * e.idle.gpu_mw - n * pow(
            WEIGHT_SCALE as int,
            n,
        ),
        n > 0 ==> run_ticks(e, gpu_reading(None) as u32, cpu_mw, ts_ms, n).idle.gpu_mw <= run_ticks(
            e,
            gpu_reading(None) as u32,
            cpu_mw,
            ts_ms,
            (n - 1) as nat,
        ).idle.gpu_mw,
        n >= e.idle.gpu_mw ==> run_ticks(e, gpu_reading(None) as u32, cpu_mw, ts_ms, n).idle.gpu_mw
            == 0,
{
    let w = e.cfg.smoothing_ppm as int;
    lemma_idle_convergence(e, 0, cpu_mw, ts_ms, n);
    lemma_ema_converges(e.idle.gpu_mw as int, 0, w, n);
    lemma_ema_lower_bound(e.idle.gpu_mw as int, 0, w, n);
    lemma_ema_no_overshoot(e.idle.gpu_mw as int, 0, w, n);
    if n > 0 {
        lemma_idle_convergence(e, 0, cpu_mw, ts_ms, (n - 1) as nat);
    }
}

} // verus!
