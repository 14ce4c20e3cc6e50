use joule_agent::baseline::{ema_step, net_power_mw, Baselines};
use joule_agent::config::Config;
use joule_agent::engine::Engine;
use joule_agent::ledger::{Ledger, TakeOutcome};
use joule_agent::power::{avg_cpu_usage, cpu_power_mw, gpu_power_mw, sleep_before_next_tick};
use joule_agent::sample::{integrity_message, report, Sample};

fn standard_engine(idle_gpu_mw: u32, idle_cpu_mw: u32) -> Engine {
    Engine::seeded(Config::standard(), idle_gpu_mw, idle_cpu_mw)
}

#[test]
fn config_rejects_weight_outside_unit_interval() {
    assert!(Config::new(65_000, 0, 1_000, 5_000).is_none());
    assert!(Config::new(65_000, 1_000_001, 1_000, 5_000).is_none());
    assert!(Config::new(65_000, 1_000_000, 1_000, 5_000).is_some());
}

#[test]
fn config_period_from_rate() {
    assert_eq!(Config::new(65_000, 200_000, 1_000, 5_000).unwrap().period_ms, 1_000);
    assert_eq!(Config::new(65_000, 200_000, 3_000, 5_000).unwrap().period_ms, 333);
    assert_eq!(Config::new(65_000, 200_000, 0, 5_000).unwrap().period_ms, 10_000);
    assert_eq!(Config::new(65_000, 200_000, 50, 5_000).unwrap().period_ms, 10_000);
    assert_eq!(Config::new(65_000, 200_000, 2_000_000, 5_000).unwrap().period_ms, 1);
}

#[test]
fn config_standard_values() {
    let c = Config::standard();
    assert_eq!(c, Config::new(65_000, 200_000, 1_000, 5_000).unwrap());
}

#[test]
fn average_usage_of_cores() {
    assert_eq!(avg_cpu_usage(&vec![]), 2_000);
    assert_eq!(avg_cpu_usage(&vec![5_000, 10_000]), 7_500);
    assert_eq!(avg_cpu_usage(&vec![1, 2]), 1);
    assert_eq!(avg_cpu_usage(&vec![10_000; 64]), 10_000);
}

#[test]
fn cpu_power_scales_tdp() {
    assert_eq!(cpu_power_mw(2_000, 65_000), 13_000);
    assert_eq!(cpu_power_mw(10_000, 65_000), 65_000);
    assert_eq!(cpu_power_mw(0, 65_000), 0);
    assert_eq!(cpu_power_mw(3_333, 10), 3);
}

#[test]
fn gpu_power_absent_is_zero() {
    assert_eq!(gpu_power_mw(None), 0);
    assert_eq!(gpu_power_mw(Some(42_000)), 42_000);
}

#[test]
fn sleep_clamps_overrun_to_zero() {
    assert_eq!(sleep_before_next_tick(1_000, 300), 700);
    assert_eq!(sleep_before_next_tick(1_000, 1_000), 0);
    assert_eq!(sleep_before_next_tick(1_000, 1_500), 0);
}

#[test]
fn ema_step_values() {
    assert_eq!(ema_step(20_000, 0, 200_000), 16_000);
    assert_eq!(ema_step(0, 10_000, 200_000), 2_000);
    assert_eq!(ema_step(3, 0, 500_000), 1);
    assert_eq!(ema_step(0, 3, 500_000), 2);
    assert_eq!(ema_step(7, 100, 1_000_000), 100);
    assert_eq!(ema_step(5, 5, 1), 5);
}

#[test]
fn net_power_floors_each_domain() {
    assert_eq!(net_power_mw(30_000, 10_000, 20_000, 15_000), 10_000);
    assert_eq!(net_power_mw(30_000, 20_000, 20_000, 15_000), 15_000);
    assert_eq!(net_power_mw(0, 0, 20_000, 15_000), 0);
    assert_eq!(net_power_mw(u32::MAX, u32::MAX, 0, 0), 2 * u32::MAX as u64);
}

#[test]
fn baselines_learn_only_when_idle() {
    let cfg = Config::standard();
    let mut b = Baselines { gpu_mw: 20_000, cpu_mw: 15_000 };
    b.learn(&cfg, 21_000, 16_000);
    assert_eq!(b, Baselines { gpu_mw: 20_200, cpu_mw: 15_200 });
    let mut busy = Baselines { gpu_mw: 20_000, cpu_mw: 15_000 };
    busy.learn(&cfg, 25_000, 15_000);
    assert_eq!(busy, Baselines { gpu_mw: 20_000, cpu_mw: 15_000 });
}

#[test]
fn idle_baselines_converge_to_reading() {
    let mut e = standard_engine(20_000, 15_000);
    let first = e.tick(21_000, 16_000, 1);
    assert_eq!(first.idle_gpu_mw, 20_200);
    assert_eq!(first.idle_cpu_mw, 15_200);
    assert_eq!(first.net_mw, 1_600);
    let mut prev_gap = 800u32;
    for t in 2..200u64 {
        let s = e.tick(21_000, 16_000, t);
        let gap = 21_000 - s.idle_gpu_mw;
        assert!(gap <= prev_gap);
        prev_gap = gap;
    }
    assert_eq!(e.idle, Baselines { gpu_mw: 21_000, cpu_mw: 16_000 });
    assert_eq!(e.last.net_mw, 0);
}

#[test]
fn busy_readings_never_move_baselines() {
    let mut e = standard_engine(20_000, 15_000);
    for t in 0..500u64 {
        let s = e.tick(60_000, 40_000, t);
        assert_eq!(s.idle_gpu_mw, 20_000);
        assert_eq!(s.idle_cpu_mw, 15_000);
        assert_eq!(s.net_mw, 65_000);
    }
    assert_eq!(e.ledger.balance_uj, 500 * 65_000 * 1_000);
}

#[test]
fn ledger_is_exact_sum_of_net_times_period() {
    let cfg = Config::new(65_000, 200_000, 4_000, 5_000).unwrap();
    assert_eq!(cfg.period_ms, 250);
    let mut e = Engine::seeded(cfg, 20_000, 15_000);
    let readings = [(50_000u32, 15_000u32), (20_000, 30_000), (10_000, 5_000), (45_000, 45_000)];
    let mut expected: u64 = 0;
    for (i, (g, c)) in readings.iter().enumerate() {
        let s = e.tick(*g, *c, i as u64);
        expected += s.net_mw * 250;
        assert_eq!(s.bucket_uj, expected);
    }
    // The third tick is idle, so the baselines learn to 18 W and 13 W before the fourth.
    assert_eq!(e.idle, Baselines { gpu_mw: 18_000, cpu_mw: 13_000 });
    assert_eq!(expected, (30_000 + 15_000 + 0 + 59_000) * 250);
    assert_eq!(e.ledger.balance_uj, expected);
}

#[test]
fn debit_scenario() {
    let mut l = Ledger::with_balance(100_000_000);
    assert_eq!(l.take(30_000_000), TakeOutcome { ok: true, remaining_uj: 70_000_000 });
    assert_eq!(l.take(80_000_000), TakeOutcome { ok: false, remaining_uj: 70_000_000 });
    assert_eq!(l.take(70_000_000), TakeOutcome { ok: true, remaining_uj: 0 });
    assert_eq!(l.balance_uj, 0);
}

#[test]
fn debits_interleaved_with_credits_never_overdraw() {
    let mut l = Ledger::new();
    let mut granted: u64 = 0;
    let mut credited: u64 = 0;
    for round in 0..50u64 {
        l.credit(7);
        credited += 7;
        for amount in [3u64, 5, 11] {
            let before = l.balance_uj;
            let r = l.take(amount + round % 3);
            if r.ok {
                granted += amount + round % 3;
                assert!(before >= amount + round % 3);
            } else {
                assert_eq!(r.remaining_uj, before);
            }
            assert!(granted <= credited);
            assert_eq!(granted + l.balance_uj, credited);
        }
    }
}

#[test]
fn ledger_credit_saturates() {
    let mut l = Ledger::with_balance(u64::MAX - 5);
    l.credit(3);
    assert_eq!(l.balance_uj, u64::MAX - 2);
    l.credit(10);
    assert_eq!(l.balance_uj, u64::MAX);
}

#[test]
fn zero_debit_is_granted_unchanged() {
    let mut l = Ledger::with_balance(0);
    assert_eq!(l.take(0), TakeOutcome { ok: true, remaining_uj: 0 });
}

#[test]
fn engine_take_leaves_snapshot() {
    let mut e = standard_engine(20_000, 15_000);
    let s = e.tick(50_000, 15_000, 9);
    assert_eq!(s.bucket_uj, 30_000_000);
    assert_eq!(e.take(10_000_000), TakeOutcome { ok: true, remaining_uj: 20_000_000 });
    assert_eq!(e.take(25_000_000), TakeOutcome { ok: false, remaining_uj: 20_000_000 });
    assert_eq!(e.last, s);
    assert_eq!(e.sample().sample.bucket_uj, 30_000_000);
}

#[test]
fn snapshot_is_one_tick() {
    let mut e = standard_engine(20_000, 15_000);
    let s = e.tick(50_000, 20_000, 1_700_000_000_123);
    assert_eq!(
        s,
        Sample {
            ts_ms: 1_700_000_000_123,
            gpu_mw: 50_000,
            cpu_mw: 20_000,
            idle_gpu_mw: 20_000,
            idle_cpu_mw: 15_000,
            net_mw: 35_000,
            bucket_uj: 35_000_000,
        }
    );
    assert_eq!(e.last, s);
    assert_eq!(e.last.bucket_uj, e.ledger.balance_uj);
}

#[test]
fn fresh_engine_state() {
    let e = Engine::new(Config::standard());
    assert_eq!(e.idle, Baselines { gpu_mw: 20_000, cpu_mw: 15_000 });
    assert_eq!(e.ledger.balance_uj, 0);
    assert_eq!(e.last, Sample::zero());
    assert_eq!(e.period_ms(), 1_000);
}

#[test]
fn integrity_message_text() {
    assert_eq!(integrity_message(1_500, 70_000_000), b"1.500:70.000000".to_vec());
    assert_eq!(integrity_message(0, 0), b"0.000:0.000000".to_vec());
    assert_eq!(integrity_message(1_700_000_000_005, 1_234_567), b"1700000000.005:1.234567".to_vec());
    assert_eq!(
        integrity_message(u64::MAX, 10),
        format!("{}.{:03}:0.000010", u64::MAX / 1000, u64::MAX % 1000).into_bytes()
    );
}

#[test]
fn report_hash_is_blake3_of_time_and_balance() {
    let s = Sample {
        ts_ms: 1_700_000_000_123,
        gpu_mw: 1,
        cpu_mw: 2,
        idle_gpu_mw: 3,
        idle_cpu_mw: 4,
        net_mw: 5,
        bucket_uj: 70_000_000,
    };
    let r = report(&s);
    assert_eq!(r.sample, s);
    let expected = blake3::hash(b"1700000000.123:70.000000").to_hex().to_string();
    assert_eq!(r.hash, expected);
    assert_eq!(r.hash.len(), 64);
    assert_ne!(r.hash, "1700000000.123:70.000000");
    let other = report(&Sample { bucket_uj: 70_000_001, ..s });
    assert_ne!(other.hash, r.hash);
}

#[test]
fn degraded_gpu_reports_zero_and_idle_drifts_to_zero() {
    let mut e = standard_engine(2_000, 15_000);
    for _ in 0..100 {
        let s = e.record_readings(&vec![2_000, 2_000, 4_000, 0], None, 1_000);
        assert_eq!(s.gpu_mw, 0);
        assert_eq!(s.cpu_mw, 13_000);
        assert_eq!(s.ts_ms, 1_000);
    }
    assert_eq!(e.idle.gpu_mw, 0);
    assert_eq!(e.idle.cpu_mw, 13_000);
}

#[test]
fn record_readings_uses_gpu_sensor() {
    let mut e = standard_engine(20_000, 15_000);
    let s = e.record_readings(&vec![10_000], Some(30_000), 42);
    assert_eq!(s.gpu_mw, 30_000);
    assert_eq!(s.cpu_mw, 65_000);
    assert_eq!(s.net_mw, 60_000);
    assert_eq!(e.sample().sample, s);
}

#[test]
fn integrity_text_matches_served_units() {
    for (ts_ms, bucket_uj) in [(1_700_000_000_123u64, 70_000_000u64), (999, 1), (12_000, 123_456_789)] {
        let served = format!("{:.3}:{:.6}", ts_ms as f64 / 1000.0, bucket_uj as f64 / 1_000_000.0);
        assert_eq!(integrity_message(ts_ms, bucket_uj), served.into_bytes());
    }
}

#[test]
fn ema_step_within_one_milliwatt_of_exact_average() {
    for (old, reading) in [(20_000u32, 21_000u32), (21_000, 20_000), (7, 3), (3, 7), (0, 65_000)] {
        let r = ema_step(old, reading, 200_000) as f64;
        let exact = 0.2 * reading as f64 + 0.8 * old as f64;
        assert!((r - exact).abs() < 1.0);
        if old >= reading {
            assert!(r <= exact + 1e-9 && r >= reading as f64);
        } else {
            assert!(r >= exact - 1e-9 && r <= reading as f64);
        }
    }
}

#[test]
fn baseline_above_reading_never_crosses_it() {
    let mut e = standard_engine(20_000, 15_000);
    let mut prev = 20_000u32;
    for t in 0..60u64 {
        let s = e.tick(19_000, 14_000, t);
        assert!(s.idle_gpu_mw >= 19_000 && s.idle_gpu_mw <= prev);
        assert!(s.idle_cpu_mw >= 14_000);
        prev = s.idle_gpu_mw;
    }
    assert_eq!(e.idle, Baselines { gpu_mw: 19_000, cpu_mw: 14_000 });
}

#[test]
fn ledger_conserves_energy_without_saturation() {
    let mut l = Ledger::with_balance(1_000);
    let mut granted: u64 = 0;
    let mut credits: u64 = 0;
    for (i, amount) in [400u64, 700, 50, 900, 10, 2_000].iter().enumerate() {
        if i % 2 == 1 {
            l.credit(*amount);
            credits += amount;
        } else if l.take(*amount).ok {
            granted += amount;
        }
    }
    assert_eq!(granted + l.balance_uj, 1_000 + credits);
    assert_eq!(granted, 400 + 50 + 10);
}
