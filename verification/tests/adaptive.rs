use lane_search::adaptive::{
    clamp_parameters, clamp_pruned, diagnostic_grid, AdaptiveMasks, AdaptiveParameters,
    MinerMetrics, ParameterHandOff, UiMessage, HAND_OFF_PATIENCE, MASK_NARROW_BITS, MASK_WIDEN_BITS,
    PARAMETER_MAX_BITS, PARAMETER_MIN_BITS, PRUNING_MIN_BITS,
};
use lane_search::binary32::Binary32;
use lane_search::binary64::Binary64;
use lane_search::metrics::{gauge_ratio, MetricsHub, StatusBoard, StatusLog, LOG_LINES};

fn b(x: f32) -> Binary32 {
    Binary32::from_bits(x.to_bits())
}

fn f(x: Binary32) -> f32 {
    f32::from_bits(x.to_bits())
}

#[test]
fn bounds_are_the_numbers_they_stand_for() {
    assert_eq!(PARAMETER_MIN_BITS, 0.001f32.to_bits());
    assert_eq!(PARAMETER_MAX_BITS, 1.0f32.to_bits());
    assert_eq!(PRUNING_MIN_BITS, 0.01f32.to_bits());
    assert_eq!(MASK_NARROW_BITS, 0.05f32.to_bits());
    assert_eq!(MASK_WIDEN_BITS, 0.01f32.to_bits());
}

#[test]
fn parameters_stay_within_bounds_for_any_magnitude() {
    let inputs = [0.0f32, -5.0, 0.0005, 0.001, 0.3, 1.0, 1.0001, 7.5e20, f32::INFINITY, f32::MIN];
    for &x in inputs.iter() {
        let r = clamp_parameters(AdaptiveParameters { mask: b(x), prune: b(x), gain: b(x) });
        for got in [f(r.mask), f(r.prune), f(r.gain)] {
            assert!(got >= 0.001 && got <= 1.0);
            assert_eq!(got, x.clamp(0.001, 1.0));
        }
        let r = clamp_pruned(AdaptiveParameters { mask: b(x), prune: b(x), gain: b(x) });
        for got in [f(r.mask), f(r.prune), f(r.gain)] {
            assert_eq!(got, x.clamp(0.01, 1.0));
        }
    }
}

#[test]
fn smoothing_converges_within_bounds() {
    let alpha = 0.2f32;
    for &signal in [0.0f32, 0.5, 1.0, 3.0].iter() {
        let mut p = AdaptiveParameters { mask: b(0.08), prune: b(0.25), gain: b(0.5) };
        let target = signal.clamp(0.001, 1.0);
        let mut distance = [
            (f(p.mask) - target).abs(),
            (f(p.prune) - target).abs(),
            (f(p.gain) - target).abs(),
        ];
        for _ in 0..200 {
            let smoothed = AdaptiveParameters {
                mask: b((1.0 - alpha) * f(p.mask) + alpha * signal),
                prune: b((1.0 - alpha) * f(p.prune) + alpha * signal),
                gain: b((1.0 - alpha) * f(p.gain) + alpha * signal),
            };
            p = clamp_parameters(smoothed);
            let now = [
                (f(p.mask) - target).abs(),
                (f(p.prune) - target).abs(),
                (f(p.gain) - target).abs(),
            ];
            for k in 0..3 {
                assert!(now[k] <= distance[k] + 1e-7);
            }
            distance = now;
            for got in [f(p.mask), f(p.prune), f(p.gain)] {
                assert!(got >= 0.001 && got <= 1.0);
            }
        }
        for k in 0..3 {
            assert!(distance[k] < 1e-4);
        }
    }
}

#[test]
fn a_parameter_that_is_no_number_stays() {
    let r = clamp_parameters(AdaptiveParameters { mask: b(f32::NAN), prune: b(0.5), gain: b(2.0) });
    assert!(f(r.mask).is_nan());
    assert_eq!(f(r.prune), 0.5);
    assert_eq!(f(r.gain), 1.0);
}

#[test]
fn mask_narrows_and_widens() {
    let mut m = AdaptiveMasks::new();
    assert_eq!(m.mask16, 0xffff_ffff);
    m.update_from_telemetry(b(0.06));
    assert_eq!(m.mask16, 0x7fff_ffff);
    m.update_from_telemetry(b(0.06));
    assert_eq!(m.mask16, 0x3fff_ffff);
    m.update_from_telemetry(b(0.03));
    assert_eq!(m.mask16, 0x3fff_ffff);
    m.update_from_telemetry(b(0.05));
    assert_eq!(m.mask16, 0x3fff_ffff);
    m.update_from_telemetry(b(0.01));
    assert_eq!(m.mask16, 0x3fff_ffff);
    m.update_from_telemetry(b(0.005));
    assert_eq!(m.mask16, 0x7fff_ffff);
    m.update_from_telemetry(b(f32::NAN));
    assert_eq!(m.mask16, 0x7fff_ffff);
    let mut m = AdaptiveMasks { mask16: 0x8000_0002 };
    m.update_from_telemetry(b(0.0));
    assert_eq!(m.mask16, 0x0000_0005);
    let mut m = AdaptiveMasks { mask16: 0x8000_0002 };
    m.update_from_telemetry(b(1.0));
    assert_eq!(m.mask16, 0x4000_0001);
}

#[test]
fn diagnostic_grid_adds_levels_with_wrap_around() {
    let posterior = [10u32, 20, 30, 0xffff_fff0];
    let transform = [1u32, 2, 0x20];
    let grid = diagnostic_grid(&posterior, &transform);
    assert_eq!(grid[0], [11, 12, 42, 10]);
    assert_eq!(grid[1], [21, 22, 52, 20]);
    assert_eq!(grid[2], [31, 32, 62, 30]);
    assert_eq!(grid[3], [0xffff_fff1, 0xffff_fff2, 0x10, 0xffff_fff0]);
    assert_eq!(diagnostic_grid(&[], &[]), [[0u32; 4]; 4]);
}

#[test]
fn default_metrics_are_blank() {
    let m = MinerMetrics::default();
    assert_eq!(m.mask.to_bits(), 0);
    assert_eq!(m.prune.to_bits(), 0);
    assert_eq!(m.gain.to_bits(), 0);
    assert_eq!(m.entanglement.to_bits(), 0);
    assert!(m.avg_post.is_empty() && m.avg_fwht.is_empty() && m.avg_cs.is_empty());
    assert_eq!(m.adaptive_factor.to_bits(), 0);
    assert_eq!(m.nibble_tree, [[0u32; 4]; 4]);
    assert_eq!(m.hashrate_mhs.to_bits(), 0);
    assert_eq!(m.total_hashes, 0);
    assert_eq!(m.last_hashrate.to_bits(), 0);
    assert_eq!(m.last_gpu_time.to_bits(), 0);
    assert_eq!(m.last_cycle_time.to_bits(), 0);
    assert!(m.last_debug_flags.is_empty());
    assert!(m.timestamp.elapsed().as_secs() < 60);
    assert_eq!(Binary64::from_bits(1.5f64.to_bits()).to_bits(), 1.5f64.to_bits());
}

#[test]
fn hub_keeps_the_last_snapshot() {
    let mut hub = MetricsHub::new(MinerMetrics::default());
    assert_eq!(hub.received(), 0);
    let mut first = MinerMetrics::default();
    first.total_hashes = 10;
    first.mask = b(0.3);
    let mut second = MinerMetrics::default();
    second.total_hashes = 20;
    second.avg_post = vec![b(0.5)];
    hub.publish(first);
    assert_eq!(hub.latest().total_hashes, 10);
    hub.publish(second.clone());
    assert_eq!(hub.latest().total_hashes, 20);
    assert_eq!(hub.latest().mask.to_bits(), 0);
    assert_eq!(hub.latest().avg_post.len(), 1);
    assert_eq!(hub.received(), 2);
    match UiMessage::Metrics(second) {
        UiMessage::Metrics(m) => assert_eq!(m.total_hashes, 20),
        UiMessage::Status(_) => panic!("a metrics message"),
    }
}

#[test]
fn status_log_keeps_the_last_twelve_lines() {
    assert_eq!(LOG_LINES, 12);
    let mut log = StatusLog::new();
    for i in 0..12 {
        log.push(format!("line {}", i));
        assert_eq!(log.lines().len(), i + 1);
    }
    assert_eq!(log.lines()[0], "line 0");
    log.push("line 12".to_string());
    assert_eq!(log.lines().len(), 12);
    assert_eq!(log.lines()[0], "line 1");
    assert_eq!(log.lines()[11], "line 12");
    for i in 13..40 {
        log.push(format!("line {}", i));
    }
    assert_eq!(log.lines().len(), 12);
    assert_eq!(log.lines()[0], "line 28");
    assert_eq!(log.lines()[11], "line 39");
}

#[test]
fn parameters_are_handed_over_between_cycles_only() {
    let mut hand_off = ParameterHandOff::new();
    assert!(hand_off.take_between_cycles(0).is_none());
    hand_off.submit(AdaptiveParameters { mask: b(0.1), prune: b(0.2), gain: b(0.3) });
    assert!(hand_off.take_between_cycles(2).is_none());
    assert!(hand_off.take_between_cycles(1).is_none());
    hand_off.submit(AdaptiveParameters { mask: b(0.4), prune: b(0.5), gain: b(0.6) });
    let taken = hand_off.take_between_cycles(0).unwrap();
    assert_eq!(f(taken.mask), 0.4);
    assert_eq!(f(taken.prune), 0.5);
    assert_eq!(f(taken.gain), 0.6);
    assert!(hand_off.take_between_cycles(0).is_none());
}

#[test]
fn board_takes_metrics_and_status_lines() {
    let mut board = StatusBoard::new(MinerMetrics::default());
    assert_eq!(board.metrics().total_hashes, 0);
    assert!(board.lines().is_empty());
    let mut m = MinerMetrics::default();
    m.total_hashes = 5;
    board.apply(UiMessage::Metrics(m));
    board.apply(UiMessage::Status("connected".to_string()));
    assert_eq!(board.metrics().total_hashes, 5);
    assert_eq!(board.lines().len(), 1);
    assert_eq!(board.lines()[0], "connected");
    for i in 0..20 {
        board.apply(UiMessage::Status(format!("line {}", i)));
    }
    assert_eq!(board.lines().len(), 12);
    assert_eq!(board.lines()[0], "line 8");
    assert_eq!(board.metrics().total_hashes, 5);
}

#[test]
fn gauge_ratio_lies_between_zero_and_one() {
    for &x in [-1.0f32, -0.0, 0.0, 0.3, 1.0, 1.5, f32::INFINITY, f32::NEG_INFINITY].iter() {
        assert_eq!(f(gauge_ratio(b(x))), x.clamp(0.0, 1.0));
    }
    assert!(f(gauge_ratio(b(f32::NAN))).is_nan());
}

#[test]
fn hand_off_is_overdue_after_its_patience() {
    assert_eq!(HAND_OFF_PATIENCE, 8);
    let mut hand_off = ParameterHandOff::new();
    for _ in 0..20 {
        assert!(hand_off.take_between_cycles(2).is_none());
        assert!(!hand_off.overdue());
    }
    hand_off.submit(AdaptiveParameters { mask: b(0.1), prune: b(0.2), gain: b(0.3) });
    for _ in 0..7 {
        assert!(hand_off.take_between_cycles(1).is_none());
        assert!(!hand_off.overdue());
    }
    hand_off.submit(AdaptiveParameters { mask: b(0.7), prune: b(0.8), gain: b(0.9) });
    assert!(!hand_off.overdue());
    assert!(hand_off.take_between_cycles(1).is_none());
    assert!(hand_off.overdue());
    assert!(hand_off.take_between_cycles(2).is_none());
    assert!(hand_off.overdue());
    let taken = hand_off.take_between_cycles(0).unwrap();
    assert_eq!(f(taken.mask), 0.7);
    assert!(!hand_off.overdue());
    hand_off.submit(AdaptiveParameters { mask: b(0.1), prune: b(0.2), gain: b(0.3) });
    assert!(!hand_off.overdue());
    for _ in 0..8 {
        assert!(hand_off.take_between_cycles(1).is_none());
    }
    assert!(hand_off.overdue());
}
