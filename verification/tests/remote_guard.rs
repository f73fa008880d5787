use le_grinder::fixed::{NANO, PICO};
use le_grinder::remote_guard::{decode_wiretick, RemoteState};

fn nano(x: f64) -> i64 {
    (x * 1e9).round() as i64
}

fn pico(x: f64) -> i64 {
    (x * 1e12).round() as i64
}

fn encode(seq: u64, spot: f64, sigma: f64, drift: f64, obi: f64, vel: f64, imp: f64) -> [u8; 73] {
    let mut b = [0u8; 73];
    b[0] = 0x54;
    let words = [
        seq,
        1_784_000_000_000u64,
        spot.to_bits(),
        sigma.to_bits(),
        drift.to_bits(),
        0.5f64.to_bits(),
        obi.to_bits(),
        vel.to_bits(),
        imp.to_bits(),
    ];
    for (i, v) in words.iter().enumerate() {
        b[1 + i * 8..9 + i * 8].copy_from_slice(&v.to_le_bytes());
    }
    b
}

#[test]
fn wiretick_decode_full_and_short() {
    let b = encode(42, 64000.5, 0.8, -1.2e-5, -0.3, 12.0, 4.2e-4);
    let v = decode_wiretick(&b).expect("73 o");
    assert_eq!(v.seq, 42);
    assert_eq!(f64::from_bits(v.spot), 64000.5);
    assert_eq!(f64::from_bits(v.drift), -1.2e-5);
    assert_eq!(f64::from_bits(v.obi), -0.3, "obi");
    assert_eq!(f64::from_bits(v.impulse), 4.2e-4, "impulse");
    let v = decode_wiretick(&b[..65]).expect("65 o");
    assert_eq!(f64::from_bits(v.impulse), 0.0);
    assert!(decode_wiretick(&b[..64]).is_none());
    let mut bad = b;
    bad[0] = 0x48;
    assert!(decode_wiretick(&bad).is_none());
}

#[test]
fn remote_state_maps_to_guard_state() {
    let r = RemoteState {
        ts_ms_local: 1000,
        spot: 64000 * NANO,
        sigma: nano(0.6),
        drift: pico(2e-5),
        obi: nano(0.1),
        velocity: 3 * NANO,
        kill_until_ms: 2000,
        ..RemoteState::new()
    };
    let gs = r.as_guard_state(1500);
    assert!(gs.kill, "kill latché");
    assert!(!r.as_guard_state(2500).kill, "latch expiré");
    assert_eq!(gs.spot, 64000 * NANO);
    assert!(gs.is_fresh(1600, 1000));
}

#[test]
fn every_word_of_a_tick_is_read_back() {
    let v = decode_wiretick(&encode(7, 60000.0, 0.25, 3e-5, 0.75, -8.5, 1e-3)).unwrap();
    assert_eq!(v.ts_ms, 1_784_000_000_000);
    assert_eq!(f64::from_bits(v.sigma), 0.25);
    assert_eq!(f64::from_bits(v.velocity), -8.5);
    let mut r = RemoteState::new();
    assert!(r.on_datagram(&encode(7, 60000.0, 0.25, 3e-5, 0.75, -8.5, 1e-3), 1000, 5000));
    assert_eq!((r.spot, r.sigma, r.obi, r.velocity), (nano(60000.0), nano(0.25), nano(0.75), nano(-8.5)));
    assert_eq!(r.drift, 30 * PICO / 1_000_000);
    assert_eq!((f64::from_bits(r.ofi), f64::from_bits(r.impulse)), (0.5, 1e-3));
}

#[test]
fn every_datagram_of_the_right_form_is_a_tick() {
    for spot in [f64::NAN, f64::INFINITY, -1e300, 2147483648.0] {
        let b = encode(1, spot, 0.8, 0.0, 0.0, 0.0, 0.0);
        assert_eq!(decode_wiretick(&b).unwrap().spot, spot.to_bits());
        let mut longer = b.to_vec();
        longer.extend([9, 9]);
        longer[41] = 7;
        assert_eq!(decode_wiretick(&longer), decode_wiretick(&b));
    }
}

#[test]
fn readings_out_of_range_are_brought_into_it() {
    for (spot, kept) in [(f64::NAN, 0), (f64::INFINITY, 1e18 as i64), (-1e300, -1e18 as i64), (2147483648.0, 1e18 as i64)] {
        let mut r = RemoteState::new();
        assert!(r.on_datagram(&encode(1, spot, 0.8, 0.0, 0.0, 0.0, 0.0), 1000, 5000));
        assert_eq!(r.spot, kept);
        assert_eq!(r.sigma, nano(0.8));
    }
}

#[test]
fn a_first_tick_with_the_number_zero_is_taken_once() {
    let mut r = RemoteState::new();
    assert!(r.on_datagram(&encode(0, 100.0, 0.5, 0.0, 0.0, 0.0, 0.0), 1000, 5000));
    assert!(r.heard);
    assert!(!r.on_datagram(&encode(0, 200.0, 0.5, 0.0, 0.0, 0.0, 0.0), 1100, 5000));
    assert_eq!((r.spot, r.ts_ms_local), (100 * NANO, 1000));
}

#[test]
fn late_and_repeated_ticks_are_ignored() {
    let mut r = RemoteState::new();
    assert!(r.on_datagram(&encode(5, 100.0, 0.5, 0.0, 0.0, 0.0, 0.0), 1000, 5000));
    assert_eq!(r.last_seq, 5);
    assert!(!r.on_datagram(&encode(5, 200.0, 0.5, 0.0, 0.0, 0.0, 0.0), 1100, 5000));
    assert!(!r.on_datagram(&encode(4, 300.0, 0.5, 0.0, 0.0, 0.0, 0.0), 1200, 5000));
    assert_eq!(r.spot, 100 * NANO);
    assert_eq!(r.ts_ms_local, 1000);
    assert!(r.on_datagram(&encode(6, 400.0, 0.5, 0.0, 0.0, 0.0, 0.0), 1300, 5000));
    assert_eq!(r.spot, 400 * NANO);
    assert_eq!(r.ts_ms_local, 1300);
}

#[test]
fn an_alarm_is_latched_and_a_tick_does_not_lift_it() {
    let mut r = RemoteState::new();
    assert!(r.on_datagram(&[0x4B], 1000, 5000));
    assert_eq!(r.kill_until_ms, 6000);
    assert!(r.on_datagram(&encode(1, 100.0, 0.5, 0.0, 0.0, 0.0, 0.0), 2000, 5000));
    assert!(r.as_guard_state(5999).kill);
    assert!(!r.as_guard_state(6000).kill);
}

#[test]
fn heartbeats_and_noise_change_nothing() {
    let mut r = RemoteState::new();
    assert!(!r.on_datagram(&[0x48, 1, 2], 1000, 5000));
    assert!(!r.on_datagram(&[], 1000, 5000));
    assert!(!r.on_datagram(&[0x54, 1], 1000, 5000));
    assert_eq!(r, RemoteState::new());
}
