use le_grinder::config::{Config, EnvVar};

fn nano(x: f64) -> i64 {
    (x * 1e9).round() as i64
}

fn env(vars: &[(&str, &str)]) -> Vec<EnvVar> {
    vars.iter()
        .map(|(key, text)| EnvVar {
            key: key.to_string(),
            text: text.to_string(),
            bits: text.parse::<f64>().ok().map(|x| x.to_bits()),
        })
        .collect()
}

#[test]
fn an_empty_environment_gives_the_defaults() {
    let c = Config::from_env(&env(&[])).unwrap();
    assert_eq!(c.mode, "paper");
    assert_eq!(c.grind_base, nano(1.0));
    assert_eq!(c.entry_min, nano(0.95));
    assert_eq!(c.entry_max, nano(0.99));
    assert_eq!(c.z_entry, nano(1.5));
    assert_eq!(c.z_exit, nano(0.5));
    assert_eq!(c.drift_exit, 30_000_000);
    assert_eq!(c.min_remaining_s, 15);
    assert_eq!(c.max_remaining_s, 240);
    assert_eq!(c.panic_haircut, nano(0.5));
    assert_eq!(c.taker_fee_rate, nano(0.07));
    assert_eq!(c.book_max_age_ms, 5_000);
    assert_eq!(c.drift_halflife_s, nano(25.0));
    assert_eq!(c.vol_window_ms, 2_000);
    assert_eq!(c.vol_floor, nano(0.3));
    assert_eq!(c.obi_depth_levels, 10);
    assert_eq!(c.obi_threshold, nano(0.8));
    assert_eq!(c.velocity_threshold, nano(45.0));
    assert_eq!(c.kill_latch_ms, 5_000);
    assert_eq!(c.guard_max_age_ms, 3_000);
    assert_eq!(c.binance_ws_url, "wss://stream.binance.com:9443/ws/btcusdt@depth20@100ms");
    assert_eq!(c.dashboard_bind, "0.0.0.0");
    assert_eq!(c.dashboard_port, 8095);
    assert_eq!(c.state_path, "data/grinder_state.json");
    assert_eq!(c.windows_path, "data/grinder_windows.jsonl");
    assert_eq!(c.max_resets, 0);
    assert!(!c.halt_on_wipe);
    assert_eq!(c.signal_listen, None);
    assert!(c.is_valid());
    assert!(!c.is_live());
}

#[test]
fn variables_take_the_place_of_defaults() {
    let c = Config::from_env(&env(&[
        ("GRIND_BASE", "10"),
        ("ENTRY_MIN", "9.6e-1"),
        ("DRIFT_EXIT", "0.00004"),
        ("DASH_PORT", "9000"),
        ("MIN_REMAINING_S", "-3"),
        ("SIGNAL_LISTEN", "0.0.0.0:9001"),
        ("HALT_ON_WIPE", "True"),
        ("MAX_RESETS_12H", "3"),
        ("DASH_BIND", "127.0.0.1"),
        ("GRIND_BASE", "20"),
    ]))
    .unwrap();
    assert_eq!(c.grind_base, nano(10.0));
    assert_eq!(c.entry_min, nano(0.96));
    assert_eq!(c.drift_exit, 40_000_000);
    assert_eq!(c.dashboard_port, 9000);
    assert_eq!(c.min_remaining_s, -3);
    assert_eq!(c.signal_listen.as_deref(), Some("0.0.0.0:9001"));
    assert!(c.halt_on_wipe);
    assert_eq!(c.max_resets, 3);
    assert_eq!(c.dashboard_bind, "127.0.0.1");
}

#[test]
fn variables_that_are_no_numbers_are_passed_over() {
    let c = Config::from_env(&env(&[("GRIND_BASE", "ten"), ("DASH_PORT", "80.5")])).unwrap();
    assert_eq!(c.grind_base, nano(1.0));
    assert_eq!(c.dashboard_port, 8095);
}

#[test]
fn integers_wrap_like_casts() {
    let c = Config::from_env(&env(&[("DASH_PORT", "65537"), ("BOOK_MAX_AGE_MS", "-1")])).unwrap();
    assert_eq!(c.dashboard_port, 1);
    assert_eq!(c.book_max_age_ms, u64::MAX);
}

#[test]
fn numbers_out_of_range_give_no_settings() {
    assert!(Config::from_env(&env(&[("GRIND_BASE", "1e12")])).is_none());
    assert!(Config::from_env(&env(&[("Z_ENTRY", "inf")])).is_none());
}

#[test]
fn the_mode_is_put_in_lower_case() {
    let c = Config::from_env(&env(&[("TRADING_MODE", "LIVE")])).unwrap();
    assert_eq!(c.mode, "live");
    assert!(c.is_live());
    assert_eq!(c.state_path, "data/grinder_state_live.json");
    assert_eq!(c.windows_path, "data/grinder_windows_live.jsonl");
    let c = Config::from_env(&env(&[("TRADING_MODE", "LIVE"), ("STATE_PATH", "x")])).unwrap();
    assert_eq!(c.state_path, "x");
    let c = Config::from_env(&env(&[("TRADING_MODE", "ÉTÉ")])).unwrap();
    assert_eq!(c.mode, "été");
    assert_eq!(c.state_path, "data/grinder_state.json");
}

#[test]
fn the_mode_decides_the_files() {
    let live = Config::with_mode(&env(&[]), "live".to_string()).unwrap();
    let paper = Config::with_mode(&env(&[]), "Live".to_string()).unwrap();
    assert_ne!(live.state_path, paper.state_path);
    assert_ne!(live.windows_path, paper.windows_path);
    assert!(!paper.is_live());
}

#[test]
fn settings_are_checked() {
    let mut c = Config::default_for_tests();
    assert!(c.is_valid());
    assert_eq!(c.state_path, "/tmp/grinder_state_test.json");
    assert_eq!(c.dashboard_port, 0);
    c.taker_fee_rate = nano(1.5);
    assert!(!c.is_valid());
}
