use le_grinder::state::{
    corrupt_path, daily_stats, load, tail_windows, tmp_path, GrinderState, Stored, WindowRecord,
};

fn nano(x: f64) -> i64 {
    (x * 1e9).round() as i64
}

fn record(ts: &str, outcome: &str, fees: i64) -> WindowRecord {
    WindowRecord {
        ts: ts.to_string(),
        window_ts: 1_784_000_100,
        slug: "btc-updown-5m-1784000100".to_string(),
        side: "up".to_string(),
        entry_price: nano(0.96),
        shares: nano(1.04),
        cost: nano(1.0),
        fees,
        outcome: outcome.to_string(),
        reason: "resolution_kline".to_string(),
        proceeds: nano(1.04),
        pnl: nano(0.04),
        stack_after: nano(1.04),
        streak_after: 1,
        run_id: 1,
        strike: nano(60000.0),
        spot_at_exit: nano(60120.0),
        z_at_entry: nano(2.1),
        z_at_exit: nano(3.0),
        drift_at_exit: 12_000_000,
        spot_at_entry: nano(60050.0),
        dist_at_entry: nano(50.0),
        sigma_at_entry: nano(0.42),
        remaining_s_at_entry: 120,
    }
}

#[test]
fn a_stored_state_is_taken_as_it_is() {
    let mut st = GrinderState::fresh(nano(1.0));
    st.stack = nano(2.34);
    st.wins = 7;
    let loaded = load(Stored::State(st), nano(1.0));
    assert_eq!(loaded.wins, 7);
    assert_eq!(loaded.stack, nano(2.34));
}

#[test]
fn a_missing_or_corrupt_state_is_a_fresh_one() {
    for stored in [Stored::Missing, Stored::Corrupt] {
        let st = load(stored, nano(5.0));
        assert_eq!(st.stack, nano(5.0));
        assert_eq!(st.best_stack, nano(5.0));
        assert_eq!(st.run_id, 1);
        assert_eq!(st.windows_played, 0);
        assert!(!st.halted);
        assert!(st.reset_ts.is_empty());
        assert!(st.is_valid());
        assert!(st.can_play());
    }
}

#[test]
fn states_out_of_range_are_told_apart() {
    let mut st = GrinderState::fresh(nano(1.0));
    st.stack = -1;
    assert!(!st.is_valid());
    let mut st = GrinderState::fresh(nano(1.0));
    st.realized_pnl = 600_000_000_000_000_000;
    assert!(st.is_valid());
    assert!(!st.can_play());
    let mut st = GrinderState::fresh(nano(1.0));
    st.reset_ts.push(i64::MAX);
    assert!(!st.is_valid());
}

#[test]
fn the_paths_beside_the_state_file() {
    assert_eq!(corrupt_path("data/s.json", 1_784_000_100), "data/s.json.corrupt-1784000100");
    assert_eq!(tmp_path("data/s.json"), "data/s.json.tmp");
}

#[test]
fn the_tail_of_the_ledger() {
    let all = vec![record("a", "win", 0), record("b", "win", 0)];
    assert_eq!(tail_windows(all.clone(), 10).len(), 2);
    let last = tail_windows(all, 1);
    assert_eq!(last.len(), 1);
    assert_eq!(last[0].ts, "b");
}

#[test]
fn days_are_summed_up_latest_first() {
    let records = vec![
        record("2026-07-14T10:00:00+00:00", "win", nano(0.003)),
        record("2026-07-15T10:00:00+00:00", "panic", nano(0.002)),
        record("2026-07-15T11:00:00+00:00", "secure", 0),
        record("2026-07-13T11:00:00+00:00", "loss", 0),
    ];
    let days = daily_stats(&records, 2, nano(0.07));
    assert_eq!(days.len(), 2);
    assert_eq!(days[0].date, "2026-07-15");
    assert_eq!(days[1].date, "2026-07-14");
    assert_eq!(days[0].windows, 2);
    assert_eq!(days[0].wins, 0);
    assert_eq!(days[0].panics, 1);
    assert_eq!(days[0].secures, 1);
    assert_eq!(days[0].volume, nano(2.0) as i128);
    assert_eq!(days[0].pnl, nano(0.08) as i128);
    // The second record of the day has no fees: 0.07 * 0.96 * 0.04 * 1.04.
    assert_eq!(days[0].fees, nano(0.002 + 0.00279552) as i128);
    // The cost, times four cents, times 2.3, twice.
    assert_eq!(days[0].wv, nano(2.0 * 0.04 * 2.3) as i128);
    assert_eq!(days[1].wins, 1);
    assert_eq!(days[1].fees, nano(0.003) as i128);
    assert_eq!(daily_stats(&records, 9, nano(0.07)).len(), 3);
    assert!(daily_stats(&records, 0, nano(0.07)).is_empty());
}

#[test]
fn records_are_checked() {
    assert!(record("a", "win", 0).is_valid());
    let mut r = record("a", "win", 0);
    r.entry_price = nano(1.1);
    assert!(!r.is_valid());
}
