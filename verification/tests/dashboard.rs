use le_grinder::dashboard::{apply_state, path_of, route, route_request, DashState, Route};
use le_grinder::state::{GrinderState, WindowRecord};

fn record(n: i64) -> WindowRecord {
    WindowRecord {
        ts: String::new(),
        window_ts: n,
        slug: String::new(),
        side: String::new(),
        entry_price: 0,
        shares: 0,
        cost: 0,
        fees: 0,
        outcome: String::new(),
        reason: String::new(),
        proceeds: 0,
        pnl: 0,
        stack_after: 0,
        streak_after: 0,
        run_id: 0,
        strike: 0,
        spot_at_exit: 0,
        z_at_entry: 0,
        z_at_exit: 0,
        drift_at_exit: 0,
        spot_at_entry: 0,
        dist_at_entry: 0,
        sigma_at_entry: 0,
        remaining_s_at_entry: 0,
    }
}

#[test]
fn the_second_word_of_a_request_is_its_path() {
    assert_eq!(path_of("GET /state HTTP/1.1\r\nHost: x\r\n"), "/state");
    assert_eq!(path_of("  GET\t\n/a\u{3000}b"), "/a");
    assert_eq!(path_of("GET /b"), "/b");
    assert_eq!(path_of("GET"), "/");
    assert_eq!(path_of("GET  "), "/");
    assert_eq!(path_of(""), "/");
    assert_eq!(path_of("GET /été HTTP/1.1"), "/été");
}

#[test]
fn words_are_split_where_white_space_is() {
    for c in 0..0x11_0000u32 {
        if let Some(c) = char::from_u32(c) {
            if c.is_whitespace() || (c as u32) < 0x100 || (c as u32) % 0x1000 == 0x200B % 0x1000 {
                let text = format!("a{}b", c);
                let want = text.split_whitespace().nth(1).unwrap_or("/").to_string();
                assert_eq!(path_of(&text), want, "{:x}", c as u32);
            }
        }
    }
}

#[test]
fn paths_lead_to_the_page_or_the_state() {
    assert_eq!(route("/state"), Route::State);
    assert_eq!(route("/"), Route::Index);
    assert_eq!(route("/index.html"), Route::Index);
    assert_eq!(route("/state/"), Route::NotFound);
    assert_eq!(route("/other"), Route::NotFound);
}

#[test]
fn requests_are_routed_by_their_bytes() {
    assert_eq!(route_request(b"GET /state HTTP/1.1\r\n\r\n"), Route::State);
    assert_eq!(route_request(b"GET / HTTP/1.1\r\n\r\n"), Route::Index);
    assert_eq!(route_request(b"GET /\xff HTTP/1.1\r\n\r\n"), Route::NotFound);
    // A byte that is no text does not separate words.
    assert_eq!(route_request(b"GET\xff /state"), Route::State);
    assert_eq!(route_request(b"GET\xff/state"), Route::Index);
}

#[test]
fn responses_carry_the_length_of_the_body_in_bytes() {
    assert_eq!(
        Route::State.response("{}"),
        "HTTP/1.1 200 OK\r\nContent-Type: application/json\r\nContent-Length: 2\r\nConnection: close\r\n\r\n{}"
    );
    assert_eq!(
        Route::Index.response("<p>été</p>"),
        "HTTP/1.1 200 OK\r\nContent-Type: text/html; charset=utf-8\r\nContent-Length: 12\r\nConnection: close\r\n\r\n<p>été</p>"
    );
    assert_eq!(
        Route::NotFound.response("ignored"),
        "HTTP/1.1 404 Not Found\r\nContent-Type: text/plain\r\nContent-Length: 9\r\nConnection: close\r\n\r\nnot found"
    );
}

#[test]
fn the_last_fifty_windows_are_shown() {
    let mut d = DashState::new();
    for n in 0..60 {
        d.push_window(record(n));
    }
    assert_eq!(d.windows.len(), 50);
    assert_eq!(d.windows[0].window_ts, 10);
    assert_eq!(d.windows[49].window_ts, 59);
}

#[test]
fn the_figures_of_the_compounding_are_shown() {
    let mut d = DashState::new();
    d.block("why".to_string());
    let mut st = GrinderState::fresh(5);
    st.wins = 3;
    st.losses = 2;
    st.panic_exits = 1;
    st.realized_pnl = -4;
    st.banked = 6;
    st.streak = 7;
    st.best_streak = 8;
    st.windows_played = 9;
    apply_state(&mut d, &st);
    assert_eq!((d.stack, d.best_stack, d.run_id), (5, 5, 1));
    assert_eq!((d.wins, d.losses, d.panic_exits, d.windows_played), (3, 2, 1, 9));
    assert_eq!((d.realized_pnl, d.banked, d.streak, d.best_streak), (-4, 6, 7, 8));
    assert_eq!(d.last_block_reason, "why");
}
