//! The dashboard: what it shows, and the exchange of requests and responses
//! with a browser.

use vstd::prelude::*;
use vstd::utf8::{decode_utf8, encode_utf8, valid_utf8};

use crate::state::{last_of, DailyStat, GrinderState, WindowRecord};
use crate::text::{digits, digits_of, same};

verus! {

/// How many windows the dashboard keeps.
pub const WINDOWS_SHOWN: usize = 50;

/// What the dashboard shows.
#[derive(Debug)]
pub struct DashState {
    pub binance_connected: bool,
    pub spot: i64,
    pub drift: i64,
    pub sigma: i64,
    pub obi: i64,
    pub velocity: i64,
    pub kill: bool,
    pub guard_age_ms: i64,
    pub market_slug: String,
    pub remaining_s: i64,
    pub strike: i64,
    pub up_ask: i64,
    pub down_ask: i64,
    /// `scanning`, `in_position` or `waiting_market`.
    pub phase: String,
    pub stack: i64,
    pub streak: u32,
    pub run_id: u64,
    pub best_streak: u32,
    pub best_stack: i64,
    pub windows_played: u64,
    pub wins: u64,
    pub losses: u64,
    pub panic_exits: u64,
    pub realized_pnl: i64,
    pub last_block_reason: String,
    /// `paper`, `live` or `live (dry-run)`.
    pub mode: String,
    /// The dollars in the wallet; zero in simulation.
    pub live_collateral: i64,
    pub asset: String,
    /// The wallet at the start of the day.
    pub wallet_day_open: i64,
    pub daily: Vec<DailyStat>,
    pub banked: i64,
    pub pos_side: String,
    pub pos_shares: i64,
    pub pos_cost: i64,
    pub pos_entry_price: i64,
    pub pos_z: i64,
    /// The latest windows, the last one played at the end.
    pub windows: Vec<WindowRecord>,
}

impl DashState {
    /// Nothing is shown of the guard, the window, the position and the wallet.
    pub open spec fn unset(self) -> bool {
        &&& !self.binance_connected
        &&& !self.kill
        &&& self.spot == 0
        &&& self.drift == 0
        &&& self.sigma == 0
        &&& self.obi == 0
        &&& self.velocity == 0
        &&& self.guard_age_ms == 0
        &&& self.market_slug@.len() == 0
        &&& self.remaining_s == 0
        &&& self.strike == 0
        &&& self.up_ask == 0
        &&& self.down_ask == 0
        &&& self.last_block_reason@.len() == 0
        &&& self.mode@.len() == 0
        &&& self.live_collateral == 0
        &&& self.asset@.len() == 0
        &&& self.wallet_day_open == 0
        &&& self.daily@.len() == 0
        &&& self.pos_side@.len() == 0
        &&& self.pos_shares == 0
        &&& self.pos_cost == 0
        &&& self.pos_entry_price == 0
        &&& self.pos_z == 0
    }

    /// A dashboard that shows nothing yet.
    pub fn new() -> (r: Self)
        ensures
            r.unset(),
            r.phase@.len() == 0,
            r.stack == 0,
            r.streak == 0,
            r.run_id == 0,
            r.best_streak == 0,
            r.best_stack == 0,
            r.windows_played == 0,
            r.wins == 0,
            r.losses == 0,
            r.panic_exits == 0,
            r.realized_pnl == 0,
            r.banked == 0,
            r.windows@.len() == 0,
    {
        DashState {
            binance_connected: false,
            spot: 0,
            drift: 0,
            sigma: 0,
            obi: 0,
            velocity: 0,
            kill: false,
            guard_age_ms: 0,
            market_slug: String::new(),
            remaining_s: 0,
            strike: 0,
            up_ask: 0,
            down_ask: 0,
            phase: String::new(),
            stack: 0,
            streak: 0,
            run_id: 0,
            best_streak: 0,
            best_stack: 0,
            windows_played: 0,
            wins: 0,
            losses: 0,
            panic_exits: 0,
            realized_pnl: 0,
            last_block_reason: String::new(),
            mode: String::new(),
            live_collateral: 0,
            asset: String::new(),
            wallet_day_open: 0,
            daily: Vec::new(),
            banked: 0,
            pos_side: String::new(),
            pos_shares: 0,
            pos_cost: 0,
            pos_entry_price: 0,
            pos_z: 0,
            windows: Vec::new(),
        }
    }

    /// The dashboard with the figures of `st`.
    pub open spec fn with_state(self, st: GrinderState) -> DashState {
        DashState {
            stack: st.stack,
            streak: st.streak,
            run_id: st.run_id,
            best_streak: st.best_streak,
            best_stack: st.best_stack,
            windows_played: st.windows_played,
            wins: st.wins,
            losses: st.losses,
            panic_exits: st.panic_exits,
            realized_pnl: st.realized_pnl,
            banked: st.banked,
            ..self
        }
    }

    /// Shows why nothing was bought.
    pub fn block(&mut self, reason: String)
        ensures
            *final(self) == (DashState { last_block_reason: reason, ..*old(self) }),
    {
        self.last_block_reason = reason;
    }

    /// Shows one more window, and forgets the oldest ones.
    pub fn push_window(&mut self, rec: WindowRecord)
        ensures
            *final(self) == (DashState { windows: final(self).windows, ..*old(self) }),
            final(self).windows@ == last_of(old(self).windows@.push(rec), WINDOWS_SHOWN as int),
    {
        self.windows.push(rec);
        if self.windows.len() > WINDOWS_SHOWN {
            let ghost all = self.windows@;
            let at: usize = self.windows.len() - WINDOWS_SHOWN;
            self.windows = self.windows.split_off(at);
            assert(self.windows@ =~= all.skip(at as int));
        }
    }
}

/// Shows the figures of the compounding.
pub fn apply_state(d: &mut DashState, st: &GrinderState)
    ensures
        *final(d) == old(d).with_state(*st),
{
    d.stack = st.stack;
    d.streak = st.streak;
    d.run_id = st.run_id;
    d.best_streak = st.best_streak;
    d.best_stack = st.best_stack;
    d.windows_played = st.windows_played;
    d.wins = st.wins;
    d.losses = st.losses;
    d.panic_exits = st.panic_exits;
    d.realized_pnl = st.realized_pnl;
    d.banked = st.banked;
}

/// A character that separates words: white space, as Unicode has it.
pub open spec fn is_space(c: char) -> bool {
    let code = c as u32;
    ||| 0x09 <= code <= 0x0D
    ||| code == 0x20
    ||| code == 0x85
    ||| code == 0xA0
    ||| code == 0x1680
    ||| 0x2000 <= code <= 0x200A
    ||| code == 0x2028
    ||| code == 0x2029
    ||| code == 0x202F
    ||| code == 0x205F
    ||| code == 0x3000
}

/// How many characters at the beginning of a text are white space, or are not.
pub open spec fn run_len(s: Seq<char>, space: bool) -> nat
    decreases s.len(),
{
    if s.len() > 0 && is_space(s[0]) == space {
        1 + run_len(s.drop_first(), space)
    } else {
        0
    }
}

/// A text without the white space at its beginning.
pub open spec fn trimmed_start(s: Seq<char>) -> Seq<char> {
    s.skip(run_len(s, true) as int)
}

/// The first word of a text; empty where there is none.
pub open spec fn first_word(s: Seq<char>) -> Seq<char> {
    let t = trimmed_start(s);
    t.take(run_len(t, false) as int)
}

/// What follows the first word of a text.
pub open spec fn after_word(s: Seq<char>) -> Seq<char> {
    let t = trimmed_start(s);
    t.skip(run_len(t, false) as int)
}

/// The path that a request asks for: its second word, or the root.
pub open spec fn asked_path(request: Seq<char>) -> Seq<char> {
    let w = first_word(after_word(request));
    if w.len() == 0 {
        "/"@
    } else {
        w
    }
}

fn space(c: char) -> (r: bool)
    ensures
        r == is_space(c),
{
    let code: u32 = c as u32;
    (0x09 <= code && code <= 0x0D) || code == 0x20 || code == 0x85 || code == 0xA0 || code == 0x1680
        || (0x2000 <= code && code <= 0x200A) || code == 0x2028 || code == 0x2029 || code == 0x202F
        || code == 0x205F || code == 0x3000
}

/// Where the run of characters that begins at `from` ends.
fn run_end(s: &str, from: usize, spaces: bool) -> (r: usize)
    requires
        from <= s@.len(),
    ensures
        r == from + run_len(s@.skip(from as int), spaces),
        r <= s@.len(),
{
    let n: usize = s.unicode_len();
    let mut i: usize = from;
    while i < n
        invariant_except_break
            from <= i <= n,
            n == s@.len(),
            i + run_len(s@.skip(i as int), spaces) == from + run_len(
                s@.skip(from as int),
                spaces,
            ),
        ensures
            i == from + run_len(s@.skip(from as int), spaces),
            i <= s@.len(),
        decreases n - i,
    {
        let ghost rest = s@.skip(i as int);
        assert(rest[0] == s@[i as int]);
        assert(rest.drop_first() =~= s@.skip(i + 1));
        if space(s.get_char(i)) != spaces {
            break ;
        }
        i = i + 1;
    }
    i
}

/// The path that a request asks for.
pub fn path_of(request: &str) -> (r: String)
    ensures
        r@ == asked_path(request@),
{
    let first = run_end(request, 0, true);
    let first_end = run_end(request, first, false);
    let second = run_end(request, first_end, true);
    let second_end = run_end(request, second, false);
    proof {
        assert(request@.skip(0) =~= request@);
        assert(request@.skip(first as int) =~= trimmed_start(request@));
        assert(request@.skip(first_end as int) =~= after_word(request@));
        assert(request@.skip(second as int) =~= trimmed_start(after_word(request@)));
        assert(request@.subrange(second as int, second_end as int) =~= first_word(
            after_word(request@),
        ));
    }
    if second_end == second {
        "/".to_owned()
    } else {
        request.substring_char(second, second_end).to_owned()
    }
}

/// The text that bytes stand for, with a mark in place of what is no text.
pub uninterp spec fn lossy_text(bytes: Seq<u8>) -> Seq<char>;

/// `String::from_utf8_lossy`: what it returns depends on the bytes alone, and
/// is the text that they encode where they encode one.
#[verifier::external_body]
fn from_utf8_lossy(bytes: &[u8]) -> (r: String)
    ensures
        r@ == lossy_text(bytes@),
        valid_utf8(bytes@) ==> r@ == decode_utf8(bytes@),
{
    String::from_utf8_lossy(bytes).into_owned()
}

/// What a request asks for.
#[derive(Debug, Clone, Copy, PartialEq, Eq, Structural)]
pub enum Route {
    /// What the dashboard shows, as JSON.
    State,
    /// The page.
    Index,
    NotFound,
}

/// What a path leads to.
pub open spec fn route_of(path: Seq<char>) -> Route {
    if path == "/state"@ {
        Route::State
    } else if path == "/"@ || path == "/index.html"@ {
        Route::Index
    } else {
        Route::NotFound
    }
}

/// What a path leads to.
pub fn route(path: &str) -> (r: Route)
    ensures
        r == route_of(path@),
{
    if same(path, "/state") {
        Route::State
    } else if same(path, "/") || same(path, "/index.html") {
        Route::Index
    } else {
        Route::NotFound
    }
}

/// What the bytes of a request ask for.
pub fn route_request(bytes: &[u8]) -> (r: Route)
    ensures
        r == route_of(asked_path(lossy_text(bytes@))),
        valid_utf8(bytes@) ==> r == route_of(asked_path(decode_utf8(bytes@))),
{
    let request = from_utf8_lossy(bytes);
    let path = path_of(request.as_str());
    route(path.as_str())
}

impl Route {
    pub open spec fn status(self) -> Seq<char> {
        match self {
            Route::NotFound => "404 Not Found"@,
            _ => "200 OK"@,
        }
    }

    pub open spec fn content_type(self) -> Seq<char> {
        match self {
            Route::State => "application/json"@,
            Route::Index => "text/html; charset=utf-8"@,
            Route::NotFound => "text/plain"@,
        }
    }

    /// The response with the given body; a request that leads nowhere is told
    /// so, whatever the body.
    pub open spec fn answer(self, body: Seq<char>) -> Seq<char> {
        let sent = if self == Route::NotFound {
            "not found"@
        } else {
            body
        };
        "HTTP/1.1 "@ + self.status() + "\r\nContent-Type: "@ + self.content_type()
            + "\r\nContent-Length: "@ + digits(encode_utf8(sent).len())
            + "\r\nConnection: close\r\n\r\n"@ + sent
    }

    /// The response with the given body: the page, or what the dashboard shows.
    pub fn response(&self, body: &str) -> (r: String)
        ensures
            r@ == self.answer(body@),
    {
        let (status, ctype, sent): (&str, &str, &str) = match self {
            Route::State => ("200 OK", "application/json", body),
            Route::Index => ("200 OK", "text/html; charset=utf-8", body),
            Route::NotFound => ("404 Not Found", "text/plain", "not found"),
        };
        let length: u64 = sent.as_bytes().len() as u64;
        "HTTP/1.1 ".to_owned().concat(status).concat("\r\nContent-Type: ").concat(ctype).concat(
            "\r\nContent-Length: ",
        ).concat(digits_of(length).as_str()).concat("\r\nConnection: close\r\n\r\n").concat(sent)
    }
}

/// A run of characters of one kind is as long as it goes.
proof fn lemma_run(s: Seq<char>, n: int, space: bool)
    requires
        0 <= n <= s.len(),
        forall|i: int| 0 <= i < n ==> is_space(#[trigger] s[i]) == space,
        n < s.len() ==> is_space(s[n]) != space,
    ensures
        run_len(s, space) == n,
    decreases n,
{
    if n > 0 {
        let rest = s.drop_first();
        assert(is_space(s[0]) == space);
        assert forall|i: int| 0 <= i < n - 1 implies is_space(#[trigger] rest[i]) == space by {
            assert(is_space(s[i + 1]) == space);
        }
        lemma_run(rest, n - 1, space);
    }
}

/// The path of a request is its second word: after a first word and some white
/// space, up to the next white space or the end. White space in front does not
/// count.
pub proof fn the_path_is_the_second_word(
    front: Seq<char>,
    word: Seq<char>,
    gap: Seq<char>,
    path: Seq<char>,
    rest: Seq<char>,
)
    requires
        forall|i: int| 0 <= i < front.len() ==> is_space(#[trigger] front[i]),
        word.len() > 0,
        forall|i: int| 0 <= i < word.len() ==> !is_space(#[trigger] word[i]),
        gap.len() > 0,
        forall|i: int| 0 <= i < gap.len() ==> is_space(#[trigger] gap[i]),
        path.len() > 0,
        forall|i: int| 0 <= i < path.len() ==> !is_space(#[trigger] path[i]),
        rest.len() > 0 ==> is_space(rest[0]),
    ensures
        asked_path(front + word + gap + path + rest) == path,
{
    let request = front + word + gap + path + rest;
    let a = word + gap + path + rest;
    let b = gap + path + rest;
    let c = path + rest;
    assert forall|i: int| 0 <= i < front.len() implies is_space(#[trigger] request[i]) by {
        assert(request[i] == front[i]);
    }
    assert(request[front.len() as int] == word[0]);
    lemma_run(request, front.len() as int, true);
    assert(trimmed_start(request) =~= a);
    assert forall|i: int| 0 <= i < word.len() implies !is_space(#[trigger] a[i]) by {
        assert(a[i] == word[i]);
    }
    assert(a[word.len() as int] == gap[0]);
    lemma_run(a, word.len() as int, false);
    assert(after_word(request) =~= b);
    assert forall|i: int| 0 <= i < gap.len() implies is_space(#[trigger] b[i]) by {
        assert(b[i] == gap[i]);
    }
    assert(b[gap.len() as int] == path[0]);
    lemma_run(b, gap.len() as int, true);
    assert(trimmed_start(b) =~= c);
    assert forall|i: int| 0 <= i < path.len() implies !is_space(#[trigger] c[i]) by {
        assert(c[i] == path[i]);
    }
    if rest.len() > 0 {
        assert(c[path.len() as int] == rest[0]);
    }
    lemma_run(c, path.len() as int, false);
    assert(first_word(b) =~= path);
}

/// A request without a second word asks for the root.
pub proof fn no_second_word_asks_for_the_root(front: Seq<char>, word: Seq<char>, rest: Seq<char>)
    requires
        forall|i: int| 0 <= i < front.len() ==> is_space(#[trigger] front[i]),
        forall|i: int| 0 <= i < word.len() ==> !is_space(#[trigger] word[i]),
        forall|i: int| 0 <= i < rest.len() ==> is_space(#[trigger] rest[i]),
    ensures
        asked_path(front + word + rest) == "/"@,
{
    let request = front + word + rest;
    if word.len() > 0 {
        let a = word + rest;
        assert forall|i: int| 0 <= i < front.len() implies is_space(#[trigger] request[i]) by {
            assert(request[i] == front[i]);
        }
        assert(request[front.len() as int] == word[0]);
        lemma_run(request, front.len() as int, true);
        assert(trimmed_start(request) =~= a);
        assert forall|i: int| 0 <= i < word.len() implies !is_space(#[trigger] a[i]) by {
            assert(a[i] == word[i]);
        }
        if rest.len() > 0 {
            assert(a[word.len() as int] == rest[0]);
        }
        lemma_run(a, word.len() as int, false);
        assert(after_word(request) =~= rest);
        lemma_run(rest, rest.len() as int, true);
        assert(trimmed_start(rest).len() == 0);
    } else {
        assert forall|i: int| 0 <= i < request.len() implies is_space(#[trigger] request[i]) by {
            if i < front.len() {
                assert(request[i] == front[i]);
            } else {
                assert(request[i] == rest[i - front.len()]);
            }
        }
        lemma_run(request, request.len() as int, true);
        assert(trimmed_start(request).len() == 0);
        assert(after_word(request).len() == 0);
    }
}

/// Space, tab and the ends of a line are white space; what stands in a path is not.
pub proof fn what_separates_words(c: char)
    ensures
        c == ' ' || c == '\t' || c == '\n' || c == '\r' ==> is_space(c),
        33 <= c as u32 <= 126 ==> !is_space(c),
{
}

/// The state and the page are found under their paths, and nothing else is.
pub proof fn where_paths_lead(path: Seq<char>)
    ensures
        route_of(path) == Route::State <==> path == "/state"@,
        route_of(path) == Route::Index <==> path == "/"@ || path == "/index.html"@,
        route_of(path) == Route::NotFound <==> path != "/state"@ && path != "/"@ && path
            != "/index.html"@,
{
    reveal_strlit("/state");
    reveal_strlit("/");
    reveal_strlit("/index.html");
    assert("/state"@.len() != "/"@.len());
    assert("/state"@.len() != "/index.html"@.len());
}

/// A response says how it went, what it carries and how long that is in bytes, and
/// then carries it, after an empty line.
pub proof fn what_a_response_says(route: Route, body: Seq<char>)
    ensures
        route == Route::State ==> route.answer(body)
            == "HTTP/1.1 "@ + "200 OK"@ + "\r\nContent-Type: "@ + "application/json"@
            + "\r\nContent-Length: "@ + digits(encode_utf8(body).len())
            + "\r\nConnection: close\r\n\r\n"@ + body,
        route == Route::Index ==> route.answer(body) == "HTTP/1.1 "@ + "200 OK"@
            + "\r\nContent-Type: "@ + "text/html; charset=utf-8"@ + "\r\nContent-Length: "@ + digits(
            encode_utf8(body).len(),
        ) + "\r\nConnection: close\r\n\r\n"@ + body,
        route == Route::NotFound ==> route.answer(body) == "HTTP/1.1 "@ + "404 Not Found"@
            + "\r\nContent-Type: "@ + "text/plain"@ + "\r\nContent-Length: "@ + digits(
            encode_utf8("not found"@).len(),
        ) + "\r\nConnection: close\r\n\r\n"@ + "not found"@,
{
}

/// The figures that the dashboard takes over are those of the accounts.
pub proof fn the_figures_are_taken_over(d: DashState, st: GrinderState)
    ensures
        ({
            let s = d.with_state(st);
            &&& s.stack == st.stack && s.best_stack == st.best_stack && s.banked == st.banked
            &&& s.streak == st.streak && s.best_streak == st.best_streak && s.run_id == st.run_id
            &&& s.windows_played == st.windows_played && s.wins == st.wins && s.losses == st.losses
            &&& s.panic_exits == st.panic_exits && s.realized_pnl == st.realized_pnl
            &&& s.spot == d.spot && s.phase == d.phase && s.windows == d.windows && s.mode == d.mode
            &&& s.pos_shares == d.pos_shares && s.last_block_reason == d.last_block_reason
        }),
{
}

} // verus!
