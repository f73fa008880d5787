//! The settings of the bot.

use vstd::prelude::*;

use crate::fixed::{
    fixed_from_bits, fixed_of_bits, is_signed, is_stake, signed, stake, NANO, PICO, TIME_LIMIT,
};
use crate::text::{integer_of, is_switched_on, lower_letter, parse_integer, same, switched_on};

verus! {

/// Everything that can be set. Dollars, prices, scores and fractions are in
/// billionths; drifts are in trillionths a second.
#[derive(Debug)]
pub struct Config {
    /// The stake that a run starts from, and that a wipe goes back to.
    pub grind_base: i64,
    /// The lowest price at which the favourite is bought.
    pub entry_min: i64,
    /// The highest price at which the favourite is bought.
    pub entry_max: i64,
    /// The margin that an entry needs.
    pub z_entry: i64,
    /// The margin below which an open position is sold.
    pub z_exit: i64,
    /// The adverse drift beyond which an open position is sold.
    pub drift_exit: i64,
    /// No entry with fewer seconds left than this.
    pub min_remaining_s: i64,
    /// No entry with more seconds left than this.
    pub max_remaining_s: i64,
    /// The part of the displayed depth that an emergency sale still finds.
    pub panic_haircut: i64,
    /// The taker fee rate.
    pub taker_fee_rate: i64,
    /// The age beyond which a streamed book is not used.
    pub book_max_age_ms: u64,
    /// The half-life of the drift estimate, in seconds.
    pub drift_halflife_s: i64,
    /// The window of the volatility estimate.
    pub vol_window_ms: u64,
    /// The floor of the volatility estimate.
    pub vol_floor: i64,
    /// How many levels of the book the radar looks at.
    pub obi_depth_levels: usize,
    /// The imbalance at which the radar may fire.
    pub obi_threshold: i64,
    /// The displacement at which the radar may fire.
    pub velocity_threshold: i64,
    /// How long an alarm of the radar stays on.
    pub kill_latch_ms: u64,
    /// The age from which the guard is blind: nothing is bought then, and an open
    /// position is sold.
    pub guard_max_age_ms: u64,
    /// The age from which the remote radar is not used.
    pub remote_max_age_ms: u64,
    /// Where the remote radar is listened to, if it is.
    pub signal_listen: Option<String>,
    /// A second limit, in seconds, to the age of what the guard saw while a
    /// position is open; none, where this is not positive.
    pub guard_stale_exit_s: i64,
    /// The distance to the strike below which a poor margin is not tolerated;
    /// none, where this is not positive.
    pub dist_exit_usd: i64,
    /// The bid below which a position is no longer sold but held to the end.
    pub panic_floor: i64,
    /// The liquidity below which a position is cashed in near the end; none,
    /// where this is not positive.
    pub secure_wall_usdc: i64,
    /// How near the end, in seconds.
    pub secure_last_s: i64,
    /// The bid that cashing in needs.
    pub secure_min_price: i64,
    /// The span over which resets are counted, in seconds.
    pub reset_window_s: i64,
    /// The number of resets that stops live play; none, where this is zero.
    pub max_resets: u32,
    /// Whether a wipe stops play.
    pub halt_on_wipe: bool,
    /// The part of a win that is put aside.
    pub stack_skim_gain: i64,
    /// The part of the wallet that the stack may be at most; no bound, where
    /// this is not positive.
    pub stack_cap_fraction: i64,
    /// What the simulated wallet starts with.
    pub paper_wallet0: i64,
    /// `paper` or `live`.
    pub mode: String,
    /// The asset that is played.
    pub asset: String,
    /// Its symbol on the spot exchange.
    pub binance_symbol: String,
    pub binance_ws_url: String,
    pub dashboard_bind: String,
    pub dashboard_port: u16,
    pub state_path: String,
    pub windows_path: String,
}

impl Config {
    /// The amounts that are computed with are in range.
    pub open spec fn wf(self) -> bool {
        &&& stake(self.grind_base)
        &&& signed(self.drift_exit)
        &&& 0 <= self.taker_fee_rate <= NANO
        &&& -10_000_000_000 <= self.guard_stale_exit_s <= 10_000_000_000
        &&& self.stack_skim_gain <= NANO
        &&& signed(self.stack_cap_fraction)
        &&& signed(self.paper_wallet0)
        &&& self.kill_latch_ms <= TIME_LIMIT
        &&& signed(self.reset_window_s)
    }

    /// Real orders are to be placed.
    pub open spec fn live(self) -> bool {
        self.mode@ == "live"@
    }

    /// Checks [`Config::wf`].
    pub fn is_valid(&self) -> (r: bool)
        ensures
            r == self.wf(),
    {
        is_stake(self.grind_base) && is_signed(self.drift_exit) && 0 <= self.taker_fee_rate
            && self.taker_fee_rate <= NANO && -10_000_000_000 <= self.guard_stale_exit_s
            && self.guard_stale_exit_s <= 10_000_000_000 && self.stack_skim_gain <= NANO && is_signed(self.stack_cap_fraction) && is_signed(
            self.paper_wallet0,
        ) && self.kill_latch_ms <= TIME_LIMIT as u64 && is_signed(self.reset_window_s)
    }

    /// Whether real orders are to be placed.
    pub fn is_live(&self) -> (r: bool)
        ensures
            r == self.live(),
    {
        same(self.mode.as_str(), "live")
    }
}

/// A variable of the environment.
#[derive(Debug)]
pub struct EnvVar {
    pub key: String,
    pub text: String,
    /// The double that the text stands for, if it stands for one, as its bits.
    pub bits: Option<u64>,
}

/// The first variable of the given name.
pub open spec fn variable(env: Seq<EnvVar>, key: Seq<char>) -> Option<EnvVar>
    decreases env.len(),
{
    if env.len() == 0 {
        None
    } else {
        match variable(env.drop_last(), key) {
            Some(v) => Some(v),
            None => if env.last().key@ == key {
                Some(env.last())
            } else {
                None
            },
        }
    }
}

/// A number of the environment, in units of one over `scale`: `default` where
/// there is none, and nothing where the number is out of range.
pub open spec fn number(env: Seq<EnvVar>, key: Seq<char>, scale: int, default: int) -> Option<int> {
    match variable(env, key) {
        Some(v) => match v.bits {
            Some(bits) => fixed_of_bits(bits, scale),
            None => Some(default),
        },
        None => Some(default),
    }
}

/// An integer of the environment: `default` where there is none.
pub open spec fn integer(env: Seq<EnvVar>, key: Seq<char>, default: int) -> int {
    match variable(env, key) {
        Some(v) => match integer_of(v.text@) {
            Some(x) => x,
            None => default,
        },
        None => default,
    }
}

/// A text of the environment: `default` where there is none.
pub open spec fn text(env: Seq<EnvVar>, key: Seq<char>, default: Seq<char>) -> Seq<char> {
    match variable(env, key) {
        Some(v) => v.text@,
        None => default,
    }
}

/// A switch of the environment: on for `true` in any case, or `1`.
pub open spec fn switch(env: Seq<EnvVar>, key: Seq<char>) -> bool {
    match variable(env, key) {
        Some(v) => switched_on(v.text@),
        None => false,
    }
}

fn find<'a>(env: &'a Vec<EnvVar>, key: &str) -> (r: Option<&'a EnvVar>)
    ensures
        match r {
            Some(v) => variable(env@, key@) == Some(*v),
            None => variable(env@, key@) is None,
        },
{
    let mut i: usize = 0;
    while i < env.len()
        invariant
            i <= env.len(),
            variable(env@.take(i as int), key@) is None,
        decreases env.len() - i,
    {
        assert(env@.take(i + 1).drop_last() =~= env@.take(i as int));
        assert(env@.take(i + 1).last() == env@[i as int]);
        if same(env[i].key.as_str(), key) {
            proof {
                lemma_first_variable(env@, key@, i + 1);
            }
            return Some(&env[i]);
        }
        i = i + 1;
    }
    assert(env@.take(i as int) =~= env@);
    None
}

proof fn lemma_first_variable(env: Seq<EnvVar>, key: Seq<char>, n: int)
    requires
        0 <= n <= env.len(),
        variable(env.take(n), key) is Some,
    ensures
        variable(env, key) == variable(env.take(n), key),
    decreases env.len() - n,
{
    if n < env.len() {
        assert(env.take(n + 1).drop_last() =~= env.take(n));
        lemma_first_variable(env, key, n + 1);
    } else {
        assert(env.take(n) =~= env);
    }
}

fn f(env: &Vec<EnvVar>, key: &str, scale: i64, default: i64) -> (r: Option<i64>)
    requires
        scale == NANO || scale == PICO,
    ensures
        match r {
            Some(x) => number(env@, key@, scale as int, default as int) == Some(x as int),
            None => number(env@, key@, scale as int, default as int) is None,
        },
{
    match find(env, key) {
        Some(v) => match v.bits {
            Some(bits) => fixed_from_bits(bits, scale),
            None => Some(default),
        },
        None => Some(default),
    }
}

fn i(env: &Vec<EnvVar>, key: &str, default: i64) -> (r: i64)
    ensures
        r == integer(env@, key@, default as int),
{
    match find(env, key) {
        Some(v) => match parse_integer(v.text.as_str()) {
            Some(x) => x,
            None => default,
        },
        None => default,
    }
}

fn s(env: &Vec<EnvVar>, key: &str, default: &str) -> (r: String)
    ensures
        r@ == text(env@, key@, default@),
{
    match find(env, key) {
        Some(v) => v.text.clone(),
        None => default.to_owned(),
    }
}

fn b(env: &Vec<EnvVar>, key: &str) -> (r: bool)
    ensures
        r == switch(env@, key@),
{
    match find(env, key) {
        Some(v) => is_switched_on(v.text.as_str()),
        None => false,
    }
}

/// A text in lower case.
pub uninterp spec fn lowercase(text: Seq<char>) -> Seq<char>;

/// `str::to_lowercase`: what it returns depends on the text alone, and on a
/// text of ASCII characters it changes the letters from A to Z and nothing
/// else.
#[verifier::external_body]
fn to_lowercase(text: &str) -> (r: String)
    ensures
        r@ == lowercase(text@),
        (forall|j: int| 0 <= j < text@.len() ==> (#[trigger] text@[j]) as u32 <= 127) ==> r@.len()
            == text@.len() && forall|j: int|
            0 <= j < text@.len() ==> #[trigger] r@[j] == lower_letter(text@[j]),
{
    text.to_lowercase()
}

/// The settings that the environment gives, with the mode already read.
pub open spec fn settings(env: Seq<EnvVar>, mode: Seq<char>, c: Config) -> bool {
    let live = mode == "live"@;
    &&& c.mode@ == mode
    &&& number(env, "GRIND_BASE"@, NANO as int, 1_000_000_000) == Some(c.grind_base as int)
    &&& number(env, "ENTRY_MIN"@, NANO as int, 950_000_000) == Some(c.entry_min as int)
    &&& number(env, "ENTRY_MAX"@, NANO as int, 990_000_000) == Some(c.entry_max as int)
    &&& number(env, "Z_ENTRY"@, NANO as int, 1_500_000_000) == Some(c.z_entry as int)
    &&& number(env, "Z_EXIT"@, NANO as int, 500_000_000) == Some(c.z_exit as int)
    &&& number(env, "DRIFT_EXIT"@, PICO as int, 30_000_000) == Some(c.drift_exit as int)
    &&& c.min_remaining_s == integer(env, "MIN_REMAINING_S"@, 15)
    &&& c.max_remaining_s == integer(env, "MAX_REMAINING_S"@, 240)
    &&& number(env, "PANIC_HAIRCUT"@, NANO as int, 500_000_000) == Some(c.panic_haircut as int)
    &&& number(env, "TAKER_FEE_RATE"@, NANO as int, 70_000_000) == Some(c.taker_fee_rate as int)
    &&& c.book_max_age_ms == integer(env, "BOOK_MAX_AGE_MS"@, 5_000) as u64
    &&& number(env, "DRIFT_HALFLIFE_S"@, NANO as int, 25_000_000_000) == Some(c.drift_halflife_s as int)
    &&& c.vol_window_ms == integer(env, "VOL_WINDOW_MS"@, 2_000) as u64
    &&& number(env, "VOL_FLOOR"@, NANO as int, 300_000_000) == Some(c.vol_floor as int)
    &&& c.obi_depth_levels == integer(env, "OBI_DEPTH_LEVELS"@, 10) as usize
    &&& number(env, "OBI_THRESHOLD"@, NANO as int, 800_000_000) == Some(c.obi_threshold as int)
    &&& number(env, "VELOCITY_THRESHOLD"@, NANO as int, 45_000_000_000) == Some(c.velocity_threshold as int)
    &&& c.kill_latch_ms == integer(env, "KILL_LATCH_MS"@, 5_000) as u64
    &&& c.guard_max_age_ms == integer(env, "GUARD_MAX_AGE_MS"@, 3_000) as u64
    &&& c.remote_max_age_ms == integer(env, "REMOTE_MAX_AGE_MS"@, 3_000) as u64
    &&& match variable(env, "SIGNAL_LISTEN"@) {
        Some(v) => c.signal_listen == Some(v.text),
        None => c.signal_listen is None,
    }
    &&& c.guard_stale_exit_s == integer(env, "GUARD_STALE_EXIT_S"@, 0)
    &&& number(env, "DIST_EXIT_USD"@, NANO as int, 0) == Some(c.dist_exit_usd as int)
    &&& number(env, "PANIC_FLOOR"@, NANO as int, 0) == Some(c.panic_floor as int)
    &&& number(env, "SECURE_WALL_USDC"@, NANO as int, 0) == Some(c.secure_wall_usdc as int)
    &&& c.secure_last_s == integer(env, "SECURE_LAST_S"@, 0)
    &&& number(env, "SECURE_MIN_PRICE"@, NANO as int, 0) == Some(c.secure_min_price as int)
    &&& c.reset_window_s == integer(env, "RESET_WINDOW_S"@, 43_200)
    &&& c.max_resets == integer(env, "MAX_RESETS_12H"@, 0) as u32
    &&& c.halt_on_wipe == switch(env, "HALT_ON_WIPE"@)
    &&& number(env, "STACK_SKIM_GAIN"@, NANO as int, 0) == Some(c.stack_skim_gain as int)
    &&& number(env, "STACK_CAP_FRACTION"@, NANO as int, 0) == Some(c.stack_cap_fraction as int)
    &&& number(env, "PAPER_WALLET0"@, NANO as int, 0) == Some(c.paper_wallet0 as int)
    &&& c.asset@ == text(env, "ASSET"@, "btc"@)
    &&& c.binance_symbol@ == text(env, "BINANCE_SYMBOL"@, "BTCUSDT"@)
    &&& c.binance_ws_url@ == text(env, "BINANCE_WS_URL"@, "wss://stream.binance.com:9443/ws/btcusdt@depth20@100ms"@)
    &&& c.dashboard_bind@ == text(env, "DASH_BIND"@, "0.0.0.0"@)
    &&& c.dashboard_port == integer(env, "DASH_PORT"@, 8095) as u16
    &&& c.state_path@ == text(
        env,
        "STATE_PATH"@,
        if live {
            "data/grinder_state_live.json"@
        } else {
            "data/grinder_state.json"@
        },
    )
    &&& c.windows_path@ == text(
        env,
        "WINDOWS_PATH"@,
        if live {
            "data/grinder_windows_live.jsonl"@
        } else {
            "data/grinder_windows.jsonl"@
        },
    )
}

/// Every number of the environment that is read is in range.
pub open spec fn in_range(env: Seq<EnvVar>) -> bool {
    &&& number(env, "GRIND_BASE"@, NANO as int, 1_000_000_000) is Some
    &&& number(env, "ENTRY_MIN"@, NANO as int, 950_000_000) is Some
    &&& number(env, "ENTRY_MAX"@, NANO as int, 990_000_000) is Some
    &&& number(env, "Z_ENTRY"@, NANO as int, 1_500_000_000) is Some
    &&& number(env, "Z_EXIT"@, NANO as int, 500_000_000) is Some
    &&& number(env, "DRIFT_EXIT"@, PICO as int, 30_000_000) is Some
    &&& number(env, "PANIC_HAIRCUT"@, NANO as int, 500_000_000) is Some
    &&& number(env, "TAKER_FEE_RATE"@, NANO as int, 70_000_000) is Some
    &&& number(env, "DRIFT_HALFLIFE_S"@, NANO as int, 25_000_000_000) is Some
    &&& number(env, "VOL_FLOOR"@, NANO as int, 300_000_000) is Some
    &&& number(env, "OBI_THRESHOLD"@, NANO as int, 800_000_000) is Some
    &&& number(env, "VELOCITY_THRESHOLD"@, NANO as int, 45_000_000_000) is Some
    &&& number(env, "DIST_EXIT_USD"@, NANO as int, 0) is Some
    &&& number(env, "PANIC_FLOOR"@, NANO as int, 0) is Some
    &&& number(env, "SECURE_WALL_USDC"@, NANO as int, 0) is Some
    &&& number(env, "SECURE_MIN_PRICE"@, NANO as int, 0) is Some
    &&& number(env, "STACK_SKIM_GAIN"@, NANO as int, 0) is Some
    &&& number(env, "STACK_CAP_FRACTION"@, NANO as int, 0) is Some
    &&& number(env, "PAPER_WALLET0"@, NANO as int, 0) is Some
}

impl Config {
    /// The settings that the environment gives, with the mode already read;
    /// nothing where a number of the environment is out of range.
    pub fn with_mode(env: &Vec<EnvVar>, mode: String) -> (r: Option<Config>)
        ensures
            match r {
                Some(c) => settings(env@, mode@, c),
                None => !in_range(env@),
            },
            in_range(env@) ==> r is Some,
    {
        let live = same(mode.as_str(), "live");
        let grind_base: i64 = match f(env, "GRIND_BASE", NANO, 1_000_000_000) {
            Some(x) => x,
            None => return None,
        };
        let entry_min: i64 = match f(env, "ENTRY_MIN", NANO, 950_000_000) {
            Some(x) => x,
            None => return None,
        };
        let entry_max: i64 = match f(env, "ENTRY_MAX", NANO, 990_000_000) {
            Some(x) => x,
            None => return None,
        };
        let z_entry: i64 = match f(env, "Z_ENTRY", NANO, 1_500_000_000) {
            Some(x) => x,
            None => return None,
        };
        let z_exit: i64 = match f(env, "Z_EXIT", NANO, 500_000_000) {
            Some(x) => x,
            None => return None,
        };
        let drift_exit: i64 = match f(env, "DRIFT_EXIT", PICO, 30_000_000) {
            Some(x) => x,
            None => return None,
        };
        let panic_haircut: i64 = match f(env, "PANIC_HAIRCUT", NANO, 500_000_000) {
            Some(x) => x,
            None => return None,
        };
        let taker_fee_rate: i64 = match f(env, "TAKER_FEE_RATE", NANO, 70_000_000) {
            Some(x) => x,
            None => return None,
        };
        let drift_halflife_s: i64 = match f(env, "DRIFT_HALFLIFE_S", NANO, 25_000_000_000) {
            Some(x) => x,
            None => return None,
        };
        let vol_floor: i64 = match f(env, "VOL_FLOOR", NANO, 300_000_000) {
            Some(x) => x,
            None => return None,
        };
        let obi_threshold: i64 = match f(env, "OBI_THRESHOLD", NANO, 800_000_000) {
            Some(x) => x,
            None => return None,
        };
        let velocity_threshold: i64 = match f(env, "VELOCITY_THRESHOLD", NANO, 45_000_000_000) {
            Some(x) => x,
            None => return None,
        };
        let dist_exit_usd: i64 = match f(env, "DIST_EXIT_USD", NANO, 0) {
            Some(x) => x,
            None => return None,
        };
        let panic_floor: i64 = match f(env, "PANIC_FLOOR", NANO, 0) {
            Some(x) => x,
            None => return None,
        };
        let secure_wall_usdc: i64 = match f(env, "SECURE_WALL_USDC", NANO, 0) {
            Some(x) => x,
            None => return None,
        };
        let secure_min_price: i64 = match f(env, "SECURE_MIN_PRICE", NANO, 0) {
            Some(x) => x,
            None => return None,
        };
        let stack_skim_gain: i64 = match f(env, "STACK_SKIM_GAIN", NANO, 0) {
            Some(x) => x,
            None => return None,
        };
        let stack_cap_fraction: i64 = match f(env, "STACK_CAP_FRACTION", NANO, 0) {
            Some(x) => x,
            None => return None,
        };
        let paper_wallet0: i64 = match f(env, "PAPER_WALLET0", NANO, 0) {
            Some(x) => x,
            None => return None,
        };
        let signal_listen = match find(env, "SIGNAL_LISTEN") {
            Some(v) => Some(v.text.clone()),
            None => None,
        };
        let state_default = if live {
            "data/grinder_state_live.json"
        } else {
            "data/grinder_state.json"
        };
        let windows_default = if live {
            "data/grinder_windows_live.jsonl"
        } else {
            "data/grinder_windows.jsonl"
        };
        Some(
            Config {
                grind_base,
                entry_min,
                entry_max,
                z_entry,
                z_exit,
                drift_exit,
                min_remaining_s: i(env, "MIN_REMAINING_S", 15),
                max_remaining_s: i(env, "MAX_REMAINING_S", 240),
                panic_haircut,
                taker_fee_rate,
                book_max_age_ms: i(env, "BOOK_MAX_AGE_MS", 5_000) as u64,
                drift_halflife_s,
                vol_window_ms: i(env, "VOL_WINDOW_MS", 2_000) as u64,
                vol_floor,
                obi_depth_levels: i(env, "OBI_DEPTH_LEVELS", 10) as usize,
                obi_threshold,
                velocity_threshold,
                kill_latch_ms: i(env, "KILL_LATCH_MS", 5_000) as u64,
                guard_max_age_ms: i(env, "GUARD_MAX_AGE_MS", 3_000) as u64,
                remote_max_age_ms: i(env, "REMOTE_MAX_AGE_MS", 3_000) as u64,
                signal_listen,
                guard_stale_exit_s: i(env, "GUARD_STALE_EXIT_S", 0),
                dist_exit_usd,
                panic_floor,
                secure_wall_usdc,
                secure_last_s: i(env, "SECURE_LAST_S", 0),
                secure_min_price,
                reset_window_s: i(env, "RESET_WINDOW_S", 43_200),
                max_resets: i(env, "MAX_RESETS_12H", 0) as u32,
                halt_on_wipe: b(env, "HALT_ON_WIPE"),
                stack_skim_gain,
                stack_cap_fraction,
                paper_wallet0,
                asset: s(env, "ASSET", "btc"),
                binance_symbol: s(env, "BINANCE_SYMBOL", "BTCUSDT"),
                binance_ws_url: s(env, "BINANCE_WS_URL", "wss://stream.binance.com:9443/ws/btcusdt@depth20@100ms"),
                dashboard_bind: s(env, "DASH_BIND", "0.0.0.0"),
                dashboard_port: i(env, "DASH_PORT", 8095) as u16,
                state_path: s(env, "STATE_PATH", state_default),
                windows_path: s(env, "WINDOWS_PATH", windows_default),
                mode,
            },
        )
    }

    /// The settings that the environment gives; nothing where a number of the
    /// environment is out of range.
    pub fn from_env(env: &Vec<EnvVar>) -> (r: Option<Config>)
        ensures
            match r {
                Some(c) => settings(env@, lowercase(text(env@, "TRADING_MODE"@, "paper"@)), c),
                None => !in_range(env@),
            },
            in_range(env@) ==> r is Some,
            r matches Some(c) ==> {
                let raw = text(env@, "TRADING_MODE"@, "paper"@);
                (forall|j: int| 0 <= j < raw.len() ==> (#[trigger] raw[j]) as u32 <= 127) ==> {
                    &&& c.mode@.len() == raw.len()
                    &&& forall|j: int|
                        0 <= j < raw.len() ==> #[trigger] c.mode@[j] == lower_letter(raw[j])
                }
            },
            r matches Some(c) ==> variable(env@, "TRADING_MODE"@) is None ==> c.mode@ == "paper"@
                && !c.live(),
    {
        let raw = s(env, "TRADING_MODE", "paper");
        let mode = to_lowercase(raw.as_str());
        proof {
            reveal_strlit("paper");
            reveal_strlit("live");
            assert("paper"@.len() != "live"@.len());
            if raw@ == "paper"@ {
                assert forall|j: int| 0 <= j < raw@.len() implies (#[trigger] raw@[j]) as u32 <= 127
                    && lower_letter(raw@[j]) == raw@[j] by {}
                assert(mode@ =~= raw@);
            }
        }
        Self::with_mode(env, mode)
    }

    /// The settings that simulations are tested with.
    pub fn default_for_tests() -> (r: Config)
        ensures
            r.wf(),
            !r.live(),
            r.grind_base == 1_000_000_000,
            r.entry_min == 950_000_000,
            r.entry_max == 990_000_000,
            r.z_entry == 1_500_000_000,
            r.z_exit == 500_000_000,
            r.drift_exit == 30_000_000,
            r.min_remaining_s == 15,
            r.max_remaining_s == 240,
            r.panic_haircut == 500_000_000,
            r.taker_fee_rate == 70_000_000,
            r.book_max_age_ms == 5_000,
            r.drift_halflife_s == 25_000_000_000,
            r.vol_window_ms == 2_000,
            r.vol_floor == 300_000_000,
            r.obi_depth_levels == 10,
            r.obi_threshold == 800_000_000,
            r.velocity_threshold == 45_000_000_000,
            r.kill_latch_ms == 5_000,
            r.guard_max_age_ms == 3_000,
            r.remote_max_age_ms == 3_000,
            r.signal_listen is None,
            r.guard_stale_exit_s == 0,
            r.dist_exit_usd == 0,
            r.panic_floor == 0,
            r.secure_wall_usdc == 0,
            r.secure_last_s == 0,
            r.secure_min_price == 0,
            r.reset_window_s == 43_200,
            r.max_resets == 0,
            !r.halt_on_wipe,
            r.stack_skim_gain == 0,
            r.stack_cap_fraction == 0,
            r.paper_wallet0 == 0,
            r.asset@ == "btc"@,
            r.binance_symbol@ == "BTCUSDT"@,
            r.binance_ws_url@.len() == 0,
            r.dashboard_bind@ == "127.0.0.1"@,
            r.dashboard_port == 0,
            r.state_path@ == "/tmp/grinder_state_test.json"@,
            r.windows_path@ == "/tmp/grinder_windows_test.jsonl"@,
            r.mode@ == "paper"@,
    {
        proof {
            reveal_strlit("paper");
            reveal_strlit("live");
            assert("paper"@.len() != "live"@.len());
        }
        Config {
            grind_base: 1_000_000_000,
            entry_min: 950_000_000,
            entry_max: 990_000_000,
            z_entry: 1_500_000_000,
            z_exit: 500_000_000,
            drift_exit: 30_000_000,
            min_remaining_s: 15,
            max_remaining_s: 240,
            panic_haircut: 500_000_000,
            taker_fee_rate: 70_000_000,
            book_max_age_ms: 5_000,
            drift_halflife_s: 25_000_000_000,
            vol_window_ms: 2_000,
            vol_floor: 300_000_000,
            obi_depth_levels: 10,
            obi_threshold: 800_000_000,
            velocity_threshold: 45_000_000_000,
            kill_latch_ms: 5_000,
            guard_max_age_ms: 3_000,
            remote_max_age_ms: 3_000,
            signal_listen: None,
            guard_stale_exit_s: 0,
            dist_exit_usd: 0,
            panic_floor: 0,
            secure_wall_usdc: 0,
            secure_last_s: 0,
            secure_min_price: 0,
            reset_window_s: 43_200,
            max_resets: 0,
            halt_on_wipe: false,
            stack_skim_gain: 0,
            stack_cap_fraction: 0,
            paper_wallet0: 0,
            asset: "btc".to_owned(),
            binance_symbol: "BTCUSDT".to_owned(),
            binance_ws_url: String::new(),
            dashboard_bind: "127.0.0.1".to_owned(),
            dashboard_port: 0,
            state_path: "/tmp/grinder_state_test.json".to_owned(),
            windows_path: "/tmp/grinder_windows_test.jsonl".to_owned(),
            mode: "paper".to_owned(),
        }
    }
}

/// Real and simulated play never share their files, unless they are told to.
pub proof fn live_and_paper_are_apart(
    live_env: Seq<EnvVar>,
    paper_env: Seq<EnvVar>,
    paper_mode: Seq<char>,
    live: Config,
    paper: Config,
)
    requires
        settings(live_env, "live"@, live),
        settings(paper_env, paper_mode, paper),
        paper_mode != "live"@,
        variable(live_env, "STATE_PATH"@) is None,
        variable(paper_env, "STATE_PATH"@) is None,
        variable(live_env, "WINDOWS_PATH"@) is None,
        variable(paper_env, "WINDOWS_PATH"@) is None,
    ensures
        live.live(),
        !paper.live(),
        live.state_path@ != paper.state_path@,
        live.windows_path@ != paper.windows_path@,
{
    reveal_strlit("data/grinder_state_live.json");
    reveal_strlit("data/grinder_state.json");
    reveal_strlit("data/grinder_windows_live.jsonl");
    reveal_strlit("data/grinder_windows.jsonl");
    assert("data/grinder_state_live.json"@.len() != "data/grinder_state.json"@.len());
    assert("data/grinder_windows_live.jsonl"@.len() != "data/grinder_windows.jsonl"@.len());
}

/// A setting that the environment does not name, or names with what is no number
/// where one is wanted, has its default: the base is one
/// dollar, the band goes from 95 to 99 cents, and what is not set otherwise is
/// switched off.
pub proof fn settings_have_their_defaults(env: Seq<EnvVar>, mode: Seq<char>, c: Config)
    requires
        settings(env, mode, c),
    ensures
        c.mode@ == mode,
        (match variable(env, "GRIND_BASE"@) {
            Some(v) => v.bits is None,
            None => true,
        }) ==> c.grind_base == 1_000_000_000,
        (match variable(env, "ENTRY_MIN"@) {
            Some(v) => v.bits is None,
            None => true,
        }) ==> c.entry_min == 950_000_000,
        (match variable(env, "ENTRY_MAX"@) {
            Some(v) => v.bits is None,
            None => true,
        }) ==> c.entry_max == 990_000_000,
        (match variable(env, "Z_ENTRY"@) {
            Some(v) => v.bits is None,
            None => true,
        }) ==> c.z_entry == 1_500_000_000,
        (match variable(env, "Z_EXIT"@) {
            Some(v) => v.bits is None,
            None => true,
        }) ==> c.z_exit == 500_000_000,
        (match variable(env, "DRIFT_EXIT"@) {
            Some(v) => v.bits is None,
            None => true,
        }) ==> c.drift_exit == 30_000_000,
        (match variable(env, "PANIC_HAIRCUT"@) {
            Some(v) => v.bits is None,
            None => true,
        }) ==> c.panic_haircut == 500_000_000,
        (match variable(env, "TAKER_FEE_RATE"@) {
            Some(v) => v.bits is None,
            None => true,
        }) ==> c.taker_fee_rate == 70_000_000,
        (match variable(env, "DRIFT_HALFLIFE_S"@) {
            Some(v) => v.bits is None,
            None => true,
        }) ==> c.drift_halflife_s == 25_000_000_000,
        (match variable(env, "VOL_FLOOR"@) {
            Some(v) => v.bits is None,
            None => true,
        }) ==> c.vol_floor == 300_000_000,
        (match variable(env, "OBI_THRESHOLD"@) {
            Some(v) => v.bits is None,
            None => true,
        }) ==> c.obi_threshold == 800_000_000,
        (match variable(env, "VELOCITY_THRESHOLD"@) {
            Some(v) => v.bits is None,
            None => true,
        }) ==> c.velocity_threshold == 45_000_000_000,
        (match variable(env, "DIST_EXIT_USD"@) {
            Some(v) => v.bits is None,
            None => true,
        }) ==> c.dist_exit_usd == 0,
        (match variable(env, "PANIC_FLOOR"@) {
            Some(v) => v.bits is None,
            None => true,
        }) ==> c.panic_floor == 0,
        (match variable(env, "SECURE_WALL_USDC"@) {
            Some(v) => v.bits is None,
            None => true,
        }) ==> c.secure_wall_usdc == 0,
        (match variable(env, "SECURE_MIN_PRICE"@) {
            Some(v) => v.bits is None,
            None => true,
        }) ==> c.secure_min_price == 0,
        (match variable(env, "STACK_SKIM_GAIN"@) {
            Some(v) => v.bits is None,
            None => true,
        }) ==> c.stack_skim_gain == 0,
        (match variable(env, "STACK_CAP_FRACTION"@) {
            Some(v) => v.bits is None,
            None => true,
        }) ==> c.stack_cap_fraction == 0,
        (match variable(env, "PAPER_WALLET0"@) {
            Some(v) => v.bits is None,
            None => true,
        }) ==> c.paper_wallet0 == 0,
        (match variable(env, "MIN_REMAINING_S"@) {
            Some(v) => integer_of(v.text@) is None,
            None => true,
        }) ==> c.min_remaining_s == 15,
        (match variable(env, "MAX_REMAINING_S"@) {
            Some(v) => integer_of(v.text@) is None,
            None => true,
        }) ==> c.max_remaining_s == 240,
        (match variable(env, "BOOK_MAX_AGE_MS"@) {
            Some(v) => integer_of(v.text@) is None,
            None => true,
        }) ==> c.book_max_age_ms == 5_000,
        (match variable(env, "VOL_WINDOW_MS"@) {
            Some(v) => integer_of(v.text@) is None,
            None => true,
        }) ==> c.vol_window_ms == 2_000,
        (match variable(env, "OBI_DEPTH_LEVELS"@) {
            Some(v) => integer_of(v.text@) is None,
            None => true,
        }) ==> c.obi_depth_levels == 10,
        (match variable(env, "KILL_LATCH_MS"@) {
            Some(v) => integer_of(v.text@) is None,
            None => true,
        }) ==> c.kill_latch_ms == 5_000,
        (match variable(env, "GUARD_MAX_AGE_MS"@) {
            Some(v) => integer_of(v.text@) is None,
            None => true,
        }) ==> c.guard_max_age_ms == 3_000,
        (match variable(env, "REMOTE_MAX_AGE_MS"@) {
            Some(v) => integer_of(v.text@) is None,
            None => true,
        }) ==> c.remote_max_age_ms == 3_000,
        (match variable(env, "GUARD_STALE_EXIT_S"@) {
            Some(v) => integer_of(v.text@) is None,
            None => true,
        }) ==> c.guard_stale_exit_s == 0,
        (match variable(env, "SECURE_LAST_S"@) {
            Some(v) => integer_of(v.text@) is None,
            None => true,
        }) ==> c.secure_last_s == 0,
        (match variable(env, "RESET_WINDOW_S"@) {
            Some(v) => integer_of(v.text@) is None,
            None => true,
        }) ==> c.reset_window_s == 43_200,
        (match variable(env, "MAX_RESETS_12H"@) {
            Some(v) => integer_of(v.text@) is None,
            None => true,
        }) ==> c.max_resets == 0,
        (match variable(env, "DASH_PORT"@) {
            Some(v) => integer_of(v.text@) is None,
            None => true,
        }) ==> c.dashboard_port == 8095,
        variable(env, "ASSET"@) is None ==> c.asset@ == "btc"@,
        variable(env, "BINANCE_SYMBOL"@) is None ==> c.binance_symbol@ == "BTCUSDT"@,
        variable(env, "BINANCE_WS_URL"@) is None ==> c.binance_ws_url@ == "wss://stream.binance.com:9443/ws/btcusdt@depth20@100ms"@,
        variable(env, "DASH_BIND"@) is None ==> c.dashboard_bind@ == "0.0.0.0"@,
        variable(env, "SIGNAL_LISTEN"@) is None ==> c.signal_listen is None,
        variable(env, "HALT_ON_WIPE"@) is None ==> !c.halt_on_wipe,
        variable(env, "STATE_PATH"@) is None && mode == "live"@ ==> c.state_path@
            == "data/grinder_state_live.json"@,
        variable(env, "STATE_PATH"@) is None && mode != "live"@ ==> c.state_path@
            == "data/grinder_state.json"@,
        variable(env, "WINDOWS_PATH"@) is None && mode == "live"@ ==> c.windows_path@
            == "data/grinder_windows_live.jsonl"@,
        variable(env, "WINDOWS_PATH"@) is None && mode != "live"@ ==> c.windows_path@
            == "data/grinder_windows.jsonl"@,
{
}

/// A setting that the environment names is what its variable says: the number
/// nearest to a double, an integer, or a text as it stands.
pub proof fn settings_follow_their_variables(env: Seq<EnvVar>, mode: Seq<char>, c: Config)
    requires
        settings(env, mode, c),
    ensures
        variable(env, "GRIND_BASE"@) matches Some(v) ==> (v.bits matches Some(b) ==> fixed_of_bits(
            b,
            1_000_000_000,
        ) == Some(c.grind_base as int)),
        variable(env, "ENTRY_MIN"@) matches Some(v) ==> (v.bits matches Some(b) ==> fixed_of_bits(
            b,
            1_000_000_000,
        ) == Some(c.entry_min as int)),
        variable(env, "ENTRY_MAX"@) matches Some(v) ==> (v.bits matches Some(b) ==> fixed_of_bits(
            b,
            1_000_000_000,
        ) == Some(c.entry_max as int)),
        variable(env, "Z_ENTRY"@) matches Some(v) ==> (v.bits matches Some(b) ==> fixed_of_bits(
            b,
            1_000_000_000,
        ) == Some(c.z_entry as int)),
        variable(env, "Z_EXIT"@) matches Some(v) ==> (v.bits matches Some(b) ==> fixed_of_bits(
            b,
            1_000_000_000,
        ) == Some(c.z_exit as int)),
        variable(env, "DRIFT_EXIT"@) matches Some(v) ==> (v.bits matches Some(b) ==> fixed_of_bits(
            b,
            1_000_000_000_000,
        ) == Some(c.drift_exit as int)),
        variable(env, "PANIC_HAIRCUT"@) matches Some(v) ==> (v.bits matches Some(b) ==> fixed_of_bits(
            b,
            1_000_000_000,
        ) == Some(c.panic_haircut as int)),
        variable(env, "TAKER_FEE_RATE"@) matches Some(v) ==> (v.bits matches Some(b) ==> fixed_of_bits(
            b,
            1_000_000_000,
        ) == Some(c.taker_fee_rate as int)),
        variable(env, "DRIFT_HALFLIFE_S"@) matches Some(v) ==> (v.bits matches Some(b) ==> fixed_of_bits(
            b,
            1_000_000_000,
        ) == Some(c.drift_halflife_s as int)),
        variable(env, "VOL_FLOOR"@) matches Some(v) ==> (v.bits matches Some(b) ==> fixed_of_bits(
            b,
            1_000_000_000,
        ) == Some(c.vol_floor as int)),
        variable(env, "OBI_THRESHOLD"@) matches Some(v) ==> (v.bits matches Some(b) ==> fixed_of_bits(
            b,
            1_000_000_000,
        ) == Some(c.obi_threshold as int)),
        variable(env, "VELOCITY_THRESHOLD"@) matches Some(v) ==> (v.bits matches Some(b) ==> fixed_of_bits(
            b,
            1_000_000_000,
        ) == Some(c.velocity_threshold as int)),
        variable(env, "DIST_EXIT_USD"@) matches Some(v) ==> (v.bits matches Some(b) ==> fixed_of_bits(
            b,
            1_000_000_000,
        ) == Some(c.dist_exit_usd as int)),
        variable(env, "PANIC_FLOOR"@) matches Some(v) ==> (v.bits matches Some(b) ==> fixed_of_bits(
            b,
            1_000_000_000,
        ) == Some(c.panic_floor as int)),
        variable(env, "SECURE_WALL_USDC"@) matches Some(v) ==> (v.bits matches Some(b) ==> fixed_of_bits(
            b,
            1_000_000_000,
        ) == Some(c.secure_wall_usdc as int)),
        variable(env, "SECURE_MIN_PRICE"@) matches Some(v) ==> (v.bits matches Some(b) ==> fixed_of_bits(
            b,
            1_000_000_000,
        ) == Some(c.secure_min_price as int)),
        variable(env, "STACK_SKIM_GAIN"@) matches Some(v) ==> (v.bits matches Some(b) ==> fixed_of_bits(
            b,
            1_000_000_000,
        ) == Some(c.stack_skim_gain as int)),
        variable(env, "STACK_CAP_FRACTION"@) matches Some(v) ==> (v.bits matches Some(b) ==> fixed_of_bits(
            b,
            1_000_000_000,
        ) == Some(c.stack_cap_fraction as int)),
        variable(env, "PAPER_WALLET0"@) matches Some(v) ==> (v.bits matches Some(b) ==> fixed_of_bits(
            b,
            1_000_000_000,
        ) == Some(c.paper_wallet0 as int)),
        variable(env, "MIN_REMAINING_S"@) matches Some(v) ==> (integer_of(v.text@) matches Some(x) ==> c.min_remaining_s
            == x),
        variable(env, "MAX_REMAINING_S"@) matches Some(v) ==> (integer_of(v.text@) matches Some(x) ==> c.max_remaining_s
            == x),
        variable(env, "BOOK_MAX_AGE_MS"@) matches Some(v) ==> (integer_of(v.text@) matches Some(x) ==> c.book_max_age_ms
            == x as u64),
        variable(env, "VOL_WINDOW_MS"@) matches Some(v) ==> (integer_of(v.text@) matches Some(x) ==> c.vol_window_ms
            == x as u64),
        variable(env, "OBI_DEPTH_LEVELS"@) matches Some(v) ==> (integer_of(v.text@) matches Some(x) ==> c.obi_depth_levels
            == x as usize),
        variable(env, "KILL_LATCH_MS"@) matches Some(v) ==> (integer_of(v.text@) matches Some(x) ==> c.kill_latch_ms
            == x as u64),
        variable(env, "GUARD_MAX_AGE_MS"@) matches Some(v) ==> (integer_of(v.text@) matches Some(x) ==> c.guard_max_age_ms
            == x as u64),
        variable(env, "REMOTE_MAX_AGE_MS"@) matches Some(v) ==> (integer_of(v.text@) matches Some(x) ==> c.remote_max_age_ms
            == x as u64),
        variable(env, "GUARD_STALE_EXIT_S"@) matches Some(v) ==> (integer_of(v.text@) matches Some(x) ==> c.guard_stale_exit_s
            == x),
        variable(env, "SECURE_LAST_S"@) matches Some(v) ==> (integer_of(v.text@) matches Some(x) ==> c.secure_last_s
            == x),
        variable(env, "RESET_WINDOW_S"@) matches Some(v) ==> (integer_of(v.text@) matches Some(x) ==> c.reset_window_s
            == x),
        variable(env, "MAX_RESETS_12H"@) matches Some(v) ==> (integer_of(v.text@) matches Some(x) ==> c.max_resets
            == x as u32),
        variable(env, "DASH_PORT"@) matches Some(v) ==> (integer_of(v.text@) matches Some(x) ==> c.dashboard_port
            == x as u16),
        variable(env, "ASSET"@) matches Some(v) ==> c.asset@ == v.text@,
        variable(env, "BINANCE_SYMBOL"@) matches Some(v) ==> c.binance_symbol@ == v.text@,
        variable(env, "BINANCE_WS_URL"@) matches Some(v) ==> c.binance_ws_url@ == v.text@,
        variable(env, "DASH_BIND"@) matches Some(v) ==> c.dashboard_bind@ == v.text@,
        variable(env, "STATE_PATH"@) matches Some(v) ==> c.state_path@ == v.text@,
        variable(env, "WINDOWS_PATH"@) matches Some(v) ==> c.windows_path@ == v.text@,
        variable(env, "SIGNAL_LISTEN"@) matches Some(v) ==> c.signal_listen == Some(v.text),
        variable(env, "HALT_ON_WIPE"@) matches Some(v) ==> (c.halt_on_wipe <==> switched_on(v.text@)),
{
}

/// The first variable of a name is the one that counts.
pub proof fn the_first_variable_counts(env: Seq<EnvVar>, key: Seq<char>)
    ensures
        variable(env, key) is None <==> forall|i: int|
            0 <= i < env.len() ==> (#[trigger] env[i]).key@ != key,
        variable(env, key) matches Some(v) ==> exists|i: int|
            0 <= i < env.len() && #[trigger] env[i] == v && v.key@ == key && forall|j: int|
                0 <= j < i ==> (#[trigger] env[j]).key@ != key,
    decreases env.len(),
{
    if env.len() > 0 {
        let front = env.drop_last();
        let n = env.len() - 1;
        the_first_variable_counts(front, key);
        if let Some(v) = variable(front, key) {
            let i = choose|i: int|
                0 <= i < front.len() && #[trigger] front[i] == v && v.key@ == key && forall|j: int|
                    0 <= j < i ==> (#[trigger] front[j]).key@ != key;
            assert(env[i] == v);
            assert forall|j: int| 0 <= j < i implies (#[trigger] env[j]).key@ != key by {
                assert(front[j].key@ != key);
            }
        } else {
            assert forall|j: int| 0 <= j < n implies (#[trigger] env[j]).key@ != key by {
                assert(front[j].key@ != key);
            }
            assert(env[n] == env.last());
        }
    }
}

/// An environment whose numbers are all in range gives settings.
pub proof fn numbers_in_range_give_settings(env: Seq<EnvVar>)
    requires
        forall|i: int|
            0 <= i < env.len() ==> ((#[trigger] env[i]).bits matches Some(b) ==> fixed_of_bits(
                b,
                1_000_000_000,
            ) is Some && fixed_of_bits(b, 1_000_000_000_000) is Some),
    ensures
        in_range(env),
{
    assert forall|key: Seq<char>, scale: int, default: int|
        scale == 1_000_000_000 || scale == 1_000_000_000_000 implies #[trigger] number(
        env,
        key,
        scale,
        default,
    ) is Some by {
        the_first_variable_counts(env, key);
        if let Some(v) = variable(env, key) {
            let i = choose|i: int| 0 <= i < env.len() && #[trigger] env[i] == v;
            assert(env[i] == v);
        }
    }
}

} // verus!
