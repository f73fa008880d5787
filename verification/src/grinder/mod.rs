//! The bot itself: it holds at most one position, enters a window at most once,
//! and decides what to do next. It performs nothing outside: each method takes
//! what was read, and says what is to be done.

pub mod closing;
pub mod entry;
pub mod exits;
pub mod housekeeping;
pub mod publish;
pub mod wallet;

use vstd::prelude::*;

use crate::config::Config;
use crate::dashboard::{apply_state, DashState, WINDOWS_SHOWN};
use crate::fixed::{amount, instant, max, max_of, signed, LIMIT};
use crate::position::{side_name, Market, Phase};
use crate::remote_guard::RemoteState;
use crate::state::{last_of, tail_windows, GrinderState, WindowRecord};
use crate::text::{fixed_text, fixed_text_of, two_decimals, two_decimals_of};
use crate::tokyo::{GuardState, TokyoGuard};

verus! {

/// A measure of the liquidity between the spot and the strike.
#[derive(Debug, Clone, Copy, PartialEq, Eq, Structural)]
pub struct Wall {
    pub ts_ms: i64,
    pub usdc: i64,
}

/// The state of the bot.
#[derive(Debug)]
pub struct Grinder {
    pub cfg: Config,
    pub guard: TokyoGuard,
    /// What the remote radar said last, if there is one.
    pub remote: Option<RemoteState>,
    pub st: GrinderState,
    pub phase: Phase,
    pub market: Option<Market>,
    /// The price that the window is decided against.
    pub strike: Option<i64>,
    /// The window that was entered last.
    pub last_played_window: i64,
    /// The official verdict has contradicted a resolution.
    pub reconcile_halt: bool,
    /// The last evaluations of the whole wallet.
    pub wallet_evals: Vec<i64>,
    /// The wallet as it was last read; zero before that.
    pub wallet_live: i64,
    /// When the wall was last measured.
    pub last_wall_poll_ms: i64,
    pub last_wall: Option<Wall>,
    pub dash: DashState,
}

/// Why the bot does not start.
#[derive(Debug, Clone, Copy, PartialEq, Eq, Structural)]
pub enum StartError {
    /// Real orders are asked for, and the program cannot place any.
    LiveNotBuilt,
    /// The wallet holds less than the stake that a run starts from.
    Underfunded(i64, i64),
}

impl StartError {
    pub open spec fn text(self) -> Seq<char> {
        match self {
            StartError::LiveNotBuilt => "TRADING_MODE=live mais binaire compilé SANS --features live"@,
            StartError::Underfunded(collateral, base) => "collatéral "@ + two_decimals(
                collateral as int,
            ) + "$ < mise de base "@ + fixed_text(base as int) + "$ — dépôt requis"@,
        }
    }

    /// What is said of the error.
    pub fn message(&self) -> (r: String)
        ensures
            r@ == self.text(),
    {
        match self {
            StartError::LiveNotBuilt => "TRADING_MODE=live mais binaire compilé SANS --features live".to_owned(),
            StartError::Underfunded(collateral, base) => "collatéral ".to_owned().concat(
                two_decimals_of(*collateral).as_str(),
            ).concat("$ < mise de base ").concat(fixed_text_of(*base).as_str()).concat(
                "$ — dépôt requis",
            ),
        }
    }
}

/// Whether the bot may start: real orders need a program that can place them,
/// which is `built` for it, and a wallet with the base. The `collateral` is
/// that of the wallet, where there is one.
pub fn check_start(cfg: &Config, built: bool, collateral: Option<i64>) -> (r: Result<(), StartError>)
    ensures
        cfg.live() && !built ==> r == Err::<(), StartError>(StartError::LiveNotBuilt),
        cfg.live() && built ==> r == (match collateral {
            Some(c) if c < cfg.grind_base => Err::<(), StartError>(
                StartError::Underfunded(c, cfg.grind_base),
            ),
            _ => Ok(()),
        }),
        !cfg.live() ==> r == Ok::<(), StartError>(()),
{
    if !cfg.is_live() {
        return Ok(());
    }
    if !built {
        return Err(StartError::LiveNotBuilt);
    }
    match collateral {
        Some(c) => if c < cfg.grind_base {
            Err(StartError::Underfunded(c, cfg.grind_base))
        } else {
            Ok(())
        },
        None => Ok(()),
    }
}

/// What the guard says: the remote radar while it is fresh, with the volatility
/// of the local estimate and the alarms of both, and otherwise the local guard.
pub open spec fn merged(
    local: GuardState,
    remote: Option<RemoteState>,
    now_ms: int,
    max_age_ms: int,
) -> GuardState {
    match remote {
        Some(r) => {
            let gs = r.guard(now_ms);
            if gs.fresh(now_ms, max_age_ms) {
                GuardState { sigma: local.sigma, kill: gs.kill || local.kill, ..gs }
            } else {
                local
            }
        },
        None => local,
    }
}

/// What the wallet is thought to hold: what was last read, or, in simulation,
/// what it started with and the profit since; nothing where that is unknown.
pub open spec fn wallet_estimate(cfg: Config, realized_pnl: int, wallet_live: int) -> int {
    if wallet_live > 0 {
        wallet_live
    } else if !cfg.live() {
        max(cfg.paper_wallet0 + realized_pnl, 0)
    } else {
        0
    }
}

/// A tick of the remote radar while a position is open.
#[derive(Debug)]
pub struct TickRecord {
    pub ts_ms: u64,
    pub window_ts: i64,
    pub side: String,
    pub spot: i64,
    pub sigma: i64,
    pub drift: i64,
    /// The order flow imbalance, as the bits of a double.
    pub ofi: u64,
    pub obi: i64,
    pub velocity: i64,
    /// The impulse, as the bits of a double.
    pub impulse: u64,
    pub kill: bool,
}

impl Grinder {
    /// The amounts and instants are in range, and a bot that holds a position
    /// can close it.
    pub open spec fn wf(self) -> bool {
        &&& self.cfg.wf()
        &&& self.guard.wf()
        &&& self.remote matches Some(r) ==> r.wf()
        &&& self.st.wf()
        &&& self.phase matches Phase::InPosition(p) ==> p.wf() && self.st.has_room()
        &&& self.market matches Some(m) ==> m.wf()
        &&& self.strike matches Some(k) ==> signed(k)
        &&& forall|i: int|
            0 <= i < self.wallet_evals@.len() ==> 0 <= #[trigger] self.wallet_evals@[i] <= 2 * LIMIT
        &&& self.wallet_evals@.len() <= 3
        &&& amount(self.wallet_live)
        &&& instant(self.last_wall_poll_ms)
        &&& self.last_wall matches Some(w) ==> instant(w.ts_ms) && amount(w.usdc)
    }

    /// A bot that starts from `st`, with the last windows of its ledger. The
    /// stack is no more than the `collateral` of the wallet, where that is
    /// known. With `listens`, it has a remote radar.
    pub fn new(
        cfg: Config,
        st: GrinderState,
        windows: Vec<WindowRecord>,
        collateral: Option<i64>,
        listens: bool,
    ) -> (r: Self)
        requires
            cfg.wf(),
            st.wf(),
            collateral matches Some(c) ==> amount(c),
        ensures
            r.wf(),
            r.cfg == cfg,
            r.guard.state == GuardState::blank(),
            r.guard.radar.history@.len() == 0,
            r.guard.radar.lookback_ms == 1000,
            r.guard.radar.obi_depth_levels == cfg.obi_depth_levels,
            r.guard.radar.obi_threshold == cfg.obi_threshold,
            r.guard.radar.velocity_threshold == cfg.velocity_threshold,
            r.guard.kill_latch_until_ms == 0,
            r.guard.kill_latch_ms == cfg.kill_latch_ms,
            r.remote == (if listens {
                Some(RemoteState::blank())
            } else {
                None
            }),
            r.st == (GrinderState {
                stack: match collateral {
                    Some(c) => if st.stack > c {
                        c
                    } else {
                        st.stack
                    },
                    None => st.stack,
                },
                ..st
            }),
            r.phase == Phase::Scanning,
            r.market is None,
            r.strike is None,
            r.last_played_window == 0,
            !r.reconcile_halt,
            r.wallet_evals@.len() == 0,
            r.wallet_live == 0,
            r.last_wall_poll_ms == 0,
            r.last_wall is None,
            r.dash.windows@ == last_of(windows@, WINDOWS_SHOWN as int),
            r.dash.phase@ == "waiting_market"@,
            r.dash.with_state(r.st) == r.dash,
            r.dash.unset(),
    {
        let guard = TokyoGuard::new(&cfg);
        let mut st = st;
        match collateral {
            Some(c) => {
                if st.stack > c {
                    st.stack = c;
                }
            },
            None => {},
        }
        let mut dash = DashState::new();
        dash.windows = tail_windows(windows, WINDOWS_SHOWN);
        apply_state(&mut dash, &st);
        dash.phase = "waiting_market".to_owned();
        let remote = if listens {
            Some(RemoteState::new())
        } else {
            None
        };
        Grinder {
            cfg,
            guard,
            remote,
            st,
            phase: Phase::Scanning,
            market: None,
            strike: None,
            last_played_window: 0,
            reconcile_halt: false,
            wallet_evals: Vec::new(),
            wallet_live: 0,
            last_wall_poll_ms: 0,
            last_wall: None,
            dash,
        }
    }

    pub open spec fn guard_at(self, now_ms: int) -> GuardState {
        merged(self.guard.state, self.remote, now_ms, self.cfg.remote_max_age_ms as int)
    }

    /// What the guard says at `now_ms`.
    pub fn guard_now(&self, now_ms: i64) -> (r: GuardState)
        requires
            self.wf(),
            instant(now_ms),
        ensures
            r == self.guard_at(now_ms as int),
            r.wf(),
    {
        let local = self.guard.state();
        match &self.remote {
            Some(q) => {
                let gs = q.as_guard_state(now_ms as u64);
                if gs.is_fresh(now_ms as u64, self.cfg.remote_max_age_ms) {
                    GuardState { sigma: local.sigma, kill: gs.kill || local.kill, ..gs }
                } else {
                    local
                }
            },
            None => local,
        }
    }

    /// What the wallet is thought to hold.
    pub fn wallet_estimate(&self) -> (r: i64)
        requires
            self.wf(),
        ensures
            r == wallet_estimate(self.cfg, self.st.realized_pnl as int, self.wallet_live as int),
            0 <= r <= 2 * LIMIT,
    {
        if self.wallet_live > 0 {
            self.wallet_live
        } else if !self.cfg.is_live() {
            max_of(self.cfg.paper_wallet0 + self.st.realized_pnl, 0)
        } else {
            0
        }
    }

    /// Takes in what the wallet is now thought to hold.
    pub fn on_wallet(&mut self, wallet: i64)
        requires
            old(self).wf(),
            amount(wallet),
        ensures
            final(self).wf(),
            *final(self) == (Grinder {
                wallet_live: wallet,
                dash: DashState { live_collateral: wallet, ..old(self).dash },
                ..*old(self)
            }),
    {
        self.wallet_live = wallet;
        self.dash.live_collateral = wallet;
    }

    /// The tick that the remote radar sent last, to be kept while a position is
    /// open.
    pub fn record_tick(&self) -> (r: Option<TickRecord>)
        ensures
            match (self.phase, self.remote) {
                (Phase::InPosition(pos), Some(t)) => {
                    &&& r matches Some(rec)
                    &&& rec.ts_ms == t.ts_ms_local
                    &&& rec.window_ts == pos.window_ts
                    &&& rec.side@ == side_name(pos.side_up)
                    &&& rec.spot == t.spot
                    &&& rec.sigma == t.sigma
                    &&& rec.drift == t.drift
                    &&& rec.ofi == t.ofi
                    &&& rec.obi == t.obi
                    &&& rec.velocity == t.velocity
                    &&& rec.impulse == t.impulse
                    &&& rec.kill == (t.ts_ms_local < t.kill_until_ms)
                },
                _ => r is None,
            },
    {
        match (&self.phase, &self.remote) {
            (Phase::InPosition(pos), Some(t)) => Some(
                TickRecord {
                    ts_ms: t.ts_ms_local,
                    window_ts: pos.window_ts,
                    side: pos.side_str().to_owned(),
                    spot: t.spot,
                    sigma: t.sigma,
                    drift: t.drift,
                    ofi: t.ofi,
                    obi: t.obi,
                    velocity: t.velocity,
                    impulse: t.impulse,
                    kill: t.ts_ms_local < t.kill_until_ms,
                },
            ),
            _ => None,
        }
    }
}

/// The margin is always measured with the local volatility, and no alarm is
/// missed: whichever guard speaks, the volatility is the local one, and the
/// local alarm is heard. An alarm of the remote radar is heard while it is
/// fresh.
pub proof fn guards_are_merged(
    local: GuardState,
    remote: Option<RemoteState>,
    now_ms: int,
    max_age_ms: int,
)
    ensures
        merged(local, remote, now_ms, max_age_ms).sigma == local.sigma,
        local.kill ==> merged(local, remote, now_ms, max_age_ms).kill,
        remote matches Some(r) ==> r.guard(now_ms).fresh(now_ms, max_age_ms) && now_ms
            < r.kill_until_ms ==> merged(local, remote, now_ms, max_age_ms).kill,
        remote matches Some(r) ==> !r.guard(now_ms).fresh(now_ms, max_age_ms) ==> merged(
            local,
            remote,
            now_ms,
            max_age_ms,
        ) == local,
{
}

/// While the remote radar is fresh it is believed in everything but the volatility,
/// and an alarm of either is heard; once it is not, it is not believed in
/// anything.
pub proof fn the_fresh_radar_is_believed(
    local: GuardState,
    r: RemoteState,
    now_ms: int,
    max_age_ms: int,
)
    ensures
        ({
            let gs = merged(local, Some(r), now_ms, max_age_ms);
            let fresh = r.ts_ms_local > 0 && max_age_ms > 0 && now_ms < r.ts_ms_local + max_age_ms;
            &&& fresh ==> {
                &&& gs.ts_ms == r.ts_ms_local
                &&& gs.spot == r.spot
                &&& gs.drift == r.drift
                &&& gs.obi == r.obi
                &&& gs.velocity == r.velocity
                &&& gs.sigma == local.sigma
                &&& gs.kill <==> local.kill || now_ms < r.kill_until_ms
            }
            &&& !fresh ==> gs == local
        }),
        merged(local, None, now_ms, max_age_ms) == local,
{
}

/// The wallet is what was read last; where nothing was, a simulation counts what it
/// started with and its profit, as long as anything is left.
pub proof fn the_wallet_is_what_was_read(cfg: Config, realized_pnl: int, wallet_live: int)
    ensures
        wallet_live > 0 ==> wallet_estimate(cfg, realized_pnl, wallet_live) == wallet_live,
        wallet_live <= 0 && cfg.mode@ == "live"@ ==> wallet_estimate(cfg, realized_pnl, wallet_live)
            == 0,
        wallet_live <= 0 && cfg.mode@ != "live"@ && cfg.paper_wallet0 + realized_pnl >= 0
            ==> wallet_estimate(cfg, realized_pnl, wallet_live) == cfg.paper_wallet0 + realized_pnl,
        wallet_live <= 0 && cfg.mode@ != "live"@ && cfg.paper_wallet0 + realized_pnl <= 0
            ==> wallet_estimate(cfg, realized_pnl, wallet_live) == 0,
{
}

/// The guard at an instant is the local one together with the remote radar, which
/// grows stale at the age that is set for it.
pub proof fn both_guards_are_asked(g: Grinder, now_ms: int)
    ensures
        g.remote is None ==> g.guard_at(now_ms) == g.guard.state,
        g.remote matches Some(r) ==> ({
            let fresh = r.ts_ms_local > 0 && g.cfg.remote_max_age_ms > 0 && now_ms < r.ts_ms_local
                + g.cfg.remote_max_age_ms;
            &&& !fresh ==> g.guard_at(now_ms) == g.guard.state
            &&& fresh ==> g.guard_at(now_ms).spot == r.spot && g.guard_at(now_ms).drift == r.drift
                && g.guard_at(now_ms).ts_ms == r.ts_ms_local && g.guard_at(now_ms).sigma
                == g.guard.state.sigma
            &&& fresh ==> (g.guard_at(now_ms).kill <==> g.guard.state.kill || now_ms < r.kill_until_ms)
        }),
{
}

} // verus!
