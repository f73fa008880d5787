//! What the dashboard shows of the bot.

use vstd::prelude::*;

use super::entry::{ask_of, the_ask_is_the_lowest};
use super::exits::position_margin;
use super::Grinder;
use crate::book::PolyBook;
use crate::dashboard::{apply_state, DashState};
use crate::fixed::{instant, max, signed};
use crate::position::{seconds_left, side_name, Phase};

verus! {

/// The ask to show: zero where there is none.
pub open spec fn shown_ask(book: Option<PolyBook>) -> int {
    match ask_of(book) {
        Some(a) => a as int,
        None => 0,
    }
}

fn ask_shown(book: Option<&PolyBook>) -> (r: i64)
    ensures
        r == shown_ask(
            match book {
                Some(b) => Some(*b),
                None => None,
            },
        ),
{
    match book {
        Some(b) => match b.best_ask() {
            Some(a) => a,
            None => 0,
        },
        None => 0,
    }
}

impl Grinder {
    /// How the bot plays: as it is set, unless it is live, where it may be a
    /// rehearsal.
    pub open spec fn mode_text(self, armed: Option<bool>) -> Seq<char> {
        match armed {
            Some(true) => "live"@,
            Some(false) => "live (dry-run)"@,
            None => self.cfg.mode@,
        }
    }

    /// What the bot is doing.
    pub open spec fn phase_text(self) -> Seq<char> {
        if self.phase is InPosition {
            "in_position"@
        } else if self.market is Some {
            "scanning"@
        } else {
            "waiting_market"@
        }
    }

    /// `after` shows the guard, the window, the accounts and the position of
    /// the bot at `now_ms`. What it shows besides is what `before` showed.
    pub open spec fn shown(
        self,
        before: DashState,
        after: DashState,
        now_ms: int,
        up_book: Option<PolyBook>,
        down_book: Option<PolyBook>,
        armed: Option<bool>,
        log_ratio: int,
    ) -> bool {
        let gs = self.guard_at(now_ms);
        &&& after.binance_connected == gs.fresh(now_ms, self.cfg.guard_max_age_ms as int)
        &&& after.spot == gs.spot
        &&& after.drift == gs.drift
        &&& after.sigma == gs.sigma
        &&& after.obi == gs.obi
        &&& after.velocity == gs.velocity
        &&& after.kill == gs.kill
        &&& after.guard_age_ms == max(now_ms - gs.ts_ms, 0)
        &&& match self.market {
            Some(m) => {
                &&& after.market_slug@ == m.slug@
                &&& after.remaining_s == seconds_left(m.end_ms as int, now_ms)
                &&& after.up_ask == shown_ask(up_book)
                &&& after.down_ask == shown_ask(down_book)
            },
            None => {
                &&& after.market_slug@.len() == 0
                &&& after.remaining_s == 0
                &&& after.up_ask == before.up_ask
                &&& after.down_ask == before.down_ask
            },
        }
        &&& after.strike == match self.strike {
            Some(k) => k,
            None => 0,
        }
        &&& after.mode@ == self.mode_text(armed)
        &&& after.with_state(self.st) == after
        &&& after.phase@ == self.phase_text()
        &&& match self.phase {
            Phase::Scanning => {
                &&& after.pos_side@.len() == 0
                &&& after.pos_shares == 0
                &&& after.pos_cost == 0
                &&& after.pos_entry_price == 0
                &&& after.pos_z == 0
            },
            Phase::InPosition(p) => {
                &&& after.pos_side@ == side_name(p.side_up)
                &&& after.pos_shares == p.shares
                &&& after.pos_cost == p.cost
                &&& after.pos_entry_price == p.entry_price
                &&& after.pos_z == position_margin(p, gs, max(p.end_ms - now_ms, 0), log_ratio)
            },
        }
        &&& after.last_block_reason == before.last_block_reason
        &&& after.live_collateral == before.live_collateral
        &&& after.asset == before.asset
        &&& after.wallet_day_open == before.wallet_day_open
        &&& after.daily == before.daily
        &&& after.windows == before.windows
    }

    /// Brings the dashboard up to date, given the streamed books of the two
    /// sides, whether real orders are armed, where orders are real, and the
    /// logarithm of the spot over the strike of the position.
    pub fn publish_dash(
        &mut self,
        now_ms: i64,
        up_book: Option<&PolyBook>,
        down_book: Option<&PolyBook>,
        armed: Option<bool>,
        log_ratio: i64,
    )
        requires
            old(self).wf(),
            instant(now_ms),
            signed(log_ratio),
        ensures
            final(self).wf(),
            *final(self) == (Grinder { dash: final(self).dash, ..*old(self) }),
            old(self).shown(
                old(self).dash,
                final(self).dash,
                now_ms as int,
                match up_book {
                    Some(b) => Some(*b),
                    None => None,
                },
                match down_book {
                    Some(b) => Some(*b),
                    None => None,
                },
                armed,
                log_ratio as int,
            ),
    {
        let gs = self.guard_now(now_ms);
        self.dash.binance_connected = gs.is_fresh(now_ms as u64, self.cfg.guard_max_age_ms);
        self.dash.spot = gs.spot;
        self.dash.drift = gs.drift;
        self.dash.sigma = gs.sigma;
        self.dash.obi = gs.obi;
        self.dash.velocity = gs.velocity;
        self.dash.kill = gs.kill;
        self.dash.guard_age_ms = (now_ms as u64).saturating_sub(gs.ts_ms) as i64;
        match &self.market {
            Some(m) => {
                self.dash.market_slug = m.slug.clone();
                self.dash.remaining_s = m.time_remaining_sec(now_ms);
                self.dash.up_ask = ask_shown(up_book);
                self.dash.down_ask = ask_shown(down_book);
            },
            None => {
                self.dash.market_slug = String::new();
                self.dash.remaining_s = 0;
            },
        }
        self.dash.strike = match self.strike {
            Some(k) => k,
            None => 0,
        };
        self.dash.mode = match armed {
            Some(true) => "live".to_owned(),
            Some(false) => "live (dry-run)".to_owned(),
            None => self.cfg.mode.clone(),
        };
        apply_state(&mut self.dash, &self.st);
        match &self.phase {
            Phase::Scanning => {
                self.dash.phase = if self.market.is_some() {
                    "scanning".to_owned()
                } else {
                    "waiting_market".to_owned()
                };
                self.dash.pos_side = String::new();
                self.dash.pos_shares = 0;
                self.dash.pos_cost = 0;
                self.dash.pos_entry_price = 0;
                self.dash.pos_z = 0;
            },
            Phase::InPosition(p) => {
                self.dash.phase = "in_position".to_owned();
                self.dash.pos_side = p.side_str().to_owned();
                self.dash.pos_shares = p.shares;
                self.dash.pos_cost = p.cost;
                self.dash.pos_entry_price = p.entry_price;
                let left: i64 = if p.end_ms > now_ms {
                    p.end_ms - now_ms
                } else {
                    0
                };
                self.dash.pos_z = gs.margin_z(p.strike, p.dir(), left, log_ratio);
            },
        }
    }
}

/// What the dashboard shows of the bot: what the guard says and how old that is,
/// the window and its asks, how and what the bot plays, the accounts, and the
/// position.
pub proof fn the_dashboard_shows_the_bot(
    g: Grinder,
    before: DashState,
    after: DashState,
    now_ms: int,
    up_book: Option<PolyBook>,
    down_book: Option<PolyBook>,
    armed: Option<bool>,
    log_ratio: int,
)
    requires
        g.shown(before, after, now_ms, up_book, down_book, armed, log_ratio),
    ensures
        ({
            let gs = g.guard_at(now_ms);
            &&& after.spot == gs.spot && after.drift == gs.drift && after.sigma == gs.sigma
            &&& after.obi == gs.obi && after.velocity == gs.velocity && after.kill == gs.kill
            &&& after.binance_connected <==> gs.ts_ms > 0 && g.cfg.guard_max_age_ms > 0 && now_ms
                < gs.ts_ms + g.cfg.guard_max_age_ms
            &&& now_ms >= gs.ts_ms ==> after.guard_age_ms == now_ms - gs.ts_ms
            &&& now_ms < gs.ts_ms ==> after.guard_age_ms == 0
        }),
        g.market matches Some(m) ==> after.market_slug@ == m.slug@ && after.remaining_s
            == seconds_left(m.end_ms as int, now_ms),
        g.market is None ==> after.market_slug@.len() == 0 && after.remaining_s == 0,
        g.strike matches Some(k) ==> after.strike == k,
        g.strike is None ==> after.strike == 0,
        after.mode@ == (match armed {
            Some(a) => if a {
                "live"@
            } else {
                "live (dry-run)"@
            },
            None => g.cfg.mode@,
        }),
        after.stack == g.st.stack,
        after.streak == g.st.streak,
        after.run_id == g.st.run_id,
        after.best_streak == g.st.best_streak,
        after.best_stack == g.st.best_stack,
        after.windows_played == g.st.windows_played,
        after.wins == g.st.wins,
        after.losses == g.st.losses,
        after.panic_exits == g.st.panic_exits,
        after.realized_pnl == g.st.realized_pnl,
        after.banked == g.st.banked,
        g.phase is Scanning ==> after.pos_side@.len() == 0 && after.pos_shares == 0 && after.pos_cost
            == 0 && after.pos_entry_price == 0 && after.pos_z == 0,
        g.phase is Scanning && g.market is Some ==> after.phase@ == "scanning"@,
        g.phase is Scanning && g.market is None ==> after.phase@ == "waiting_market"@,
        g.phase matches Phase::InPosition(p) ==> {
            &&& after.phase@ == "in_position"@
            &&& after.pos_side@ == (if p.side_up {
                "up"@
            } else {
                "down"@
            })
            &&& after.pos_shares == p.shares
            &&& after.pos_cost == p.cost
            &&& after.pos_entry_price == p.entry_price
            &&& after.pos_z == position_margin(
                p,
                g.guard_at(now_ms),
                if p.end_ms > now_ms {
                    p.end_ms - now_ms
                } else {
                    0
                },
                log_ratio,
            )
        },
        after.windows == before.windows,
        after.last_block_reason == before.last_block_reason,
        after.live_collateral == before.live_collateral,
{
}

/// The asks that are shown are the lowest of the two books, and zero where there
/// are none.
pub proof fn the_lowest_asks_are_shown(
    g: Grinder,
    before: DashState,
    after: DashState,
    now_ms: int,
    up_book: Option<PolyBook>,
    down_book: Option<PolyBook>,
    armed: Option<bool>,
    log_ratio: int,
)
    requires
        g.shown(before, after, now_ms, up_book, down_book, armed, log_ratio),
        g.market is Some,
    ensures
        up_book is None ==> after.up_ask == 0,
        up_book matches Some(b) ==> if b.asks@.len() == 0 {
            after.up_ask == 0
        } else {
            &&& forall|i: int| 0 <= i < b.asks@.len() ==> after.up_ask <= (#[trigger] b.asks@[i]).price
            &&& exists|i: int| 0 <= i < b.asks@.len() && after.up_ask == (#[trigger] b.asks@[i]).price
        },
        down_book is None ==> after.down_ask == 0,
        down_book matches Some(b) ==> if b.asks@.len() == 0 {
            after.down_ask == 0
        } else {
            &&& forall|i: int|
                0 <= i < b.asks@.len() ==> after.down_ask <= (#[trigger] b.asks@[i]).price
            &&& exists|i: int|
                0 <= i < b.asks@.len() && after.down_ask == (#[trigger] b.asks@[i]).price
        },
{
    if let Some(b) = up_book {
        the_ask_is_the_lowest(b);
    }
    if let Some(b) = down_book {
        the_ask_is_the_lowest(b);
    }
}

} // verus!
