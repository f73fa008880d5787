//! The close of a window: what it returns, and what becomes of the accounts.

use vstd::prelude::*;

use super::wallet::{
    highest_is_the_highest, highest_of, highest_reading, push_reading, EVALUATIONS_KEPT,
};
use super::Grinder;
use crate::clock::{date_text, timestamp};
use crate::dashboard::{DashState, WINDOWS_SHOWN};
use crate::fixed::{abs, amount, instant, max, max_of, signed, LIMIT};
use crate::paper::Fill;
use crate::position::{direction, side_name, Phase, Position, Reason};
use crate::settle::{live_capped, settled, Outcome};
use crate::state::{last_of, GrinderState, Ledger, WindowRecord};
use crate::tokyo::{margin, GuardState};

verus! {

/// A window that was closed.
#[derive(Debug)]
pub struct Closing {
    pub pos: Position,
    pub outcome: Outcome,
    pub reason: Reason,
    /// What came back, with what had not been spent.
    pub proceeds: i64,
    pub exit_fees: i64,
    pub z_exit: i64,
    pub spot_exit: i64,
    pub drift_exit: i64,
}

/// The side held wins where the price is past the strike on its side: at the
/// strike, neither side wins.
pub open spec fn side_wins(price: int, strike: int, side_up: bool) -> bool {
    if side_up {
        price > strike
    } else {
        price < strike
    }
}

/// What decides a window that is over: the close of its candle, or, 90 seconds
/// after the end, the spot.
pub open spec fn verdict(pos: Position, close: Option<i64>, spot: int, now_ms: int) -> Option<
    (bool, Reason),
> {
    if now_ms < pos.end_ms + 3_000 {
        None
    } else {
        match close {
            Some(c) => Some(
                (side_wins(c as int, pos.strike as int, pos.side_up), Reason::ResolutionKline),
            ),
            None => if now_ms >= pos.end_ms + 90_000 {
                Some((side_wins(spot, pos.strike as int, pos.side_up), Reason::ResolutionProxy))
            } else {
                None
            },
        }
    }
}

/// One more win or loss.
pub open spec fn counted(l: Ledger, won: bool) -> Ledger {
    if won {
        Ledger { wins: l.wins + 1, ..l }
    } else {
        Ledger { losses: l.losses + 1, ..l }
    }
}

/// What a window returns at its end: a dollar a share if it was won, and what
/// had not been spent.
pub open spec fn resolution_proceeds(pos: Position, won: bool) -> int {
    if won {
        pos.shares + pos.cash_left
    } else {
        pos.cash_left as int
    }
}

/// What a sale returns, with what had not been spent.
pub open spec fn sale_proceeds(pos: Position, fill: Fill) -> int {
    max(fill.notional - fill.fees, 0) + pos.cash_left
}

pub fn proceeds_of_sale(pos: &Position, fill: &Fill) -> (r: i64)
    requires
        pos.wf(),
        fill.wf(),
    ensures
        r == sale_proceeds(*pos, *fill),
        0 <= r <= LIMIT / 2,
{
    max_of(fill.notional - fill.fees, 0) + pos.cash_left
}

impl Closing {
    /// The figures are in range.
    pub open spec fn wf(self) -> bool {
        &&& self.pos.wf()
        &&& 0 <= self.proceeds <= LIMIT / 2
        &&& 0 <= self.exit_fees <= LIMIT / 2
    }

    /// The verdict that the accounts went by: whether the price rose, going by
    /// whether the side held won.
    pub open spec fn rose(self) -> bool {
        (self.outcome == Outcome::Win) == self.pos.side_up
    }

    pub fn booked_up_won(&self) -> (r: bool)
        ensures
            r == self.rose(),
    {
        (self.outcome == Outcome::Win) == self.pos.side_up
    }

    /// The record of this close in the ledger, when the accounts are `st`.
    pub open spec fn recorded(self, st: GrinderState, rec: WindowRecord) -> bool {
        &&& rec.window_ts == self.pos.window_ts
        &&& rec.slug@ == self.pos.slug@
        &&& rec.side@ == side_name(self.pos.side_up)
        &&& rec.entry_price == self.pos.entry_price
        &&& rec.shares == self.pos.shares
        &&& rec.cost == self.pos.cost
        &&& rec.fees == self.pos.entry_fees + self.exit_fees
        &&& rec.outcome@ == self.outcome.text()
        &&& rec.reason@ == self.reason.text()
        &&& rec.proceeds == self.proceeds
        &&& rec.pnl == self.proceeds - self.pos.cost
        &&& rec.stack_after == st.stack
        &&& rec.streak_after == st.streak
        &&& rec.run_id == st.run_id
        &&& rec.strike == self.pos.strike
        &&& rec.spot_at_exit == self.spot_exit
        &&& rec.z_at_entry == self.pos.z_at_entry
        &&& rec.z_at_exit == self.z_exit
        &&& rec.drift_at_exit == self.drift_exit
        &&& rec.spot_at_entry == self.pos.spot_at_entry
        &&& rec.dist_at_entry == abs(self.pos.spot_at_entry - self.pos.strike)
        &&& rec.sigma_at_entry == self.pos.sigma_at_entry
        &&& rec.remaining_s_at_entry == self.pos.remaining_s_at_entry
    }

    /// The record of this close, dated `ts`, when the accounts are `st`.
    pub fn window_record(&self, ts: String, st: &GrinderState) -> (r: WindowRecord)
        requires
            self.wf(),
        ensures
            r.ts == ts,
            self.recorded(*st, r),
    {
        let pos = &self.pos;
        let dist: i64 = if pos.spot_at_entry >= pos.strike {
            pos.spot_at_entry - pos.strike
        } else {
            pos.strike - pos.spot_at_entry
        };
        WindowRecord {
            ts,
            window_ts: pos.window_ts,
            slug: pos.slug.clone(),
            side: pos.side_str().to_owned(),
            entry_price: pos.entry_price,
            shares: pos.shares,
            cost: pos.cost,
            fees: pos.entry_fees + self.exit_fees,
            outcome: self.outcome.as_str().to_owned(),
            reason: self.reason.as_str().to_owned(),
            proceeds: self.proceeds,
            pnl: self.proceeds - pos.cost,
            stack_after: st.stack,
            streak_after: st.streak,
            run_id: st.run_id,
            strike: pos.strike,
            spot_at_exit: self.spot_exit,
            z_at_entry: pos.z_at_entry,
            z_at_exit: self.z_exit,
            drift_at_exit: self.drift_exit,
            spot_at_entry: pos.spot_at_entry,
            dist_at_entry: dist,
            sigma_at_entry: pos.sigma_at_entry,
            remaining_s_at_entry: pos.remaining_s_at_entry,
        }
    }
}

impl Grinder {
    /// The accounts after the close `c` of a window, when they were `l`.
    pub open spec fn settled_by(self, l: Ledger, c: Closing, now_s: i64) -> Ledger {
        settled(
            l,
            self.cfg,
            c.outcome,
            c.pos.cost as int,
            c.proceeds as int,
            now_s,
        )
    }

    /// Closes the accounts of a window, and goes back to looking for an entry.
    pub(crate) fn settle(
        &mut self,
        pos: Position,
        outcome: Outcome,
        reason: Reason,
        proceeds: i64,
        exit_fees: i64,
        z_exit: i64,
        gs: GuardState,
        now_s: i64,
    ) -> (r: Closing)
        requires
            old(self).wf(),
            old(self).st.has_room(),
            pos.wf(),
            0 <= proceeds <= LIMIT / 2,
            signed(now_s),
        ensures
            final(self).wf(),
            r == (Closing {
                pos,
                outcome,
                reason,
                proceeds,
                exit_fees,
                z_exit,
                spot_exit: gs.spot,
                drift_exit: gs.drift,
            }),
            final(self).st@ == old(self).settled_by(old(self).st@, r, now_s),
            *final(self) == (Grinder {
                st: final(self).st,
                phase: Phase::Scanning,
                ..*old(self)
            }),
    {
        self.st.settle(&self.cfg, outcome, pos.cost, proceeds, now_s);
        self.phase = Phase::Scanning;
        Closing {
            pos,
            outcome,
            reason,
            proceeds,
            exit_fees,
            z_exit,
            spot_exit: gs.spot,
            drift_exit: gs.drift,
        }
    }

    /// Resolves a window that is over, once what decides it is known: `close`
    /// is the close of its candle, if that could be read, and `log_ratio` the
    /// logarithm of the spot over the strike.
    pub fn on_close(&mut self, close: Option<i64>, now_ms: i64, now_s: i64, log_ratio: i64) -> (r:
        Option<Closing>)
        requires
            old(self).wf(),
            instant(now_ms),
            signed(now_s),
            signed(log_ratio),
        ensures
            final(self).wf(),
            match old(self).phase {
                Phase::Scanning => r is None && *final(self) == *old(self),
                Phase::InPosition(pos) => {
                    let gs = old(self).guard_at(now_ms as int);
                    match verdict(pos, close, gs.spot as int, now_ms as int) {
                        None => r is None && *final(self) == *old(self),
                        Some((won, reason)) => {
                            &&& r matches Some(c)
                            &&& c.wf()
                            &&& c.pos == pos
                            &&& c.outcome == if won {
                                Outcome::Win
                            } else {
                                Outcome::Loss
                            }
                            &&& c.reason == reason
                            &&& c.proceeds == resolution_proceeds(pos, won)
                            &&& c.exit_fees == 0
                            &&& c.z_exit == margin(
                                gs.spot as int,
                                pos.strike as int,
                                gs.sigma as int,
                                direction(pos.side_up),
                                0,
                                log_ratio as int,
                            )
                            &&& c.spot_exit == gs.spot
                            &&& c.drift_exit == gs.drift
                            &&& final(self).st@ == counted(
                                old(self).settled_by(old(self).st@, c, now_s),
                                won,
                            )
                            &&& *final(self) == (Grinder {
                                st: final(self).st,
                                phase: Phase::Scanning,
                                ..*old(self)
                            })
                        },
                    }
                },
            },
    {
        let pos = match &self.phase {
            Phase::Scanning => return None,
            Phase::InPosition(p) => p.clone(),
        };
        if now_ms < pos.end_ms + 3_000 {
            return None;
        }
        let gs = self.guard_now(now_ms);
        let (price, reason): (i64, Reason) = match close {
            Some(c) => (c, Reason::ResolutionKline),
            None => {
                if now_ms < pos.end_ms + 90_000 {
                    return None;
                }
                (gs.spot, Reason::ResolutionProxy)
            },
        };
        let won = if pos.side_up {
            price > pos.strike
        } else {
            price < pos.strike
        };
        let z = gs.margin_z(pos.strike, pos.dir(), 0, log_ratio);
        let proceeds: i64 = if won {
            pos.shares + pos.cash_left
        } else {
            pos.cash_left
        };
        let outcome = if won {
            Outcome::Win
        } else {
            Outcome::Loss
        };
        let c = self.settle(pos, outcome, reason, proceeds, 0, z, gs, now_s);
        if won {
            self.st.wins = self.st.wins + 1;
        } else {
            self.st.losses = self.st.losses + 1;
        }
        Some(c)
    }

    /// Brings the stack within its part of the wallet, going by a reading of
    /// the `collateral` after a window that returned `proceeds`. A reading of
    /// nothing says nothing.
    pub fn apply_live_cap(&mut self, proceeds: i64, collateral: i64)
        requires
            old(self).wf(),
            old(self).phase is Scanning,
            0 <= proceeds <= LIMIT / 2,
            amount(collateral),
        ensures
            final(self).wf(),
            if old(self).cfg.stack_cap_fraction > 0 && old(self).cfg.live() && collateral > 0 {
                let evals = last_of(
                    old(self).wallet_evals@.push((collateral + proceeds) as i64),
                    EVALUATIONS_KEPT as int,
                );
                let wallet = highest_of(evals, old(self).wallet_live as int);
                &&& final(self).wallet_evals@ == evals
                &&& final(self).dash == (DashState {
                    live_collateral: wallet as i64,
                    ..old(self).dash
                })
                &&& final(self).st@ == live_capped(old(self).st@, old(self).cfg, wallet)
                &&& *final(self) == (Grinder {
                    wallet_evals: final(self).wallet_evals,
                    dash: final(self).dash,
                    st: final(self).st,
                    ..*old(self)
                })
            } else {
                *final(self) == *old(self)
            },
    {
        if self.cfg.stack_cap_fraction <= 0 || !self.cfg.is_live() || collateral <= 0 {
            return ;
        }
        let ghost all = self.wallet_evals@.push((collateral + proceeds) as i64);
        push_reading(&mut self.wallet_evals, collateral + proceeds, EVALUATIONS_KEPT);
        let wallet = highest_reading(&self.wallet_evals, self.wallet_live);
        proof {
            let kept = self.wallet_evals@;
            assert forall|i: int| 0 <= i < kept.len() implies 0 <= #[trigger] kept[i] <= 2 * LIMIT by {
                let j = i + all.len() - kept.len();
                assert(kept[i] == all[j]);
                if j < old(self).wallet_evals@.len() {
                    assert(0 <= old(self).wallet_evals@[j] <= 2 * LIMIT);
                }
            }
            highest_is_the_highest(kept, self.wallet_live as int);
        }
        self.dash.live_collateral = wallet;
        self.st.settle_live_cap(&self.cfg, wallet);
    }

    /// The record of a close, dated by the instant given in seconds and
    /// nanoseconds since the epoch. The dashboard shows it from now on.
    pub fn record(&mut self, c: &Closing, secs: i64, nanos: u32) -> (r: WindowRecord)
        requires
            c.wf(),
        ensures
            r.ts@ == date_text(secs, nanos),
            c.recorded(old(self).st, r),
            final(self).dash.windows@ == last_of(
                old(self).dash.windows@.push(r),
                WINDOWS_SHOWN as int,
            ),
            *final(self) == (Grinder {
                dash: DashState { windows: final(self).dash.windows, ..old(self).dash },
                ..*old(self)
            }),
    {
        let rec = c.window_record(timestamp(secs, nanos), &self.st);
        self.dash.push_window(rec.clone());
        rec
    }
}

/// Every close is counted once: the wins, losses and emergency sales together
/// never exceed the windows played.
pub proof fn closes_are_counted(g: Grinder, l: Ledger, c: Closing, now_s: i64, won: bool)
    requires
        l.wins + l.losses + l.panic_exits <= l.windows_played,
    ensures
        ({
            let after = g.settled_by(l, c, now_s);
            let resolved = counted(after, won);
            &&& after.wins + after.losses + after.panic_exits < after.windows_played
            &&& resolved.wins + resolved.losses + resolved.panic_exits <= resolved.windows_played
            &&& resolved.wins + resolved.losses == after.wins + after.losses + 1
        }),
{
}

/// At the strike nobody wins: a price that is neither above nor below it is a
/// loss for whichever side is held.
pub proof fn a_tie_is_a_loss(strike: int, side_up: bool)
    ensures
        !side_wins(strike, strike, side_up),
{
}

/// Away from the strike exactly one side wins.
pub proof fn one_side_wins(price: int, strike: int)
    requires
        price != strike,
    ensures
        side_wins(price, strike, true) == !side_wins(price, strike, false),
{
}

/// A window is not decided before it is over, and it is always decided in the
/// end: by the close as soon as that is known, and by the spot after 90 seconds.
pub proof fn windows_are_decided(pos: Position, close: Option<i64>, spot: int, now_ms: int)
    ensures
        now_ms < pos.end_ms + 3_000 ==> verdict(pos, close, spot, now_ms) is None,
        now_ms >= pos.end_ms + 3_000 && close is Some ==> verdict(pos, close, spot, now_ms) is Some,
        now_ms >= pos.end_ms + 90_000 ==> verdict(pos, close, spot, now_ms) is Some,
{
}

/// What decides a window goes by the side held: a position on the rise has won
/// exactly if the price that decides is above the strike, and one on the fall
/// exactly if it is below. The close of the candle decides where it is known, and
/// the spot otherwise, once 90 seconds have passed.
pub proof fn the_side_held_decides(pos: Position, close: Option<i64>, spot: int, now_ms: int)
    ensures
        ({
            let price = match close {
                Some(c) => c as int,
                None => spot,
            };
            let known = now_ms >= pos.end_ms + 3_000 && (close is Some || now_ms >= pos.end_ms
                + 90_000);
            &&& verdict(pos, close, spot, now_ms) is Some <==> known
            &&& verdict(pos, close, spot, now_ms) matches Some((won, reason)) ==> {
                &&& pos.side_up ==> (won <==> price > pos.strike)
                &&& !pos.side_up ==> (won <==> price < pos.strike)
                &&& reason == Reason::ResolutionKline <==> close is Some
                &&& reason == Reason::ResolutionProxy <==> close is None
            }
        }),
{
}

/// For one price away from the strike, of two positions that differ in their side
/// only, one has won and the other has lost.
pub proof fn the_sides_are_opposite(
    up: Position,
    down: Position,
    close: Option<i64>,
    spot: int,
    now_ms: int,
)
    requires
        up.side_up,
        !down.side_up,
        up.strike == down.strike,
        up.end_ms == down.end_ms,
        match close {
            Some(c) => c != up.strike,
            None => spot != up.strike,
        },
    ensures
        verdict(up, close, spot, now_ms) is Some <==> verdict(down, close, spot, now_ms) is Some,
        verdict(up, close, spot, now_ms) matches Some((rose, _)) ==> (verdict(
            down,
            close,
            spot,
            now_ms,
        ) matches Some((fell, _)) && rose == !fell),
{
}

/// A window that is won pays a dollar a share on top of what had not been spent,
/// and one that is lost pays nothing on top.
pub proof fn a_share_pays_a_dollar(pos: Position)
    ensures
        resolution_proceeds(pos, true) - pos.cash_left == pos.shares,
        resolution_proceeds(pos, false) == pos.cash_left,
{
}

/// A sale returns what it brought less its fees, but never less than nothing, on
/// top of what had not been spent.
pub proof fn a_sale_returns_what_it_brought(pos: Position, fill: Fill)
    ensures
        fill.notional >= fill.fees ==> sale_proceeds(pos, fill) == fill.notional - fill.fees
            + pos.cash_left,
        fill.notional <= fill.fees ==> sale_proceeds(pos, fill) == pos.cash_left,
{
}

/// A resolution counts as one win or as one loss, and changes no other figure.
pub proof fn a_resolution_counts_once(l: Ledger)
    ensures
        counted(l, true) == (Ledger { wins: l.wins + 1, ..l }),
        counted(l, false) == (Ledger { losses: l.losses + 1, ..l }),
{
}

/// The accounts of a close go by what the position cost and what came back.
pub proof fn a_close_is_settled_by_its_figures(g: Grinder, l: Ledger, c: Closing, now_s: i64)
    ensures
        ({
            let after = g.settled_by(l, c, now_s);
            &&& after.realized_pnl - l.realized_pnl == c.proceeds - c.pos.cost
            &&& c.outcome == Outcome::Win ==> after.streak == l.streak + 1 && after.run_id == l.run_id
            &&& c.outcome == Outcome::Loss ==> after.streak == 0 && after.run_id == l.run_id + 1
            &&& c.outcome == Outcome::Panic ==> (after.run_id == l.run_id + 1 <==> c.proceeds
                < g.cfg.grind_base)
            &&& after.halted && !l.halted ==> after.run_id == l.run_id + 1
        }),
{
}

/// The verdict that is booked: on the rise, the price rose exactly if the window
/// was won; on the fall, exactly if it was not.
pub proof fn the_booked_verdict_goes_by_the_side(c: Closing)
    ensures
        c.pos.side_up ==> (c.rose() <==> c.outcome == Outcome::Win),
        !c.pos.side_up ==> (c.rose() <==> c.outcome != Outcome::Win),
{
}

/// A record adds up: what came back is what the window cost and its profit, the
/// fees are those of the entry and of the exit, and the rest is copied.
pub proof fn records_add_up(c: Closing, st: GrinderState, rec: WindowRecord)
    requires
        c.recorded(st, rec),
    ensures
        rec.cost + rec.pnl == rec.proceeds,
        rec.proceeds == c.proceeds,
        rec.cost == c.pos.cost,
        rec.fees == c.pos.entry_fees + c.exit_fees,
        rec.shares == c.pos.shares,
        rec.entry_price == c.pos.entry_price,
        rec.window_ts == c.pos.window_ts,
        rec.slug@ == c.pos.slug@,
        rec.side@ == (if c.pos.side_up {
            "up"@
        } else {
            "down"@
        }),
        rec.outcome@ == (match c.outcome {
            Outcome::Win => "win"@,
            Outcome::Loss => "loss"@,
            Outcome::Panic => "panic"@,
            Outcome::Secure => "secure"@,
        }),
        rec.reason@ == (match c.reason {
            Reason::RadarKill => "radar_kill"@,
            Reason::DistFloor => "dist_floor"@,
            Reason::ZFloor => "z_floor"@,
            Reason::DriftAgainst => "drift_against"@,
            Reason::GuardStale => "guard_stale"@,
            Reason::ResolutionKline => "resolution_kline"@,
            Reason::ResolutionProxy => "resolution_proxy"@,
            Reason::SecureWall => "secure_wall"@,
        }),
        rec.stack_after == st.stack,
        rec.streak_after == st.streak,
        rec.run_id == st.run_id,
        rec.strike == c.pos.strike,
        rec.spot_at_exit == c.spot_exit,
        rec.drift_at_exit == c.drift_exit,
        rec.z_at_exit == c.z_exit,
        rec.z_at_entry == c.pos.z_at_entry,
        rec.spot_at_entry == c.pos.spot_at_entry,
        rec.sigma_at_entry == c.pos.sigma_at_entry,
        rec.remaining_s_at_entry == c.pos.remaining_s_at_entry,
        rec.dist_at_entry >= 0,
        rec.spot_at_entry == rec.strike + rec.dist_at_entry || rec.spot_at_entry == rec.strike
            - rec.dist_at_entry,
{
}

/// The accounts after a close are settled by its outcome, the cost of its position
/// and what came back, when it happened.
pub proof fn a_close_is_settled_as_it_was(g: Grinder, l: Ledger, c: Closing, now_s: i64)
    ensures
        g.settled_by(l, c, now_s) == settled(
            l,
            g.cfg,
            c.outcome,
            c.pos.cost as int,
            c.proceeds as int,
            now_s,
        ),
{
}

} // verus!
