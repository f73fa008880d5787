//! Leaving a position before its window ends: the guard turned red or blind, or
//! the liquidity that protects the position became thin.

use vstd::prelude::*;

use super::closing::{proceeds_of_sale, sale_proceeds, Closing};
use super::{Grinder, Wall};
use crate::book::{highest, highest_is_highest, levels_wf, PolyBook};
use crate::config::Config;
use crate::fixed::{
    abs, amount, div_trunc, instant, lemma_wide_product, max, max_of, min, min_of, signed, NANO,
};
use crate::paper::{sale, sweep_fill, sweep_sell_panic, Fill};
use crate::position::{direction, seconds_left, Phase, Position, Reason};
use crate::settle::Outcome;
use crate::state::Ledger;
use crate::tokyo::{margin, GuardState};

verus! {

/// An order to sell the whole position, and why.
#[derive(Debug, Clone, Copy, PartialEq, Eq, Structural)]
pub struct ExitOrder {
    pub reason: Reason,
    pub z: i64,
    pub gs: GuardState,
}

/// The margin of a position over the time until `end_ms`.
pub open spec fn position_margin(pos: Position, gs: GuardState, left_ms: int, log_ratio: int) -> int {
    margin(
        gs.spot as int,
        pos.strike as int,
        gs.sigma as int,
        direction(pos.side_up),
        left_ms,
        log_ratio,
    )
}

/// The first seconds after an entry, during which nothing is sold.
pub open spec fn in_grace(pos: Position, now_ms: int) -> bool {
    now_ms - (pos.end_ms - pos.remaining_s_at_entry * 1000) < 3_000
}

/// What the guard objects to in a position with the margin `z`: the alarm
/// first, then a spot close to the strike with a thin margin, then the margin,
/// then the drift.
pub open spec fn objection(cfg: Config, pos: Position, gs: GuardState, z: int) -> Option<Reason> {
    if gs.kill {
        Some(Reason::RadarKill)
    } else if cfg.dist_exit_usd > 0 && abs(gs.spot - pos.strike) < cfg.dist_exit_usd && z < NANO / 2 {
        Some(Reason::DistFloor)
    } else if z < cfg.z_exit {
        Some(Reason::ZFloor)
    } else if gs.drift * direction(pos.side_up) < -cfg.drift_exit {
        Some(Reason::DriftAgainst)
    } else {
        None
    }
}

/// Why a position is to be sold at `now_ms`, if it is.
pub open spec fn exit_due(cfg: Config, pos: Position, gs: GuardState, now_ms: int, z: int) -> Option<
    Reason,
> {
    if now_ms >= pos.end_ms || in_grace(pos, now_ms) || pos.ride {
        None
    } else {
        objection(cfg, pos, gs, z)
    }
}

/// The bid is so low that selling would recover next to nothing.
pub open spec fn past_return(cfg: Config, book: Option<PolyBook>) -> bool {
    match book {
        Some(b) => match highest(b.bids@) {
            Some(bid) => bid < cfg.panic_floor,
            None => false,
        },
        None => false,
    }
}

/// A measure of the wall to be made: the orders between `low` and `high`, on
/// the side that would have to be consumed.
#[derive(Debug, Clone, Copy, PartialEq, Eq, Structural)]
pub struct WallQuery {
    pub low: i64,
    pub high: i64,
    pub use_asks: bool,
    pub ts_ms: i64,
    pub window_ts: i64,
    pub side_up: bool,
    pub spot: i64,
    pub strike: i64,
}

/// The dollars that it takes to move the price by one dollar.
pub open spec fn density(usdc: int, spot: int, strike: int) -> int {
    (usdc * NANO) / max(abs(spot - strike), 10_000_000)
}

/// The wall was measured less than six seconds ago, and it is thin.
pub open spec fn wall_is_thin(cfg: Config, wall: Option<Wall>, now_ms: int) -> bool {
    match wall {
        Some(w) => now_ms - w.ts_ms < 6_000 && w.usdc < cfg.secure_wall_usdc,
        None => false,
    }
}

/// The position is to be cashed in if the bid allows it: the end is near, and
/// the wall is thin.
pub open spec fn secure_due(cfg: Config, pos: Position, wall: Option<Wall>, now_ms: int) -> bool {
    &&& cfg.secure_wall_usdc > 0
    &&& !pos.ride
    &&& 3 < seconds_left(pos.end_ms as int, now_ms) <= cfg.secure_last_s
    &&& wall_is_thin(cfg, wall, now_ms)
}

/// The guard is blind while a position is open: what it saw last is too old to
/// enter by, or older than the limit that is set for positions, if one is.
pub open spec fn stale_due(cfg: Config, pos: Position, gs: GuardState, now_ms: int) -> bool {
    &&& now_ms < pos.end_ms
    &&& !pos.ride
    &&& {
        ||| !gs.fresh(now_ms, cfg.guard_max_age_ms as int)
        ||| cfg.guard_stale_exit_s > 0 && !gs.fresh(now_ms, cfg.guard_stale_exit_s * 1000)
    }
}

impl Grinder {
    /// Whether the guard wants the position sold, going by what it says now.
    pub fn check_exits(&self, gs: GuardState, now_ms: i64, log_ratio: i64) -> (r: Option<ExitOrder>)
        requires
            self.wf(),
            gs.wf(),
            instant(now_ms),
            signed(log_ratio),
        ensures
            match self.phase {
                Phase::Scanning => r is None,
                Phase::InPosition(pos) => {
                    let z = position_margin(
                        pos,
                        gs,
                        max(pos.end_ms - now_ms, 0),
                        log_ratio as int,
                    );
                    match exit_due(self.cfg, pos, gs, now_ms as int, z) {
                        Some(reason) => r == Some(ExitOrder { reason, z: z as i64, gs }),
                        None => r is None,
                    }
                },
            },
    {
        let pos = match &self.phase {
            Phase::Scanning => return None,
            Phase::InPosition(p) => p,
        };
        if now_ms >= pos.end_ms {
            return None;
        }
        let z = gs.margin_z(pos.strike, pos.dir(), pos.end_ms - now_ms, log_ratio);
        if now_ms - (pos.end_ms - pos.remaining_s_at_entry * 1000) < 3_000 {
            return None;
        }
        let dist: i64 = if gs.spot >= pos.strike {
            gs.spot - pos.strike
        } else {
            pos.strike - gs.spot
        };
        let drift: i64 = if pos.side_up {
            gs.drift
        } else {
            -gs.drift
        };
        let reason = if gs.kill {
            Reason::RadarKill
        } else if self.cfg.dist_exit_usd > 0 && dist < self.cfg.dist_exit_usd && z < NANO / 2 {
            Reason::DistFloor
        } else if z < self.cfg.z_exit {
            Reason::ZFloor
        } else if drift < -self.cfg.drift_exit {
            Reason::DriftAgainst
        } else {
            return None;
        };
        if pos.ride {
            return None;
        }
        Some(ExitOrder { reason, z, gs })
    }

    /// Whether the position is really to be sold, given the book of its token
    /// if that could be read. Under the floor it is held to the end instead.
    pub fn confirm_exit(&mut self, book: Option<&PolyBook>) -> (r: bool)
        requires
            old(self).wf(),
        ensures
            final(self).wf(),
            match old(self).phase {
                Phase::Scanning => !r && *final(self) == *old(self),
                Phase::InPosition(pos) => if past_return(
                    old(self).cfg,
                    match book {
                        Some(b) => Some(*b),
                        None => None,
                    },
                ) {
                    !r && *final(self) == (Grinder {
                        phase: Phase::InPosition(Position { ride: true, ..pos }),
                        ..*old(self)
                    })
                } else {
                    r && *final(self) == *old(self)
                },
            },
    {
        let bid = match book {
            Some(b) => b.best_bid(),
            None => None,
        };
        let hopeless = match bid {
            Some(b) => b < self.cfg.panic_floor,
            None => false,
        };
        match &mut self.phase {
            Phase::Scanning => false,
            Phase::InPosition(p) => {
                if hopeless {
                    p.ride = true;
                }
                !hopeless
            },
        }
    }

    /// What an emergency sale of `shares` obtains in simulation; an unreadable
    /// book is an empty one.
    pub fn exec_sell(&self, book: Option<&PolyBook>, shares: i64) -> (r: Fill)
        requires
            self.wf(),
            signed(shares),
            book matches Some(b) ==> levels_wf(b.bids@),
        ensures
            r.wf(),
            sweep_fill(
                sale(
                    match book {
                        Some(b) => b.bids@,
                        None => Seq::empty(),
                    },
                    shares as int,
                    self.cfg.panic_haircut as int,
                    self.cfg.taker_fee_rate as int,
                ),
                r,
            ),
            shares >= 0 ==> r.shares <= shares,
    {
        match book {
            Some(b) => sweep_sell_panic(
                b,
                shares,
                self.cfg.panic_haircut,
                self.cfg.taker_fee_rate,
            ),
            None => {
                let empty = PolyBook::empty();
                sweep_sell_panic(&empty, shares, self.cfg.panic_haircut, self.cfg.taker_fee_rate)
            },
        }
    }

    /// Closes the window after an emergency sale that obtained `fill`. Where
    /// nothing at all was sold the position stays open.
    pub fn panic_exit(&mut self, order: ExitOrder, fill: Fill, now_s: i64) -> (r: Option<Closing>)
        requires
            old(self).wf(),
            fill.wf(),
            signed(now_s),
        ensures
            final(self).wf(),
            match old(self).phase {
                Phase::Scanning => r is None && *final(self) == *old(self),
                Phase::InPosition(pos) => if fill.shares <= 0 && pos.shares > 0 {
                    r is None && *final(self) == *old(self)
                } else {
                    &&& r == Some(
                        Closing {
                            pos,
                            outcome: Outcome::Panic,
                            reason: order.reason,
                            proceeds: sale_proceeds(pos, fill) as i64,
                            exit_fees: fill.fees,
                            z_exit: order.z,
                            spot_exit: order.gs.spot,
                            drift_exit: order.gs.drift,
                        },
                    )
                    &&& r->0.wf()
                    &&& r->0.proceeds == sale_proceeds(pos, fill)
                    &&& final(self).st@ == ({
                        let l = old(self).settled_by(old(self).st@, r->0, now_s);
                        Ledger { panic_exits: l.panic_exits + 1, ..l }
                    })
                    &&& *final(self) == (Grinder {
                        st: final(self).st,
                        phase: Phase::Scanning,
                        ..*old(self)
                    })
                },
            },
    {
        let pos = match &self.phase {
            Phase::Scanning => return None,
            Phase::InPosition(p) => p.clone(),
        };
        if fill.shares <= 0 && pos.shares > 0 {
            return None;
        }
        let proceeds = proceeds_of_sale(&pos, &fill);
        let c = self.settle(
            pos,
            Outcome::Panic,
            order.reason,
            proceeds,
            fill.fees,
            order.z,
            order.gs,
            now_s,
        );
        self.st.panic_exits = self.st.panic_exits + 1;
        Some(c)
    }

    /// The order to sell because the guard is blind, if it is.
    pub fn stale_exit(&self, now_ms: i64, log_ratio: i64) -> (r: Option<ExitOrder>)
        requires
            self.wf(),
            instant(now_ms),
            signed(log_ratio),
        ensures
            match self.phase {
                Phase::Scanning => r is None,
                Phase::InPosition(pos) => {
                    let gs = self.guard_at(now_ms as int);
                    if stale_due(self.cfg, pos, gs, now_ms as int) {
                        r == Some(
                            ExitOrder {
                                reason: Reason::GuardStale,
                                z: position_margin(
                                    pos,
                                    gs,
                                    pos.end_ms - now_ms,
                                    log_ratio as int,
                                ) as i64,
                                gs,
                            },
                        )
                    } else {
                        r is None
                    }
                },
            },
    {
        let pos = match &self.phase {
            Phase::Scanning => return None,
            Phase::InPosition(p) => p,
        };
        let gs = self.guard_now(now_ms);
        let sees = gs.is_fresh(now_ms as u64, self.cfg.guard_max_age_ms) && (
        self.cfg.guard_stale_exit_s <= 0 || gs.is_fresh(
            now_ms as u64,
            (self.cfg.guard_stale_exit_s * 1000) as u64,
        ));
        if now_ms >= pos.end_ms || pos.ride || sees {
            return None;
        }
        let z = gs.margin_z(pos.strike, pos.dir(), pos.end_ms - now_ms, log_ratio);
        Some(ExitOrder { reason: Reason::GuardStale, z, gs })
    }

    /// The measure of the wall to be made now, at most once in two seconds: the
    /// bids between the strike and the spot for a position that fears a fall,
    /// the asks between the spot and the strike for the other.
    pub fn record_wall(&mut self, now_ms: i64) -> (r: Option<WallQuery>)
        requires
            old(self).wf(),
            instant(now_ms),
        ensures
            final(self).wf(),
            match old(self).phase {
                Phase::InPosition(pos) if now_ms - old(self).last_wall_poll_ms >= 2_000 => {
                    let gs = old(self).guard_at(now_ms as int);
                    &&& r == Some(
                        WallQuery {
                            low: min(gs.spot as int, pos.strike as int) as i64,
                            high: max(gs.spot as int, pos.strike as int) as i64,
                            use_asks: !pos.side_up,
                            ts_ms: now_ms,
                            window_ts: pos.window_ts,
                            side_up: pos.side_up,
                            spot: gs.spot,
                            strike: pos.strike,
                        },
                    )
                    &&& *final(self) == (Grinder { last_wall_poll_ms: now_ms, ..*old(self) })
                },
                _ => r is None && *final(self) == *old(self),
            },
    {
        if now_ms - self.last_wall_poll_ms < 2_000 {
            return None;
        }
        let (window_ts, side_up, strike): (i64, bool, i64) = match &self.phase {
            Phase::Scanning => return None,
            Phase::InPosition(p) => (p.window_ts, p.side_up, p.strike),
        };
        let gs = self.guard_now(now_ms);
        self.last_wall_poll_ms = now_ms;
        Some(
            WallQuery {
                low: min_of(gs.spot, strike),
                high: max_of(gs.spot, strike),
                use_asks: !side_up,
                ts_ms: now_ms,
                window_ts,
                side_up,
                spot: gs.spot,
                strike,
            },
        )
    }

    /// Takes in a measure of the wall, and returns the dollars that it takes to
    /// move the price by one dollar.
    pub fn on_wall(&mut self, q: &WallQuery, usdc: i64) -> (r: i128)
        requires
            old(self).wf(),
            instant(q.ts_ms),
            signed(q.spot),
            signed(q.strike),
            amount(usdc),
        ensures
            final(self).wf(),
            r == density(usdc as int, q.spot as int, q.strike as int),
            *final(self) == (Grinder {
                last_wall: Some(Wall { ts_ms: q.ts_ms, usdc }),
                ..*old(self)
            }),
    {
        self.last_wall = Some(Wall { ts_ms: q.ts_ms, usdc });
        let dist: i64 = if q.spot >= q.strike {
            q.spot - q.strike
        } else {
            q.strike - q.spot
        };
        let span: i64 = max_of(dist, 10_000_000);
        proof {
            lemma_wide_product(usdc as int, NANO as int);
        }
        (usdc as i128) * (NANO as i128) / (span as i128)
    }

    /// Whether the position is to be cashed in if the bid allows it.
    pub fn wants_to_secure(&self, now_ms: i64) -> (r: bool)
        requires
            self.wf(),
            instant(now_ms),
        ensures
            r == (self.phase matches Phase::InPosition(pos) && secure_due(
                self.cfg,
                pos,
                self.last_wall,
                now_ms as int,
            )),
    {
        let pos = match &self.phase {
            Phase::Scanning => return false,
            Phase::InPosition(p) => p,
        };
        let remaining = div_trunc((pos.end_ms - now_ms) as i128, 1000);
        let thin = match &self.last_wall {
            Some(w) => now_ms - w.ts_ms < 6_000 && w.usdc < self.cfg.secure_wall_usdc,
            None => false,
        };
        self.cfg.secure_wall_usdc > 0 && !pos.ride && remaining > 3 && remaining
            <= self.cfg.secure_last_s as i128 && thin
    }

    /// Whether the bid allows cashing in.
    pub fn can_secure(&self, book: Option<&PolyBook>) -> (r: bool)
        ensures
            r == (match book {
                Some(b) => match highest(b.bids@) {
                    Some(bid) => bid >= self.cfg.secure_min_price,
                    None => false,
                },
                None => false,
            }),
    {
        match book {
            Some(b) => match b.best_bid() {
                Some(bid) => bid >= self.cfg.secure_min_price,
                None => false,
            },
            None => false,
        }
    }

    /// Closes the window after a sale near the end that obtained `fill`. Where
    /// nothing was sold the position stays open.
    pub fn secure_exit(&mut self, fill: Fill, now_ms: i64, now_s: i64, log_ratio: i64) -> (r: Option<
        Closing,
    >)
        requires
            old(self).wf(),
            fill.wf(),
            instant(now_ms),
            signed(now_s),
            signed(log_ratio),
        ensures
            final(self).wf(),
            match old(self).phase {
                Phase::InPosition(pos) if fill.shares > 0 => {
                    let gs = old(self).guard_at(now_ms as int);
                    &&& r == Some(
                        Closing {
                            pos,
                            outcome: Outcome::Secure,
                            reason: Reason::SecureWall,
                            proceeds: sale_proceeds(pos, fill) as i64,
                            exit_fees: fill.fees,
                            z_exit: position_margin(
                                pos,
                                gs,
                                seconds_left(pos.end_ms as int, now_ms as int) * 1000,
                                log_ratio as int,
                            ) as i64,
                            spot_exit: gs.spot,
                            drift_exit: gs.drift,
                        },
                    )
                    &&& r->0.wf()
                    &&& r->0.proceeds == sale_proceeds(pos, fill)
                    &&& final(self).st@ == old(self).settled_by(old(self).st@, r->0, now_s)
                    &&& *final(self) == (Grinder {
                        st: final(self).st,
                        phase: Phase::Scanning,
                        ..*old(self)
                    })
                },
                _ => r is None && *final(self) == *old(self),
            },
    {
        let pos = match &self.phase {
            Phase::Scanning => return None,
            Phase::InPosition(p) => p.clone(),
        };
        if fill.shares <= 0 {
            return None;
        }
        let gs = self.guard_now(now_ms);
        let remaining: i64 = div_trunc((pos.end_ms - now_ms) as i128, 1000) as i64;
        let z = gs.margin_z(pos.strike, pos.dir(), remaining * 1000, log_ratio);
        let proceeds = proceeds_of_sale(&pos, &fill);
        Some(
            self.settle(
                pos,
                Outcome::Secure,
                Reason::SecureWall,
                proceeds,
                fill.fees,
                z,
                gs,
                now_s,
            ),
        )
    }
}

/// A position that has passed the point of no return is never sold: not for
/// any objection of the guard, not for its blindness, and not to cash in.
pub proof fn a_riding_position_is_held(
    cfg: Config,
    pos: Position,
    gs: GuardState,
    wall: Option<Wall>,
    now_ms: int,
    z: int,
)
    requires
        pos.ride,
    ensures
        exit_due(cfg, pos, gs, now_ms, z) is None,
        !stale_due(cfg, pos, gs, now_ms),
        !secure_due(cfg, pos, wall, now_ms),
{
}

/// The guard sells nothing in the first seconds after an entry, and nothing
/// once the window is over.
pub proof fn exits_have_their_time(cfg: Config, pos: Position, gs: GuardState, now_ms: int, z: int)
    ensures
        in_grace(pos, now_ms) ==> exit_due(cfg, pos, gs, now_ms, z) is None,
        now_ms >= pos.end_ms ==> exit_due(cfg, pos, gs, now_ms, z) is None && !stale_due(
            cfg,
            pos,
            gs,
            now_ms,
        ),
{
}

/// Between these, an alarm, a margin under its floor and an adverse drift each
/// suffice for a sale.
pub proof fn the_guard_is_obeyed(cfg: Config, pos: Position, gs: GuardState, now_ms: int, z: int)
    requires
        now_ms < pos.end_ms,
        !in_grace(pos, now_ms),
        !pos.ride,
        gs.kill || z < cfg.z_exit || gs.drift * direction(pos.side_up) < -cfg.drift_exit,
    ensures
        exit_due(cfg, pos, gs, now_ms, z) is Some,
{
}

/// A spot close to the strike does not suffice while the margin holds: with no
/// alarm, no adverse drift and a margin above its floor and a half, nothing is
/// sold.
pub proof fn a_brush_with_the_strike_is_no_crash(
    cfg: Config,
    pos: Position,
    gs: GuardState,
    now_ms: int,
    z: int,
)
    requires
        !gs.kill,
        z >= NANO / 2,
        z >= cfg.z_exit,
        gs.drift * direction(pos.side_up) >= -cfg.drift_exit,
    ensures
        exit_due(cfg, pos, gs, now_ms, z) is None,
{
}

/// A blind guard sells: while a position is open and may be sold, the guard has
/// to have seen something younger than the age that an entry needs.
pub proof fn a_blind_guard_sells(cfg: Config, pos: Position, gs: GuardState, now_ms: int)
    requires
        now_ms < pos.end_ms,
        !pos.ride,
        gs.ts_ms == 0 || now_ms - gs.ts_ms >= cfg.guard_max_age_ms,
    ensures
        stale_due(cfg, pos, gs, now_ms),
{
}

/// A position is sold for a reason exactly while its window runs, three seconds
/// after its entry, unless it is to be held to the end: for the alarm; else for a
/// spot within the distance of the strike with a margin under a half; else for a
/// margin under its floor; else for a drift against it.
pub proof fn what_an_exit_needs(cfg: Config, pos: Position, gs: GuardState, now_ms: int, z: int)
    ensures
        ({
            let entered_ms = pos.end_ms - 1000 * pos.remaining_s_at_entry;
            let open = now_ms < pos.end_ms && now_ms >= entered_ms + 3_000 && !pos.ride;
            let near = cfg.dist_exit_usd > 0 && gs.spot - pos.strike < cfg.dist_exit_usd && pos.strike
                - gs.spot < cfg.dist_exit_usd && z < 500_000_000;
            let thin = z < cfg.z_exit;
            let adverse = if pos.side_up {
                gs.drift < -cfg.drift_exit
            } else {
                gs.drift > cfg.drift_exit
            };
            let due = exit_due(cfg, pos, gs, now_ms, z);
            &&& due is Some <==> open && (gs.kill || near || thin || adverse)
            &&& due == Some(Reason::RadarKill) <==> open && gs.kill
            &&& due == Some(Reason::DistFloor) <==> open && !gs.kill && near
            &&& due == Some(Reason::ZFloor) <==> open && !gs.kill && !near && thin
            &&& due == Some(Reason::DriftAgainst) <==> open && !gs.kill && !near && !thin && adverse
        }),
{
    assert(gs.drift * 1 == gs.drift);
    assert(gs.drift * -1 == -gs.drift);
}

/// The point of no return is passed exactly if there are bids and every one of
/// them is under the floor.
pub proof fn past_return_every_bid_is_low(cfg: Config, b: PolyBook)
    ensures
        !past_return(cfg, None),
        past_return(cfg, Some(b)) <==> b.bids@.len() > 0 && forall|i: int|
            0 <= i < b.bids@.len() ==> (#[trigger] b.bids@[i]).price < cfg.panic_floor,
{
    highest_is_highest(b.bids@);
    if let Some(h) = highest(b.bids@) {
        let i = choose|i: int| 0 <= i < b.bids@.len() && (#[trigger] b.bids@[i]).price == h;
        assert(b.bids@[i].price == h);
    }
}

/// The density of a wall is its dollars over the dollars of the span, which counts
/// as a cent at least, rounded down.
pub proof fn density_is_dollars_over_span(usdc: int, spot: int, strike: int, span: int)
    requires
        0 <= usdc,
        span >= 10_000_000,
        span >= spot - strike,
        span >= strike - spot,
        span == 10_000_000 || span == spot - strike || span == strike - spot,
    ensures
        density(usdc, spot, strike) * span <= usdc * 1_000_000_000 < (density(usdc, spot, strike) + 1)
            * span,
{
    let n = usdc * 1_000_000_000;
    let d = n / span;
    assert(d * span <= n && n < (d + 1) * span) by (nonlinear_arith)
        requires
            d == n / span,
            span > 0,
    ;
}

/// A position is cashed in, if the bid allows it, exactly where that is set, it is
/// not to be held to the end, more than three seconds and no more than the limit
/// are left, and the wall was measured within the last six seconds and found under
/// its threshold.
pub proof fn what_cashing_in_needs(cfg: Config, pos: Position, wall: Option<Wall>, now_ms: int)
    ensures
        secure_due(cfg, pos, wall, now_ms) <==> {
            &&& cfg.secure_wall_usdc > 0
            &&& !pos.ride
            &&& seconds_left(pos.end_ms as int, now_ms) > 3
            &&& seconds_left(pos.end_ms as int, now_ms) <= cfg.secure_last_s
            &&& wall matches Some(w)
            &&& now_ms < w.ts_ms + 6_000
            &&& w.usdc < cfg.secure_wall_usdc
        },
{
}

/// A blind guard sells exactly while the window runs, unless the position is to be
/// held to the end: what was seen last is as old as the limit of the guard, or as
/// the limit that is set for positions.
pub proof fn what_a_blind_exit_needs(cfg: Config, pos: Position, gs: GuardState, now_ms: int)
    ensures
        ({
            let too_old = |limit_ms: int| gs.ts_ms == 0 || limit_ms <= 0 || now_ms - gs.ts_ms >= limit_ms;
            stale_due(cfg, pos, gs, now_ms) <==> now_ms < pos.end_ms && !pos.ride && (too_old(
                cfg.guard_max_age_ms as int,
            ) || cfg.guard_stale_exit_s > 0 && too_old(1000 * cfg.guard_stale_exit_s))
        }),
{
}

/// The margin of a position is that of the spot and the volatility now against its
/// own strike, on its own side.
pub proof fn a_position_has_its_own_margin(
    pos: Position,
    gs: GuardState,
    left_ms: int,
    log_ratio: int,
)
    ensures
        position_margin(pos, gs, left_ms, log_ratio) == margin(
            gs.spot as int,
            pos.strike as int,
            gs.sigma as int,
            if pos.side_up {
                1
            } else {
                -1
            },
            left_ms,
            log_ratio,
        ),
{
}

} // verus!
