//! Entering a window: the favourite is bought with the whole stack when its
//! price is in the band and the guard confirms it.

use vstd::prelude::*;

use super::closing::resolution_proceeds;
use super::Grinder;
use crate::book::{levels_wf, lowest, lowest_is_lowest, PolyBook};
use crate::config::Config;
use crate::dashboard::DashState;
use crate::fixed::{instant, max, max_of, signed};
use crate::paper::{purchase, sweep_buy, sweep_fill, Fill};
use crate::position::{direction, direction_of, seconds_left, Market, Phase, Position};
use crate::text::{fixed_text, fixed_text_of, two_decimals, two_decimals_of};
use crate::tokyo::{margin, margin_follows_the_side, GuardState};

verus! {

/// A search for an entry, side by side.
#[derive(Debug)]
pub struct EntryScan {
    pub gs: GuardState,
    pub market: Market,
    pub strike: i64,
    /// The seconds that remained when the search began.
    pub remaining: i64,
    /// The logarithm of the spot over the strike.
    pub log_ratio: i64,
    /// The side that is looked at.
    pub side_up: bool,
    /// A side was found whose price is in the band.
    pub any_in_band: bool,
}

/// What is to be done next in a search for an entry.
#[derive(Debug)]
pub enum EntryStep {
    /// The search is over.
    Done,
    /// The book of the side that is looked at is wanted.
    FetchBook(EntryScan),
    /// The side is to be bought; its margin is given.
    Buy(EntryScan, i64),
}

impl EntryScan {
    pub open spec fn wf(self) -> bool {
        &&& self.gs.wf()
        &&& self.market.wf()
        &&& signed(self.strike)
        &&& -10_000_000_000 <= self.remaining <= 10_000_000_000
        &&& signed(self.log_ratio)
    }

    /// The margin of the side that is looked at.
    pub open spec fn z(self) -> int {
        margin(
            self.gs.spot as int,
            self.strike as int,
            self.gs.sigma as int,
            direction(self.side_up),
            self.remaining * 1000,
            self.log_ratio as int,
        )
    }
}

/// Whether a search for an entry may begin.
pub enum Gate {
    /// There is nothing to look for.
    Closed,
    /// Something forbids it: the dashboard says what.
    Blocked(Seq<char>),
    /// It may.
    Open,
}

/// What an ask makes of a side.
pub enum SideCheck {
    /// The side is not offered in the band.
    Absent,
    /// The guard does not confirm it: the dashboard says why.
    Refused(Seq<char>),
    /// It is to be bought.
    Confirmed,
}

pub open spec fn in_band(cfg: Config, ask: Option<i64>) -> bool {
    match ask {
        Some(a) => cfg.entry_min <= a <= cfg.entry_max,
        None => false,
    }
}

/// What the dashboard says of a margin that does not suffice.
pub open spec fn thin_margin_text(z: int, needed: int) -> Seq<char> {
    "z insuffisant ("@ + two_decimals(z) + " < "@ + fixed_text(needed) + ")"@
}

/// What the dashboard says when no side is in the band.
pub open spec fn no_side_text(cfg: Config) -> Seq<char> {
    "aucun côté dans ["@ + fixed_text(cfg.entry_min as int) + ", "@ + fixed_text(
        cfg.entry_max as int,
    ) + "]"@
}

/// The market offers the side in the band, and the guard must confirm it: its
/// margin suffices and the price does not drift the wrong way.
pub open spec fn side_check(cfg: Config, scan: EntryScan, ask: Option<i64>) -> SideCheck {
    if !in_band(cfg, ask) {
        SideCheck::Absent
    } else if scan.z() < cfg.z_entry {
        SideCheck::Refused(thin_margin_text(scan.z(), cfg.z_entry as int))
    } else if scan.gs.drift * direction(scan.side_up) < -cfg.drift_exit {
        SideCheck::Refused("drift à contre-sens"@)
    } else {
        SideCheck::Confirmed
    }
}

/// The lowest ask of a book, if there is one.
pub open spec fn ask_of(book: Option<PolyBook>) -> Option<i64> {
    match book {
        Some(b) => lowest(b.asks@),
        None => None,
    }
}

/// The position that a fill opens.
pub open spec fn opened(pos: Position, scan: EntryScan, z: i64, stack: i64, fill: Fill) -> bool {
    &&& pos.side_up == scan.side_up
    &&& pos.token_id@ == scan.market.token(scan.side_up)
    &&& pos.shares == fill.shares
    &&& pos.cost == stack
    &&& pos.entry_fees == fill.fees
    &&& pos.entry_price == fill.avg_price
    &&& pos.cash_left == max(stack - fill.notional - fill.fees, 0)
    &&& pos.z_at_entry == z
    &&& !pos.ride
    &&& pos.spot_at_entry == scan.gs.spot
    &&& pos.sigma_at_entry == scan.gs.sigma
    &&& pos.remaining_s_at_entry == scan.remaining
    &&& pos.window_ts == scan.market.window_ts
    &&& pos.slug@ == scan.market.slug@
    &&& pos.strike == scan.strike
    &&& pos.end_ms == scan.market.end_ms
}

impl Grinder {
    /// Only the reason that the dashboard gives has changed, to `text`.
    pub open spec fn blocked(self, after: Grinder, text: Seq<char>) -> bool {
        &&& after == (Grinder {
            dash: DashState { last_block_reason: after.dash.last_block_reason, ..self.dash },
            ..self
        })
        &&& after.dash.last_block_reason@ == text
    }

    /// Whether a search for an entry may begin: there is no position and no
    /// halt, the strike is known, the window was not played yet and has the
    /// right time left, the guard sees, and its alarm is off.
    pub open spec fn gate(self, now_ms: int) -> Gate {
        let gs = self.guard_at(now_ms);
        if self.phase is InPosition {
            Gate::Closed
        } else if self.st.halted {
            Gate::Blocked("HALTED après wipe — relance manuelle requise (state.halted)"@)
        } else {
            match self.market {
                None => Gate::Closed,
                Some(m) => {
                    let remaining = seconds_left(m.end_ms as int, now_ms);
                    if self.strike is None {
                        Gate::Blocked("strike indisponible"@)
                    } else if m.window_ts == self.last_played_window {
                        Gate::Closed
                    } else if remaining < self.cfg.min_remaining_s || remaining
                        > self.cfg.max_remaining_s {
                        Gate::Closed
                    } else if !gs.fresh(now_ms, self.cfg.guard_max_age_ms as int) {
                        Gate::Blocked("garde Tokyo aveugle (flux Binance périmé)"@)
                    } else if gs.kill {
                        Gate::Blocked("KILL radar actif"@)
                    } else {
                        Gate::Open
                    }
                },
            }
        }
    }

    /// What a search for an entry begins with.
    pub open spec fn first_scan(self, now_ms: int, log_ratio: i64, scan: EntryScan) -> bool {
        &&& scan.gs == self.guard_at(now_ms)
        &&& self.market == Some(scan.market)
        &&& self.strike == Some(scan.strike)
        &&& scan.remaining == seconds_left(scan.market.end_ms as int, now_ms)
        &&& scan.log_ratio == log_ratio
        &&& scan.side_up
        &&& !scan.any_in_band
    }

    /// Begins a search for an entry, if there may be one. `log_ratio` is the
    /// logarithm of the spot over the strike.
    pub fn try_enter(&mut self, now_ms: i64, log_ratio: i64) -> (r: EntryStep)
        requires
            old(self).wf(),
            instant(now_ms),
            signed(log_ratio),
        ensures
            final(self).wf(),
            match old(self).gate(now_ms as int) {
                Gate::Closed => r is Done && *final(self) == *old(self),
                Gate::Blocked(text) => r is Done && old(self).blocked(*final(self), text),
                Gate::Open => {
                    &&& *final(self) == *old(self)
                    &&& r matches EntryStep::FetchBook(scan)
                    &&& scan.wf()
                    &&& old(self).first_scan(now_ms as int, log_ratio, scan)
                },
            },
    {
        match &self.phase {
            Phase::InPosition(_) => return EntryStep::Done,
            Phase::Scanning => {},
        }
        if self.st.halted {
            self.dash.block(
                "HALTED après wipe — relance manuelle requise (state.halted)".to_owned(),
            );
            return EntryStep::Done;
        }
        let gs = self.guard_now(now_ms);
        let market = match &self.market {
            Some(m) => m.clone(),
            None => return EntryStep::Done,
        };
        let strike: i64 = match self.strike {
            Some(k) => k,
            None => {
                self.dash.block("strike indisponible".to_owned());
                return EntryStep::Done;
            },
        };
        if market.window_ts == self.last_played_window {
            return EntryStep::Done;
        }
        let remaining = market.time_remaining_sec(now_ms);
        if remaining < self.cfg.min_remaining_s || remaining > self.cfg.max_remaining_s {
            return EntryStep::Done;
        }
        if !gs.is_fresh(now_ms as u64, self.cfg.guard_max_age_ms) {
            self.dash.block("garde Tokyo aveugle (flux Binance périmé)".to_owned());
            return EntryStep::Done;
        }
        if gs.kill {
            self.dash.block("KILL radar actif".to_owned());
            return EntryStep::Done;
        }
        EntryStep::FetchBook(
            EntryScan { gs, market, strike, remaining, log_ratio, side_up: true, any_in_band: false },
        )
    }

    /// The search goes on with the other side after the first, and ends after
    /// the second; the dashboard says so where neither was in the band.
    pub open spec fn goes_on(self, scan: EntryScan, after: Grinder, r: EntryStep) -> bool {
        if scan.side_up {
            &&& after == self
            &&& r == EntryStep::FetchBook(EntryScan { side_up: false, ..scan })
        } else if scan.any_in_band {
            after == self && r is Done
        } else {
            self.blocked(after, no_side_text(self.cfg)) && r is Done
        }
    }

    fn next_side(&mut self, scan: EntryScan) -> (r: EntryStep)
        ensures
            old(self).goes_on(scan, *final(self), r),
    {
        if scan.side_up {
            let mut next = scan;
            next.side_up = false;
            EntryStep::FetchBook(next)
        } else {
            if !scan.any_in_band {
                let text = "aucun côté dans [".to_owned().concat(
                    fixed_text_of(self.cfg.entry_min).as_str(),
                ).concat(", ").concat(fixed_text_of(self.cfg.entry_max).as_str()).concat("]");
                self.dash.block(text);
            }
            EntryStep::Done
        }
    }

    /// Goes on with the book of the side that is looked at, if that could be
    /// read.
    pub fn entry_book(&mut self, scan: EntryScan, book: Option<&PolyBook>) -> (r: EntryStep)
        requires
            old(self).wf(),
            scan.wf(),
        ensures
            final(self).wf(),
            ({
                let ask = ask_of(
                    match book {
                        Some(b) => Some(*b),
                        None => None,
                    },
                );
                let seen = EntryScan {
                    any_in_band: scan.any_in_band || in_band(old(self).cfg, ask),
                    ..scan
                };
                match side_check(old(self).cfg, scan, ask) {
                    SideCheck::Absent => old(self).goes_on(seen, *final(self), r),
                    SideCheck::Refused(text) => {
                        &&& old(self).blocked(*final(self), text)
                        &&& r == (if scan.side_up {
                            EntryStep::FetchBook(EntryScan { side_up: false, ..seen })
                        } else {
                            EntryStep::Done
                        })
                    },
                    SideCheck::Confirmed => {
                        &&& *final(self) == *old(self)
                        &&& r == EntryStep::Buy(seen, scan.z() as i64)
                    },
                }
            }),
            r matches EntryStep::FetchBook(next) ==> next.wf(),
            r matches EntryStep::Buy(next, z) ==> next.wf(),
    {
        let ask = match book {
            Some(b) => b.best_ask(),
            None => None,
        };
        let offered = match ask {
            Some(a) => self.cfg.entry_min <= a && a <= self.cfg.entry_max,
            None => false,
        };
        if !offered {
            return self.next_side(scan);
        }
        let mut seen = scan;
        seen.any_in_band = true;
        let z = seen.gs.margin_z(
            seen.strike,
            direction_of(seen.side_up),
            seen.remaining * 1000,
            seen.log_ratio,
        );
        if z < self.cfg.z_entry {
            let text = "z insuffisant (".to_owned().concat(two_decimals_of(z).as_str()).concat(
                " < ",
            ).concat(fixed_text_of(self.cfg.z_entry).as_str()).concat(")");
            self.dash.block(text);
            return self.next_side(seen);
        }
        let drift: i64 = if seen.side_up {
            seen.gs.drift
        } else {
            -seen.gs.drift
        };
        if drift < -self.cfg.drift_exit {
            self.dash.block("drift à contre-sens".to_owned());
            return self.next_side(seen);
        }
        EntryStep::Buy(seen, z)
    }

    /// What buying with the whole stack obtains in simulation.
    pub fn exec_buy(&self, book: &PolyBook) -> (r: Fill)
        requires
            self.wf(),
            levels_wf(book.asks@),
        ensures
            r.wf(),
            sweep_fill(
                purchase(
                    book.asks@,
                    self.st.stack as int,
                    self.cfg.entry_max as int,
                    self.cfg.taker_fee_rate as int,
                ),
                r,
            ),
            r.notional <= self.st.stack,
            r.shares > 0 ==> r.avg_price <= self.cfg.entry_max,
    {
        sweep_buy(book, self.st.stack, self.cfg.entry_max, self.cfg.taker_fee_rate)
    }

    /// Goes on with what buying the side obtained, if the order was taken.
    pub fn entry_fill(&mut self, scan: EntryScan, z: i64, fill: Option<Fill>) -> (r: EntryStep)
        requires
            old(self).wf(),
            old(self).phase is Scanning,
            old(self).st.has_room(),
            scan.wf(),
            fill matches Some(f) ==> f.wf(),
        ensures
            final(self).wf(),
            match fill {
                None => old(self).goes_on(scan, *final(self), r),
                Some(f) => if f.shares <= 0 {
                    &&& old(self).blocked(
                        *final(self),
                        if !scan.side_up && !scan.any_in_band {
                            no_side_text(old(self).cfg)
                        } else {
                            "profondeur ask insuffisante (ou dry-run live)"@
                        },
                    )
                    &&& r == (if scan.side_up {
                        EntryStep::FetchBook(EntryScan { side_up: false, ..scan })
                    } else {
                        EntryStep::Done
                    })
                } else {
                    &&& r is Done
                    &&& final(self).phase matches Phase::InPosition(pos)
                    &&& opened(pos, scan, z, old(self).st.stack, f)
                    &&& *final(self) == (Grinder {
                        phase: final(self).phase,
                        last_played_window: scan.market.window_ts,
                        ..*old(self)
                    })
                },
            },
            r matches EntryStep::FetchBook(next) ==> next.wf(),
            !(r is Buy),
    {
        let f = match fill {
            Some(f) => f,
            None => return self.next_side(scan),
        };
        if f.shares <= 0 {
            self.dash.block("profondeur ask insuffisante (ou dry-run live)".to_owned());
            return self.next_side(scan);
        }
        let cash_left: i64 = max_of(self.st.stack - f.notional - f.fees, 0);
        let pos = Position {
            side_up: scan.side_up,
            token_id: scan.market.token_id(scan.side_up),
            shares: f.shares,
            cost: self.st.stack,
            entry_fees: f.fees,
            entry_price: f.avg_price,
            cash_left,
            z_at_entry: z,
            spot_at_entry: scan.gs.spot,
            sigma_at_entry: scan.gs.sigma,
            remaining_s_at_entry: scan.remaining,
            window_ts: scan.market.window_ts,
            slug: scan.market.slug.clone(),
            strike: scan.strike,
            end_ms: scan.market.end_ms,
            ride: false,
        };
        self.last_played_window = scan.market.window_ts;
        self.phase = Phase::InPosition(pos);
        EntryStep::Done
    }
}

/// After a halt nothing is bought: no search for an entry begins.
pub proof fn a_halted_bot_does_not_enter(g: Grinder, now_ms: int)
    requires
        g.st.halted,
    ensures
        !(g.gate(now_ms) is Open),
{
}

/// There is one position at a time: while there is one, no search for another
/// begins.
pub proof fn one_position_at_a_time(g: Grinder, now_ms: int)
    requires
        g.phase is InPosition,
    ensures
        g.gate(now_ms) is Closed,
{
}

/// A window is entered once: after an entry no search begins in the same
/// window.
pub proof fn one_entry_a_window(g: Grinder, now_ms: int)
    requires
        g.market matches Some(m) && m.window_ts == g.last_played_window,
    ensures
        !(g.gate(now_ms) is Open),
{
}

/// No search begins while the guard is blind or its alarm is on.
pub proof fn no_entry_without_the_guard(g: Grinder, now_ms: int)
    requires
        g.guard_at(now_ms).kill || !g.guard_at(now_ms).fresh(
            now_ms,
            g.cfg.guard_max_age_ms as int,
        ),
    ensures
        !(g.gate(now_ms) is Open),
{
}

/// A side is bought only at a price in the band, with the margin that an entry
/// needs, and not against the drift.
pub proof fn a_bought_side_is_confirmed(cfg: Config, scan: EntryScan, ask: Option<i64>)
    requires
        side_check(cfg, scan, ask) is Confirmed,
    ensures
        ask matches Some(a) && cfg.entry_min <= a <= cfg.entry_max,
        scan.z() >= cfg.z_entry,
        scan.gs.drift * direction(scan.side_up) >= -cfg.drift_exit,
{
}

/// The stack is accounted for at an entry: what was not paid is kept, and all
/// of the stack is at stake.
pub proof fn the_stack_is_accounted_for(
    pos: Position,
    scan: EntryScan,
    z: i64,
    stack: i64,
    fill: Fill,
)
    requires
        opened(pos, scan, z, stack, fill),
    ensures
        pos.cost == stack,
        fill.notional + fill.fees <= stack ==> pos.cash_left + fill.notional + fill.fees == stack,
        fill.notional + fill.fees > stack ==> pos.cash_left == 0,
{
}

/// A window that is won returns at least what was staked on it, but for the
/// fees: no share costs more than the dollar that it returns.
pub proof fn a_win_returns_the_stake(
    pos: Position,
    scan: EntryScan,
    z: i64,
    stack: i64,
    fill: Fill,
)
    requires
        opened(pos, scan, z, stack, fill),
        fill.notional <= fill.shares,
    ensures
        resolution_proceeds(pos, true) >= stack - fill.fees,
        resolution_proceeds(pos, true) == resolution_proceeds(pos, false) + fill.shares,
{
}

/// A search for an entry begins exactly if nothing is held, play was not stopped,
/// the window and its strike are known, the window was not entered yet, the time
/// that is left lies within its bounds, the guard has seen something lately, and
/// its alarm is off.
pub proof fn what_an_entry_needs(g: Grinder, now_ms: int)
    ensures
        g.gate(now_ms) is Open <==> {
            let gs = g.guard_at(now_ms);
            &&& g.phase is Scanning
            &&& !g.st.halted
            &&& g.strike is Some
            &&& g.market matches Some(m)
            &&& m.window_ts != g.last_played_window
            &&& g.cfg.min_remaining_s <= seconds_left(m.end_ms as int, now_ms)
            &&& seconds_left(m.end_ms as int, now_ms) <= g.cfg.max_remaining_s
            &&& gs.ts_ms > 0
            &&& g.cfg.guard_max_age_ms > 0
            &&& now_ms < gs.ts_ms + g.cfg.guard_max_age_ms
            &&& !gs.kill
        },
{
}

/// What the dashboard says of a search that does not begin: that play was stopped,
/// before all else; that the strike is not known; that the guard is blind; that
/// its alarm is on. A window that was played, or has not the right time left, is
/// passed over in silence.
pub proof fn what_is_said_of_no_entry(g: Grinder, now_ms: int)
    requires
        g.phase is Scanning,
    ensures
        g.st.halted ==> g.gate(now_ms) == Gate::Blocked(
            "HALTED après wipe — relance manuelle requise (state.halted)"@,
        ),
        !g.st.halted && g.market is None ==> g.gate(now_ms) is Closed,
        !g.st.halted && g.market is Some && g.strike is None ==> g.gate(now_ms) == Gate::Blocked(
            "strike indisponible"@,
        ),
        !g.st.halted && g.strike is Some ==> (g.market matches Some(m) ==> {
            let gs = g.guard_at(now_ms);
            let left = seconds_left(m.end_ms as int, now_ms);
            let late = m.window_ts == g.last_played_window || left < g.cfg.min_remaining_s || left
                > g.cfg.max_remaining_s;
            let blind = gs.ts_ms == 0 || now_ms - gs.ts_ms >= g.cfg.guard_max_age_ms
                || g.cfg.guard_max_age_ms == 0;
            &&& late ==> g.gate(now_ms) is Closed
            &&& !late && blind ==> g.gate(now_ms) == Gate::Blocked(
                "garde Tokyo aveugle (flux Binance périmé)"@,
            )
            &&& !late && !blind && gs.kill ==> g.gate(now_ms) == Gate::Blocked("KILL radar actif"@)
        }),
{
}

/// A search begins with what is known: what the guard says, the window, its strike
/// and the time left, on the side that wins when the price rises.
pub proof fn a_search_begins_with_what_is_known(
    g: Grinder,
    now_ms: int,
    log_ratio: i64,
    scan: EntryScan,
)
    requires
        g.first_scan(now_ms, log_ratio, scan),
    ensures
        scan.gs == g.guard_at(now_ms),
        g.market == Some(scan.market),
        g.strike == Some(scan.strike),
        scan.remaining == seconds_left(scan.market.end_ms as int, now_ms),
        scan.log_ratio == log_ratio,
        scan.side_up,
        !scan.any_in_band,
{
}

/// A side is bought exactly if it is asked for within the band, both bounds
/// included, with a margin that suffices, and not against the drift.
pub proof fn what_a_side_needs(cfg: Config, scan: EntryScan, ask: Option<i64>)
    ensures
        side_check(cfg, scan, ask) is Confirmed <==> {
            &&& ask matches Some(a)
            &&& cfg.entry_min <= a
            &&& a <= cfg.entry_max
            &&& scan.z() >= cfg.z_entry
            &&& scan.side_up ==> scan.gs.drift >= -cfg.drift_exit
            &&& !scan.side_up ==> -scan.gs.drift >= -cfg.drift_exit
        },
        side_check(cfg, scan, ask) is Absent <==> (match ask {
            Some(a) => a < cfg.entry_min || a > cfg.entry_max,
            None => true,
        }),
        side_check(cfg, scan, ask) matches SideCheck::Refused(text) ==> text == (if scan.z()
            < cfg.z_entry {
            "z insuffisant ("@ + two_decimals(scan.z()) + " < "@ + fixed_text(cfg.z_entry as int)
                + ")"@
        } else {
            "drift à contre-sens"@
        }),
{
    let d = direction(scan.side_up);
    assert(scan.gs.drift * 1 == scan.gs.drift);
    assert(scan.gs.drift * -1 == -scan.gs.drift);
}

/// The margin of a side that is looked at is that of the spot, the strike and the
/// volatility of the search over the seconds left; that of the other side is its
/// opposite.
pub proof fn the_margins_of_the_sides_are_opposite(scan: EntryScan)
    requires
        scan.log_ratio > 0 <==> scan.gs.spot > scan.strike,
        scan.log_ratio < 0 <==> scan.gs.spot < scan.strike,
    ensures
        (EntryScan { side_up: !scan.side_up, ..scan }).z() == -scan.z(),
        scan.z() == margin(
            scan.gs.spot as int,
            scan.strike as int,
            scan.gs.sigma as int,
            if scan.side_up {
                1
            } else {
                -1
            },
            1000 * scan.remaining,
            scan.log_ratio as int,
        ),
{
    margin_follows_the_side(
        scan.gs.spot as int,
        scan.strike as int,
        scan.gs.sigma as int,
        direction(scan.side_up),
        scan.remaining * 1000,
        scan.log_ratio as int,
    );
}

/// The ask of a book is its lowest: none of its asks is lower, and it is one of
/// them.
pub proof fn the_ask_is_the_lowest(b: PolyBook)
    ensures
        ask_of(None) is None,
        ask_of(Some(b)) is None <==> b.asks@.len() == 0,
        ask_of(Some(b)) matches Some(a) ==> {
            &&& forall|i: int| 0 <= i < b.asks@.len() ==> a <= (#[trigger] b.asks@[i]).price
            &&& exists|i: int| 0 <= i < b.asks@.len() && a == (#[trigger] b.asks@[i]).price
        },
{
    lowest_is_lowest(b.asks@);
}

/// The search goes from the first side to the second and then ends; it leaves a
/// word exactly where neither side was in the band.
pub proof fn a_search_looks_at_both_sides(
    g: Grinder,
    scan: EntryScan,
    after: Grinder,
    step: EntryStep,
)
    requires
        g.goes_on(scan, after, step),
    ensures
        scan.side_up ==> after == g && (step matches EntryStep::FetchBook(next) && !next.side_up
            && next.any_in_band == scan.any_in_band && next.market == scan.market && next.gs == scan.gs
            && next.strike == scan.strike && next.remaining == scan.remaining && next.log_ratio
            == scan.log_ratio),
        !scan.side_up ==> step is Done,
        !scan.side_up && scan.any_in_band ==> after == g,
        !scan.side_up && !scan.any_in_band ==> after.dash.last_block_reason@ == "aucun côté dans ["@
            + fixed_text(g.cfg.entry_min as int) + ", "@ + fixed_text(g.cfg.entry_max as int) + "]"@,
        after.st == g.st && after.phase == g.phase && after.last_played_window
            == g.last_played_window,
{
}

/// A position holds what was bought, of the token of its side, and knows what was
/// known when it was opened.
pub proof fn a_position_holds_what_was_bought(
    pos: Position,
    scan: EntryScan,
    z: i64,
    stack: i64,
    fill: Fill,
)
    requires
        opened(pos, scan, z, stack, fill),
    ensures
        pos.shares == fill.shares,
        pos.entry_fees == fill.fees,
        pos.entry_price == fill.avg_price,
        pos.side_up == scan.side_up,
        pos.side_up ==> pos.token_id@ == scan.market.up_token_id@,
        !pos.side_up ==> pos.token_id@ == scan.market.down_token_id@,
        pos.slug@ == scan.market.slug@,
        pos.window_ts == scan.market.window_ts,
        pos.end_ms == scan.market.end_ms,
        pos.strike == scan.strike,
        pos.z_at_entry == z,
        pos.spot_at_entry == scan.gs.spot,
        pos.sigma_at_entry == scan.gs.sigma,
        pos.remaining_s_at_entry == scan.remaining,
        !pos.ride,
{
}

/// A word on the dashboard is all that a block leaves: the accounts, the position and
/// the window stay as they are.
pub proof fn a_block_leaves_a_word_only(g: Grinder, after: Grinder, text: Seq<char>)
    requires
        g.blocked(after, text),
    ensures
        after.dash.last_block_reason@ == text,
        after.st == g.st,
        after.phase == g.phase,
        after.market == g.market,
        after.strike == g.strike,
        after.last_played_window == g.last_played_window,
        after.cfg == g.cfg,
        after.guard == g.guard,
        after.remote == g.remote,
        after.reconcile_halt == g.reconcile_halt,
        after.wallet_evals == g.wallet_evals,
        after.wallet_live == g.wallet_live,
        after.last_wall == g.last_wall,
        after.dash.windows == g.dash.windows,
{
}

/// A price is in the band exactly between its two bounds, both included.
pub proof fn the_band_includes_its_bounds(cfg: Config, ask: Option<i64>)
    ensures
        ask is None ==> !in_band(cfg, ask),
        ask matches Some(a) ==> (in_band(cfg, ask) <==> !(a < cfg.entry_min) && !(a > cfg.entry_max)),
{
}

} // verus!
