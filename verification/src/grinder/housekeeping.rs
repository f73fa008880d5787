//! The slow loop: what is to be looked after twice a second, and in what order.

use vstd::prelude::*;

use super::exits::{secure_due, stale_due};
use super::Grinder;
use crate::fixed::{instant, signed};
use crate::position::{seconds_are_whole, seconds_left, Market, Phase};
use crate::state::GrinderState;

verus! {

/// A piece of the slow loop's work.
#[derive(Debug, Clone, Copy, PartialEq, Eq, Structural)]
pub enum Stage {
    /// Nothing has been done yet.
    Start,
    /// A position whose window is over is to be resolved.
    Resolve,
    /// The official verdict has contradicted a resolution.
    Reconcile,
    /// The guard is blind.
    Stale,
    /// The wall is to be measured.
    Wall,
    /// The position is to be cashed in if the bid allows it.
    Secure,
    /// The current window is to be found.
    Market,
    /// The strike of the window is to be read.
    Strike,
    /// An entry is to be looked for.
    Enter,
    /// The dashboard is to be brought up to date.
    Publish,
}

/// The place of a piece of work in the loop.
pub open spec fn rank(s: Stage) -> int {
    match s {
        Stage::Start => 0,
        Stage::Resolve => 1,
        Stage::Reconcile => 2,
        Stage::Stale => 3,
        Stage::Wall => 4,
        Stage::Secure => 5,
        Stage::Market => 6,
        Stage::Strike => 7,
        Stage::Enter => 8,
        Stage::Publish => 9,
    }
}

impl Grinder {
    /// The window of the open position is over.
    pub open spec fn is_over(self, now_ms: int) -> bool {
        self.phase matches Phase::InPosition(pos) && now_ms >= pos.end_ms + 3_000
    }

    /// There is no window, or the last one has ended.
    pub open spec fn lacks_market(self, now_ms: int) -> bool {
        match self.market {
            None => true,
            Some(m) => seconds_left(m.end_ms as int, now_ms) <= 0,
        }
    }

    /// The window has begun and its strike is not known.
    pub open spec fn lacks_strike(self, now_s: int) -> bool {
        self.strike is None && (self.market matches Some(m) && now_s >= m.window_ts)
    }

    /// A piece of work is to be done now.
    pub open spec fn due(self, s: Stage, now_ms: int, now_s: int) -> bool {
        match s {
            Stage::Start => false,
            Stage::Resolve => self.is_over(now_ms),
            Stage::Reconcile => self.reconcile_halt,
            Stage::Stale => self.phase matches Phase::InPosition(pos) && stale_due(
                self.cfg,
                pos,
                self.guard_at(now_ms),
                now_ms,
            ),
            Stage::Wall => self.phase is InPosition && now_ms - self.last_wall_poll_ms >= 2_000,
            Stage::Secure => self.phase matches Phase::InPosition(pos) && secure_due(
                self.cfg,
                pos,
                self.last_wall,
                now_ms,
            ),
            Stage::Market => self.lacks_market(now_ms),
            Stage::Strike => self.lacks_strike(now_s),
            Stage::Enter => self.phase is Scanning,
            Stage::Publish => true,
        }
    }

    /// Whether a piece of work is to be done now.
    fn is_due(&self, s: Stage, now_ms: i64, now_s: i64) -> (r: bool)
        requires
            self.wf(),
            instant(now_ms),
        ensures
            r == self.due(s, now_ms as int, now_s as int),
    {
        match s {
            Stage::Start => false,
            Stage::Resolve => match &self.phase {
                Phase::InPosition(p) => now_ms >= p.end_ms + 3_000,
                Phase::Scanning => false,
            },
            Stage::Reconcile => self.reconcile_halt,
            Stage::Stale => self.stale_exit(now_ms, 0).is_some(),
            Stage::Wall => match &self.phase {
                Phase::InPosition(_) => now_ms - self.last_wall_poll_ms >= 2_000,
                Phase::Scanning => false,
            },
            Stage::Secure => self.wants_to_secure(now_ms),
            Stage::Market => match &self.market {
                None => true,
                Some(m) => m.time_remaining_sec(now_ms) <= 0,
            },
            Stage::Strike => self.strike.is_none() && match &self.market {
                None => false,
                Some(m) => now_s >= m.window_ts,
            },
            Stage::Enter => match &self.phase {
                Phase::InPosition(_) => false,
                Phase::Scanning => true,
            },
            Stage::Publish => true,
        }
    }

    /// The next piece of work after `done`: the first one in the order of the
    /// loop that is to be done now. After the last the loop starts again.
    pub fn housekeeping(&self, done: Stage, now_ms: i64, now_s: i64) -> (r: Stage)
        requires
            self.wf(),
            instant(now_ms),
        ensures
            done == Stage::Publish ==> r == Stage::Start,
            done != Stage::Publish ==> rank(r) > rank(done) && self.due(
                r,
                now_ms as int,
                now_s as int,
            ) && forall|s: Stage|
                rank(done) < rank(s) < rank(r) ==> !#[trigger] self.due(
                    s,
                    now_ms as int,
                    now_s as int,
                ),
    {
        if done == Stage::Publish {
            return Stage::Start;
        }
        let mut s = done;
        loop
            invariant_except_break
                s == done || (rank(s) > rank(done) && !self.due(s, now_ms as int, now_s as int)),
                s != Stage::Publish,
                done != Stage::Publish,
            invariant
                self.wf(),
                instant(now_ms),
                forall|t: Stage|
                    rank(done) < rank(t) < rank(s) ==> !#[trigger] self.due(
                        t,
                        now_ms as int,
                        now_s as int,
                    ),
            ensures
                rank(s) > rank(done) && self.due(s, now_ms as int, now_s as int),
            decreases 9 - rank(s),
        {
            s = match s {
                Stage::Start => Stage::Resolve,
                Stage::Resolve => Stage::Reconcile,
                Stage::Reconcile => Stage::Stale,
                Stage::Stale => Stage::Wall,
                Stage::Wall => Stage::Secure,
                Stage::Secure => Stage::Market,
                Stage::Market => Stage::Strike,
                Stage::Strike => Stage::Enter,
                _ => Stage::Publish,
            };
            if self.is_due(s, now_ms, now_s) {
                break ;
            }
        }
        s
    }

    /// Takes note that the official verdict has contradicted a resolution, if
    /// it has: live play stops, a simulation goes on. Returns whether the state
    /// is to be saved.
    pub fn on_reconcile(&mut self) -> (r: bool)
        requires
            old(self).wf(),
        ensures
            final(self).wf(),
            r == (old(self).reconcile_halt && old(self).cfg.live()),
            *final(self) == (Grinder {
                reconcile_halt: false,
                st: GrinderState { halted: old(self).st.halted || r, ..old(self).st },
                ..*old(self)
            }),
    {
        let diverged = self.reconcile_halt;
        self.reconcile_halt = false;
        if diverged && self.cfg.is_live() {
            self.st.halted = true;
            true
        } else {
            false
        }
    }

    /// Takes in the window that was found, if one was, and returns the tokens
    /// to follow from now on.
    pub fn on_market(&mut self, found: Option<Market>) -> (r: Option<Vec<String>>)
        requires
            old(self).wf(),
            found matches Some(m) ==> m.wf(),
        ensures
            final(self).wf(),
            match found {
                None => r is None && *final(self) == *old(self),
                Some(m) => {
                    &&& r matches Some(tokens)
                    &&& tokens@.len() == 2
                    &&& tokens@[0]@ == m.up_token_id@
                    &&& tokens@[1]@ == m.down_token_id@
                    &&& *final(self) == (Grinder { market: Some(m), strike: None, ..*old(self) })
                },
            },
    {
        match found {
            None => None,
            Some(m) => {
                let mut tokens: Vec<String> = Vec::new();
                tokens.push(m.up_token_id.clone());
                tokens.push(m.down_token_id.clone());
                self.strike = None;
                self.market = Some(m);
                Some(tokens)
            },
        }
    }

    /// Takes in the strike of the window, if it could be read.
    pub fn on_strike(&mut self, price: Option<i64>)
        requires
            old(self).wf(),
            price matches Some(p) ==> signed(p),
        ensures
            final(self).wf(),
            *final(self) == (Grinder {
                strike: match price {
                    Some(p) => Some(p),
                    None => old(self).strike,
                },
                ..*old(self)
            }),
    {
        match price {
            Some(p) => {
                self.strike = Some(p);
            },
            None => {},
        }
    }
}

/// How often the official verdict is asked for, at most.
pub const VERDICT_TRIES: u32 = 40;

/// A resolution that waits for the official verdict.
#[derive(Debug)]
pub struct Reconcile {
    pub slug: String,
    /// What the accounts went by.
    pub booked_up_won: bool,
    /// How often the verdict was asked for.
    pub tries: u32,
}

/// What becomes of a resolution that waits for the official verdict.
#[derive(Debug, Clone, Copy, PartialEq, Eq, Structural)]
pub enum ReconcileStep {
    /// Ask again in a while.
    Wait,
    /// The verdict confirms it.
    Confirmed,
    /// The verdict contradicts it.
    Diverged,
    /// No verdict came in time.
    GivenUp,
}

impl Reconcile {
    /// A resolution that nobody has confirmed yet.
    pub fn new(slug: String, booked_up_won: bool) -> (r: Self)
        ensures
            r.slug == slug,
            r.booked_up_won == booked_up_won,
            r.tries == 0,
    {
        Reconcile { slug, booked_up_won, tries: 0 }
    }

    /// Takes in what asking for the verdict gave: whether the price rose, if it
    /// is known.
    pub fn on_verdict(&mut self, official: Option<bool>) -> (r: ReconcileStep)
        requires
            old(self).tries < VERDICT_TRIES,
        ensures
            r == (match official {
                Some(up) => if up == old(self).booked_up_won {
                    ReconcileStep::Confirmed
                } else {
                    ReconcileStep::Diverged
                },
                None => if old(self).tries + 1 < VERDICT_TRIES {
                    ReconcileStep::Wait
                } else {
                    ReconcileStep::GivenUp
                },
            }),
            *final(self) == (Reconcile { tries: (old(self).tries + 1) as u32, ..*old(self) }),
            r == ReconcileStep::Wait ==> final(self).tries < VERDICT_TRIES,
    {
        self.tries = self.tries + 1;
        match official {
            Some(up) => if up == self.booked_up_won {
                ReconcileStep::Confirmed
            } else {
                ReconcileStep::Diverged
            },
            None => if self.tries < VERDICT_TRIES {
                ReconcileStep::Wait
            } else {
                ReconcileStep::GivenUp
            },
        }
    }
}

/// While there is no position the loop looks for an entry, and for nothing that
/// a position would need.
pub proof fn entries_are_looked_for(g: Grinder, now_ms: int, now_s: int)
    requires
        g.phase is Scanning,
    ensures
        g.due(Stage::Enter, now_ms, now_s),
        !g.due(Stage::Resolve, now_ms, now_s),
        !g.due(Stage::Stale, now_ms, now_s),
        !g.due(Stage::Wall, now_ms, now_s),
        !g.due(Stage::Secure, now_ms, now_s),
{
}

/// While a position is open the loop does not look for an entry.
pub proof fn a_position_is_looked_after(g: Grinder, now_ms: int, now_s: int)
    requires
        g.phase is InPosition,
    ensures
        !g.due(Stage::Enter, now_ms, now_s),
        g.is_over(now_ms) ==> g.due(Stage::Resolve, now_ms, now_s),
{
}

/// The slow loop goes from the resolution of a window to the dashboard in a fixed
/// order: what concerns the position comes before the next window, and an entry
/// after both.
pub proof fn the_loop_has_its_order()
    ensures
        rank(Stage::Start) < rank(Stage::Resolve) < rank(Stage::Reconcile) < rank(Stage::Stale),
        rank(Stage::Stale) < rank(Stage::Wall) < rank(Stage::Secure) < rank(Stage::Market),
        rank(Stage::Market) < rank(Stage::Strike) < rank(Stage::Enter) < rank(Stage::Publish),
{
}

/// When each piece of the slow loop's work is to be done.
pub proof fn what_is_due(g: Grinder, now_ms: int, now_s: int)
    ensures
        !g.due(Stage::Start, now_ms, now_s),
        g.due(Stage::Publish, now_ms, now_s),
        g.due(Stage::Enter, now_ms, now_s) <==> g.phase is Scanning,
        g.due(Stage::Reconcile, now_ms, now_s) <==> g.reconcile_halt,
        g.due(Stage::Resolve, now_ms, now_s) <==> (g.phase matches Phase::InPosition(p) && now_ms
            - p.end_ms >= 3_000),
        g.due(Stage::Wall, now_ms, now_s) <==> g.phase is InPosition && now_ms >= g.last_wall_poll_ms
            + 2_000,
        g.due(Stage::Stale, now_ms, now_s) <==> (g.phase matches Phase::InPosition(p) && stale_due(
            g.cfg,
            p,
            g.guard_at(now_ms),
            now_ms,
        )),
        g.due(Stage::Secure, now_ms, now_s) <==> (g.phase matches Phase::InPosition(p) && secure_due(
            g.cfg,
            p,
            g.last_wall,
            now_ms,
        )),
        g.due(Stage::Market, now_ms, now_s) <==> (match g.market {
            None => true,
            Some(m) => m.end_ms < now_ms + 1000,
        }),
        g.due(Stage::Strike, now_ms, now_s) <==> g.strike is None && (g.market matches Some(m)
            && m.window_ts <= now_s),
{
    if let Some(m) = g.market {
        seconds_are_whole(m.end_ms as int, now_ms);
        seconds_are_whole(now_ms, m.end_ms as int);
    }
}

} // verus!
