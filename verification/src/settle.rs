//! The accounts: what the close of a window does to the state of the
//! compounding.

use vstd::prelude::*;

use crate::config::Config;
use crate::fixed::{
    fraction_of, max, max_of, product, signed, stake, LIMIT, NANO,
};
use crate::state::{GrinderState, Ledger};

verus! {

/// How a window ended.
#[derive(Debug, Clone, Copy, PartialEq, Eq, Structural)]
pub enum Outcome {
    /// The side held won.
    Win,
    /// The side held lost.
    Loss,
    /// The position was sold in an emergency.
    Panic,
    /// The position was cashed in near the end.
    Secure,
}

impl Outcome {
    pub open spec fn text(self) -> Seq<char> {
        match self {
            Outcome::Win => "win"@,
            Outcome::Loss => "loss"@,
            Outcome::Panic => "panic"@,
            Outcome::Secure => "secure"@,
        }
    }

    /// The word that the ledger uses.
    pub fn as_str(&self) -> (r: &'static str)
        ensures
            r@ == self.text(),
    {
        match self {
            Outcome::Win => "win",
            Outcome::Loss => "loss",
            Outcome::Panic => "panic",
            Outcome::Secure => "secure",
        }
    }
}

/// The resets of the last `window_s` seconds.
pub open spec fn recent(resets: Seq<i64>, now_s: i64, window_s: i64) -> Seq<i64> {
    resets.filter(|t: i64| now_s - t < window_s)
}

/// A wipe: the streak is over and a new run starts from the base. Play stops
/// where live play was reset too often, or where a wipe is to stop it and the
/// stake is gone.
pub open spec fn wiped(
    l: Ledger,
    cfg: Config,
    outcome: Outcome,
    proceeds: int,
    now_s: i64,
) -> Ledger {
    let resets = recent(l.reset_ts.push(now_s), now_s, cfg.reset_window_s);
    Ledger {
        streak: 0,
        run_id: l.run_id + 1,
        stack: cfg.grind_base as int,
        reset_ts: resets,
        halted: l.halted || (cfg.max_resets > 0 && cfg.live() && resets.len() >= cfg.max_resets) || (
        cfg.halt_on_wipe && (outcome == Outcome::Loss || proceeds < NANO)),
        ..l
    }
}

/// The accounts after a window that cost `cost` and returned `proceeds`, before
/// anything is taken off the table. A win or a cashed-in position compounds; so
/// does an emergency sale that saves the base, though it ends the streak. A
/// window that is lost is a wipe, and so is a sale that saves less.
pub open spec fn closed(
    l: Ledger,
    cfg: Config,
    outcome: Outcome,
    cost: int,
    proceeds: int,
    now_s: i64,
) -> Ledger {
    let pnl = proceeds - cost;
    let played = Ledger {
        windows_played: l.windows_played + 1,
        realized_pnl: l.realized_pnl + pnl,
        ..l
    };
    let after = match outcome {
        Outcome::Win => Ledger {
            streak: l.streak + 1,
            best_streak: max(l.best_streak, l.streak + 1),
            stack: proceeds,
            ..played
        },
        Outcome::Secure => Ledger { stack: proceeds, ..played },
        Outcome::Panic if proceeds >= cfg.grind_base => Ledger {
            streak: 0,
            stack: proceeds,
            ..played
        },
        _ => wiped(played, cfg, outcome, proceeds, now_s),
    };
    Ledger { best_stack: max(l.best_stack, after.stack), ..after }
}

/// `skim` dollars are taken off the table.
pub open spec fn skimmed(l: Ledger, skim: int) -> Ledger {
    Ledger { banked: l.banked + skim, stack: l.stack - skim, ..l }
}

/// What is put aside of a win.
pub open spec fn gain_skim(cfg: Config, outcome: Outcome, pnl: int) -> int {
    if cfg.stack_skim_gain > 0 && outcome == Outcome::Win && pnl > 0 {
        product(cfg.stack_skim_gain as int, pnl)
    } else {
        0
    }
}

/// What exceeds the part of `wallet` that may be staked.
pub open spec fn cap_skim(cfg: Config, stack: int, wallet: int) -> int {
    let cap = product(cfg.stack_cap_fraction as int, wallet);
    if stack > cap {
        stack - cap
    } else {
        0
    }
}

/// The accounts after the stack was brought within its part of the simulated
/// wallet.
pub open spec fn paper_capped(l: Ledger, cfg: Config) -> Ledger {
    let wallet = cfg.paper_wallet0 + l.realized_pnl;
    if cfg.stack_cap_fraction > 0 && !cfg.live() && wallet > 0 {
        skimmed(l, cap_skim(cfg, l.stack, wallet))
    } else {
        l
    }
}

/// The accounts after a window that cost `cost` and returned `proceeds`.
pub open spec fn settled(
    l: Ledger,
    cfg: Config,
    outcome: Outcome,
    cost: int,
    proceeds: int,
    now_s: i64,
) -> Ledger {
    let after = closed(l, cfg, outcome, cost, proceeds, now_s);
    paper_capped(skimmed(after, gain_skim(cfg, outcome, proceeds - cost)), cfg)
}

/// The accounts after the stack was brought within its part of the real
/// `wallet`.
pub open spec fn live_capped(l: Ledger, cfg: Config, wallet: int) -> Ledger {
    skimmed(l, cap_skim(cfg, l.stack, wallet))
}

/// What a cap lets stand: a product with a positive fraction rounds down and is
/// not negative.
proof fn lemma_cap(fraction: int, wallet: int)
    requires
        0 <= fraction <= LIMIT,
        0 <= wallet <= 2 * LIMIT,
    ensures
        0 <= fraction * wallet <= 2 * LIMIT * LIMIT,
        0 <= product(fraction, wallet),
        LIMIT * LIMIT == 1_000_000_000_000_000_000_000_000_000_000_000_000int,
{
    assert(0 <= fraction * wallet <= 2 * LIMIT * LIMIT) by (nonlinear_arith)
        requires
            0 <= fraction <= LIMIT,
            0 <= wallet <= 2 * LIMIT,
    ;
    crate::fixed::lemma_quotient_small(fraction * wallet, NANO as int);
}

impl GrinderState {
    /// Keeps the resets of the last `window_s` seconds.
    fn retain_resets(&mut self, now_s: i64, window_s: i64)
        requires
            signed(now_s),
            forall|i: int| 0 <= i < old(self).reset_ts@.len() ==> signed(#[trigger] old(self).reset_ts@[i]),
        ensures
            final(self).reset_ts@ == recent(old(self).reset_ts@, now_s, window_s),
            *final(self) == (GrinderState { reset_ts: final(self).reset_ts, ..*old(self) }),
            forall|i: int| 0 <= i < final(self).reset_ts@.len() ==> signed(#[trigger] final(self).reset_ts@[i]),
            final(self).reset_ts@.len() <= old(self).reset_ts@.len(),
    {
        let ghost all = self.reset_ts@;
        let ghost near = |t: i64| now_s - t < window_s;
        let mut kept: Vec<i64> = Vec::new();
        let mut i: usize = 0;
        reveal(Seq::filter);
        while i < self.reset_ts.len()
            invariant
                i <= self.reset_ts.len(),
                self.reset_ts@ == all,
                signed(now_s),
                near == (|t: i64| now_s - t < window_s),
                forall|j: int| 0 <= j < all.len() ==> signed(#[trigger] all[j]),
                kept@ == all.take(i as int).filter(near),
                kept@.len() <= i,
                forall|j: int| 0 <= j < kept@.len() ==> signed(#[trigger] kept@[j]),
            decreases self.reset_ts.len() - i,
        {
            reveal(Seq::filter);
            let t: i64 = self.reset_ts[i];
            proof {
                assert(signed(all[i as int]));
                assert(all.take(i + 1).drop_last() =~= all.take(i as int));
                assert(all.take(i + 1).last() == t);
            }
            if now_s - t < window_s {
                kept.push(t);
            }
            i = i + 1;
        }
        assert(all.take(all.len() as int) =~= all);
        self.reset_ts = kept;
    }

    /// Takes `skim` dollars off the table.
    fn skim(&mut self, skim: i64)
        requires
            0 <= skim <= old(self).stack,
            old(self).banked + skim <= i64::MAX,
        ensures
            final(self)@ == skimmed(old(self)@, skim as int),
            *final(self) == (GrinderState {
                banked: final(self).banked,
                stack: final(self).stack,
                ..*old(self)
            }),
    {
        self.banked = self.banked + skim;
        self.stack = self.stack - skim;
    }

    /// Starts a new run from the base after a wipe.
    fn wipe(&mut self, cfg: &Config, outcome: Outcome, proceeds: i64, now_s: i64)
        requires
            cfg.wf(),
            signed(now_s),
            old(self).run_id < u64::MAX,
            old(self).reset_ts@.len() < u32::MAX,
            forall|i: int| 0 <= i < old(self).reset_ts@.len() ==> signed(#[trigger] old(self).reset_ts@[i]),
        ensures
            final(self)@ == wiped(old(self)@, *cfg, outcome, proceeds as int, now_s),
            stake(final(self).stack),
            forall|i: int| 0 <= i < final(self).reset_ts@.len() ==> signed(#[trigger] final(self).reset_ts@[i]),
    {
        self.streak = 0;
        self.run_id = self.run_id + 1;
        self.stack = cfg.grind_base;
        self.reset_ts.push(now_s);
        self.retain_resets(now_s, cfg.reset_window_s);
        if cfg.max_resets > 0 && cfg.is_live() && self.reset_ts.len() >= cfg.max_resets as usize {
            self.halted = true;
        }
        if cfg.halt_on_wipe && (outcome == Outcome::Loss || proceeds < NANO) {
            self.halted = true;
        }
    }

    /// Brings the stack within its part of `wallet`.
    fn cap_stack(&mut self, cfg: &Config, wallet: i64)
        requires
            cfg.wf(),
            cfg.stack_cap_fraction > 0,
            0 <= wallet <= 2 * LIMIT,
            0 <= old(self).stack <= LIMIT,
            0 <= old(self).banked,
            old(self).banked + old(self).stack <= LIMIT,
        ensures
            final(self)@ == live_capped(old(self)@, *cfg, wallet as int),
            0 <= final(self).stack <= old(self).stack,
            old(self).banked <= final(self).banked,
            final(self).stack + final(self).banked == old(self).stack + old(self).banked,
            final(self).reset_ts == old(self).reset_ts,
    {
        proof {
            lemma_cap(cfg.stack_cap_fraction as int, wallet as int);
        }
        let cap: i128 = (cfg.stack_cap_fraction as i128) * (wallet as i128) / (NANO as i128);
        if self.stack as i128 > cap {
            let excess: i64 = (self.stack as i128 - cap) as i64;
            self.skim(excess);
        }
    }

    /// Closes the accounts of a window that cost `cost` and returned `proceeds`.
    pub fn settle(
        &mut self,
        cfg: &Config,
        outcome: Outcome,
        cost: i64,
        proceeds: i64,
        now_s: i64,
    )
        requires
            cfg.wf(),
            old(self).wf(),
            old(self).has_room(),
            stake(cost),
            0 <= proceeds <= LIMIT / 2,
            signed(now_s),
        ensures
            final(self)@ == settled(
                old(self)@,
                *cfg,
                outcome,
                cost as int,
                proceeds as int,
                now_s,
            ),
            final(self).wf(),
    {
        let pnl: i64 = proceeds - cost;
        self.windows_played = self.windows_played + 1;
        self.realized_pnl = self.realized_pnl + pnl;
        match outcome {
            Outcome::Win => {
                self.streak = self.streak + 1;
                if self.streak > self.best_streak {
                    self.best_streak = self.streak;
                }
                self.stack = proceeds;
            },
            Outcome::Secure => {
                self.stack = proceeds;
            },
            _ => {
                if outcome == Outcome::Panic && proceeds >= cfg.grind_base {
                    self.streak = 0;
                    self.stack = proceeds;
                } else {
                    self.wipe(cfg, outcome, proceeds, now_s);
                }
            },
        }
        self.best_stack = max_of(self.best_stack, self.stack);
        let ghost after = self@;
        assert(after == closed(
            old(self)@,
            *cfg,
            outcome,
            cost as int,
            proceeds as int,
            now_s,
        ));
        if cfg.stack_skim_gain > 0 && outcome == Outcome::Win && pnl > 0 {
            let gain = fraction_of(pnl, cfg.stack_skim_gain);
            self.skim(gain);
        }
        assert(self@ == skimmed(after, gain_skim(*cfg, outcome, pnl as int)));
        if cfg.stack_cap_fraction > 0 && !cfg.is_live() {
            let wallet: i64 = cfg.paper_wallet0 + self.realized_pnl;
            if wallet > 0 {
                self.cap_stack(cfg, wallet);
            }
        }
    }

    /// Brings the stack within its part of the real `wallet`.
    pub fn settle_live_cap(&mut self, cfg: &Config, wallet: i64)
        requires
            cfg.wf(),
            cfg.stack_cap_fraction > 0,
            0 <= wallet <= 2 * LIMIT,
            old(self).wf(),
        ensures
            final(self)@ == live_capped(old(self)@, *cfg, wallet as int),
            final(self).wf(),
            old(self).stack * NANO <= cfg.stack_cap_fraction * wallet ==> final(self).stack == old(
                self,
            ).stack,
            old(self).stack * NANO > cfg.stack_cap_fraction * wallet ==> final(self).stack * NANO
                <= cfg.stack_cap_fraction * wallet < (final(self).stack + 1) * NANO,
    {
        proof {
            lemma_cap(cfg.stack_cap_fraction as int, wallet as int);
        }
        self.cap_stack(cfg, wallet);
    }
}

/// Every window is counted once, and its profit is what it returned less what
/// it cost, whatever is taken off the table.
pub proof fn profit_is_booked(
    l: Ledger,
    cfg: Config,
    outcome: Outcome,
    cost: int,
    proceeds: int,
    now_s: i64,
)
    ensures
        ({
            let after = settled(l, cfg, outcome, cost, proceeds, now_s);
            &&& after.realized_pnl == l.realized_pnl + proceeds - cost
            &&& after.windows_played == l.windows_played + 1
        }),
{
}

/// What leaves the table goes to the reserve, to the last unit.
pub proof fn skims_lose_nothing(
    l: Ledger,
    cfg: Config,
    outcome: Outcome,
    cost: int,
    proceeds: int,
    now_s: i64,
    wallet: int,
)
    ensures
        ({
            let before = closed(l, cfg, outcome, cost, proceeds, now_s);
            let after = settled(l, cfg, outcome, cost, proceeds, now_s);
            &&& after.stack + after.banked == before.stack + before.banked
            &&& before.banked == l.banked
        }),
        live_capped(l, cfg, wallet).stack + live_capped(l, cfg, wallet).banked == l.stack + l.banked,
{
}

/// Money is neither made nor lost by the accounts: a close that is no wipe, of
/// a window on which the whole stack was staked, changes the stack and the
/// reserve together by the profit.
pub proof fn money_is_conserved(
    l: Ledger,
    cfg: Config,
    outcome: Outcome,
    cost: int,
    proceeds: int,
    now_s: i64,
)
    requires
        cost == l.stack,
        outcome == Outcome::Win || outcome == Outcome::Secure || (outcome == Outcome::Panic && proceeds
            >= cfg.grind_base),
    ensures
        ({
            let after = settled(l, cfg, outcome, cost, proceeds, now_s);
            after.stack + after.banked - after.realized_pnl == l.stack + l.banked - l.realized_pnl
        }),
{
}

/// Without a reserve and without a cap, a win stakes everything again: the
/// next stack is all that came back.
pub proof fn wins_compound(
    l: Ledger,
    cfg: Config,
    outcome: Outcome,
    cost: int,
    proceeds: int,
    now_s: i64,
)
    requires
        outcome == Outcome::Win || outcome == Outcome::Secure || (outcome == Outcome::Panic && proceeds
            >= cfg.grind_base),
        cfg.stack_skim_gain <= 0,
        cfg.stack_cap_fraction <= 0,
    ensures
        settled(l, cfg, outcome, cost, proceeds, now_s).stack == proceeds,
        settled(l, cfg, outcome, cost, proceeds, now_s).run_id == l.run_id,
        settled(l, cfg, outcome, cost, proceeds, now_s).halted == l.halted,
{
}

/// A new run begins exactly with a loss, whatever had not been spent, or with an
/// emergency sale that does not save the base. It begins with no streak.
pub proof fn a_wipe_begins_a_run(
    l: Ledger,
    cfg: Config,
    outcome: Outcome,
    cost: int,
    proceeds: int,
    now_s: i64,
)
    ensures
        ({
            let after = settled(l, cfg, outcome, cost, proceeds, now_s);
            let wipe = outcome == Outcome::Loss || (outcome == Outcome::Panic && proceeds
                < cfg.grind_base);
            &&& wipe ==> after.run_id == l.run_id + 1 && after.streak == 0
            &&& !wipe ==> after.run_id == l.run_id && after.reset_ts == l.reset_ts
        }),
{
}

/// A wipe goes back to the base, whatever the wallet holds; only the cap on the
/// stack can make the next stake smaller.
pub proof fn a_wipe_goes_back_to_the_base(
    l: Ledger,
    cfg: Config,
    outcome: Outcome,
    cost: int,
    proceeds: int,
    now_s: i64,
)
    requires
        outcome == Outcome::Loss || (outcome == Outcome::Panic && proceeds < cfg.grind_base),
    ensures
        closed(l, cfg, outcome, cost, proceeds, now_s).stack == cfg.grind_base,
        settled(l, cfg, outcome, cost, proceeds, now_s).stack <= cfg.grind_base,
        cfg.stack_cap_fraction <= 0 ==> settled(l, cfg, outcome, cost, proceeds, now_s).stack
            == cfg.grind_base,
{
}

/// Closing a window never lifts a halt.
pub proof fn a_halt_stays(
    l: Ledger,
    cfg: Config,
    outcome: Outcome,
    cost: int,
    proceeds: int,
    now_s: i64,
    wallet: int,
)
    requires
        l.halted,
    ensures
        settled(l, cfg, outcome, cost, proceeds, now_s).halted,
        live_capped(l, cfg, wallet).halted,
{
}

/// Counting resets stops live play only: a simulation that a wipe is not to
/// stop goes on.
pub proof fn simulation_goes_on(
    l: Ledger,
    cfg: Config,
    outcome: Outcome,
    cost: int,
    proceeds: int,
    now_s: i64,
)
    requires
        !l.halted,
        !cfg.live(),
        !cfg.halt_on_wipe,
    ensures
        !settled(l, cfg, outcome, cost, proceeds, now_s).halted,
{
}

/// Live play stops at the reset that makes them too many.
pub proof fn too_many_resets_halt(
    l: Ledger,
    cfg: Config,
    outcome: Outcome,
    cost: int,
    proceeds: int,
    now_s: i64,
)
    requires
        cfg.live(),
        cfg.max_resets > 0,
        outcome == Outcome::Loss || (outcome == Outcome::Panic && proceeds < cfg.grind_base),
        recent(l.reset_ts.push(now_s), now_s, cfg.reset_window_s).len() >= cfg.max_resets,
    ensures
        settled(l, cfg, outcome, cost, proceeds, now_s).halted,
{
}

/// The best streak and the best stack never fall, and the best stack is at
/// least the new stack.
pub proof fn records_stand(
    l: Ledger,
    cfg: Config,
    outcome: Outcome,
    cost: int,
    proceeds: int,
    now_s: i64,
)
    requires
        cfg.wf(),
        l.streak <= l.best_streak,
        0 <= l.best_streak,
    ensures
        ({
            let after = settled(l, cfg, outcome, cost, proceeds, now_s);
            &&& after.best_streak >= l.best_streak
            &&& after.best_stack >= l.best_stack
            &&& after.streak <= after.best_streak
            &&& after.stack <= after.best_stack
        }),
{
    if proceeds - cost > 0 && cfg.stack_skim_gain > 0 {
        lemma_skim_nonnegative(cfg.stack_skim_gain as int, proceeds - cost);
    }
}

proof fn lemma_skim_nonnegative(fraction: int, gain: int)
    requires
        0 <= fraction,
        0 <= gain,
    ensures
        0 <= product(fraction, gain),
{
    assert(0 <= fraction * gain) by (nonlinear_arith)
        requires
            0 <= fraction,
            0 <= gain,
    ;
    assert(0 <= (fraction * gain) / NANO as int) by (nonlinear_arith)
        requires
            0 <= fraction * gain,
    ;
}

/// With a cap, the stack stays within its part of the wallet.
pub proof fn the_cap_binds(
    l: Ledger,
    cfg: Config,
    outcome: Outcome,
    cost: int,
    proceeds: int,
    now_s: i64,
    wallet: int,
)
    requires
        cfg.stack_cap_fraction > 0,
    ensures
        ({
            let after = settled(l, cfg, outcome, cost, proceeds, now_s);
            let virtual_wallet = cfg.paper_wallet0 + after.realized_pnl;
            !cfg.live() && virtual_wallet > 0 ==> after.stack <= product(
                cfg.stack_cap_fraction as int,
                virtual_wallet,
            )
        }),
        live_capped(l, cfg, wallet).stack <= product(cfg.stack_cap_fraction as int, wallet),
{
}

/// The cap leaves a stack alone that is within it, and brings any other exactly to
/// it: what is staked next is the lesser of what would be staked without a cap
/// and the part of the wallet that may be. The rest goes to the reserve.
pub proof fn the_cap_is_the_lesser(
    l: Ledger,
    cfg: Config,
    outcome: Outcome,
    cost: int,
    proceeds: int,
    now_s: i64,
    cap: int,
)
    requires
        cfg.stack_cap_fraction > 0,
        !cfg.live(),
        cfg.paper_wallet0 + l.realized_pnl + proceeds - cost > 0,
        cap * 1_000_000_000 <= cfg.stack_cap_fraction * (cfg.paper_wallet0 + l.realized_pnl
            + proceeds - cost) < (cap + 1) * 1_000_000_000,
    ensures
        ({
            let free = settled(
                l,
                (Config { stack_cap_fraction: 0, ..cfg }),
                outcome,
                cost,
                proceeds,
                now_s,
            );
            let after = settled(l, cfg, outcome, cost, proceeds, now_s);
            &&& free.stack <= cap ==> after == free
            &&& free.stack > cap ==> after == (Ledger {
                stack: cap,
                banked: free.banked + (free.stack - cap),
                ..free
            })
        }),
{
    let wallet = cfg.paper_wallet0 + l.realized_pnl + proceeds - cost;
    lemma_cap_value(cfg.stack_cap_fraction as int, wallet, cap);
    assert((Config { stack_cap_fraction: 0, ..cfg }).live() == cfg.live());
}

proof fn lemma_cap_value(fraction: int, wallet: int, cap: int)
    requires
        fraction > 0,
        wallet >= 0,
        cap * 1_000_000_000 <= fraction * wallet < (cap + 1) * 1_000_000_000,
    ensures
        product(fraction, wallet) == cap,
{
    assert(fraction * wallet >= 0) by (nonlinear_arith)
        requires
            fraction > 0,
            wallet >= 0,
    ;
}

/// Without a cap, in live play, or with a wallet that is gone, settling caps
/// nothing.
pub proof fn no_cap_without_a_wallet(
    l: Ledger,
    cfg: Config,
    outcome: Outcome,
    cost: int,
    proceeds: int,
    now_s: i64,
)
    requires
        cfg.stack_cap_fraction <= 0 || cfg.live() || cfg.paper_wallet0 + l.realized_pnl + proceeds
            - cost <= 0,
    ensures
        settled(l, cfg, outcome, cost, proceeds, now_s) == settled(
            l,
            (Config { stack_cap_fraction: 0, ..cfg }),
            outcome,
            cost,
            proceeds,
            now_s,
        ),
{
    assert((Config { stack_cap_fraction: 0, ..cfg }).live() == cfg.live());
}

/// The cap by the real wallet leaves a stack alone that is within it, brings any
/// other exactly to it, and changes nothing else but the reserve.
pub proof fn the_live_cap_is_the_lesser(l: Ledger, cfg: Config, wallet: int, cap: int)
    requires
        cfg.stack_cap_fraction > 0,
        wallet >= 0,
        cap * 1_000_000_000 <= cfg.stack_cap_fraction * wallet < (cap + 1) * 1_000_000_000,
    ensures
        l.stack <= cap ==> live_capped(l, cfg, wallet) == l,
        l.stack > cap ==> live_capped(l, cfg, wallet) == (Ledger {
            stack: cap,
            banked: l.banked + (l.stack - cap),
            ..l
        }),
{
    lemma_cap_value(cfg.stack_cap_fraction as int, wallet, cap);
}

/// Of the gain of a win its part is put aside, rounded down, and what is left of
/// the proceeds is staked; of anything else nothing is put aside.
pub proof fn part_of_a_gain_is_put_aside(
    l: Ledger,
    cfg: Config,
    outcome: Outcome,
    cost: int,
    proceeds: int,
    now_s: i64,
)
    requires
        cfg.stack_cap_fraction <= 0,
    ensures
        ({
            let after = settled(l, cfg, outcome, cost, proceeds, now_s);
            let aside = after.banked - l.banked;
            &&& outcome == Outcome::Win ==> after.stack == proceeds - aside
            &&& outcome == Outcome::Win && proceeds > cost && cfg.stack_skim_gain > 0 ==> {
                &&& 0 <= aside
                &&& aside * 1_000_000_000 <= cfg.stack_skim_gain * (proceeds - cost) < (aside + 1)
                    * 1_000_000_000
            }
            &&& outcome != Outcome::Win || proceeds <= cost || cfg.stack_skim_gain <= 0 ==> aside == 0
        }),
{
    let f = cfg.stack_skim_gain as int;
    let g = proceeds - cost;
    if f > 0 && g > 0 {
        assert(f * g >= 0) by (nonlinear_arith)
            requires
                f > 0,
                g > 0,
        ;
    }
}

/// The streak: one longer with a win, as long as before when a position was
/// cashed in, and over otherwise. The best streak is the longest so far.
pub proof fn streaks_are_of_wins(
    l: Ledger,
    cfg: Config,
    outcome: Outcome,
    cost: int,
    proceeds: int,
    now_s: i64,
)
    ensures
        ({
            let after = settled(l, cfg, outcome, cost, proceeds, now_s);
            &&& outcome == Outcome::Win ==> after.streak == l.streak + 1
            &&& outcome == Outcome::Secure ==> after.streak == l.streak
            &&& outcome == Outcome::Panic || outcome == Outcome::Loss ==> after.streak == 0
            &&& outcome == Outcome::Win && l.streak >= l.best_streak ==> after.best_streak == l.streak
                + 1
            &&& outcome != Outcome::Win || l.streak < l.best_streak ==> after.best_streak
                == l.best_streak
        }),
{
}

/// The best stack is the highest that a close has left on the table, before
/// anything was taken off it.
pub proof fn the_best_stack_is_the_highest(
    l: Ledger,
    cfg: Config,
    outcome: Outcome,
    cost: int,
    proceeds: int,
    now_s: i64,
)
    ensures
        ({
            let after = settled(l, cfg, outcome, cost, proceeds, now_s);
            let wipe = outcome == Outcome::Loss || (outcome == Outcome::Panic && proceeds
                < cfg.grind_base);
            let left = if wipe {
                cfg.grind_base as int
            } else {
                proceeds
            };
            &&& left >= l.best_stack ==> after.best_stack == left
            &&& left <= l.best_stack ==> after.best_stack == l.best_stack
        }),
{
}

/// Settling counts no win, no loss and no sale: those are counted by what closed
/// the window.
pub proof fn settling_counts_no_outcome(
    l: Ledger,
    cfg: Config,
    outcome: Outcome,
    cost: int,
    proceeds: int,
    now_s: i64,
)
    ensures
        ({
            let after = settled(l, cfg, outcome, cost, proceeds, now_s);
            &&& after.wins == l.wins
            &&& after.losses == l.losses
            &&& after.panic_exits == l.panic_exits
        }),
{
}

/// A wipe remembers when it happened together with the earlier resets that are
/// still recent, each as often as before, and forgets the others.
pub proof fn recent_resets_are_remembered(
    l: Ledger,
    cfg: Config,
    outcome: Outcome,
    cost: int,
    proceeds: int,
    now_s: i64,
    t: i64,
)
    requires
        outcome == Outcome::Loss || (outcome == Outcome::Panic && proceeds < cfg.grind_base),
    ensures
        ({
            let after = settled(l, cfg, outcome, cost, proceeds, now_s);
            &&& now_s - t >= cfg.reset_window_s ==> after.reset_ts.to_multiset().count(t) == 0
            &&& now_s - t < cfg.reset_window_s ==> after.reset_ts.to_multiset().count(t)
                == l.reset_ts.to_multiset().count(t) + if t == now_s {
                1nat
            } else {
                0nat
            }
        }),
{
    broadcast use vstd::seq_lib::group_to_multiset_ensures;

    lemma_recent_counts(l.reset_ts.push(now_s), now_s, cfg.reset_window_s, t);
}

proof fn lemma_recent_counts(resets: Seq<i64>, now_s: i64, window_s: i64, t: i64)
    ensures
        recent(resets, now_s, window_s).to_multiset().count(t) == if now_s - t < window_s {
            resets.to_multiset().count(t)
        } else {
            0
        },
    decreases resets.len(),
{
    broadcast use vstd::seq_lib::group_to_multiset_ensures;

    reveal(Seq::filter);
    if resets.len() > 0 {
        let front = resets.drop_last();
        lemma_recent_counts(front, now_s, window_s, t);
        assert(front.push(resets.last()) =~= resets);
        assert(resets.to_multiset() == front.to_multiset().insert(resets.last()));
        if now_s - resets.last() < window_s {
            assert(recent(resets, now_s, window_s) =~= recent(front, now_s, window_s).push(
                resets.last(),
            ));
        } else {
            assert(recent(resets, now_s, window_s) =~= recent(front, now_s, window_s));
        }
    } else {
        assert(recent(resets, now_s, window_s) =~= Seq::<i64>::empty());
        assert(resets =~= Seq::<i64>::empty());
    }
}

/// Play stops exactly where it had stopped, where a wipe is the reset that makes
/// them too many in live play, or where a wipe is to stop it and the window was
/// lost or returned less than a dollar.
pub proof fn what_stops_play(
    l: Ledger,
    cfg: Config,
    outcome: Outcome,
    cost: int,
    proceeds: int,
    now_s: i64,
)
    ensures
        ({
            let after = settled(l, cfg, outcome, cost, proceeds, now_s);
            let wipe = outcome == Outcome::Loss || (outcome == Outcome::Panic && proceeds
                < cfg.grind_base);
            let too_many = cfg.mode@ == "live"@ && cfg.max_resets > 0 && after.reset_ts.len()
                >= cfg.max_resets;
            let gone = cfg.halt_on_wipe && (outcome == Outcome::Loss || proceeds < 1_000_000_000);
            after.halted <==> l.halted || wipe && (too_many || gone)
        }),
{
}

} // verus!
