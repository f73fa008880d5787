//! What the bot remembers: the state of the compounding, and a ledger with one
//! record for each window played.

use vstd::prelude::*;

use crate::fixed::{
    amount, is_amount, is_signed, is_stake, signed, stake, LIMIT, NANO, STAKE_LIMIT,
};
use crate::text::{
    before, before_is_irreflexive, before_is_lexicographic, before_is_total, before_is_transitive,
    comes_before, decimal, decimal_of, prefix, prefix_of, same,
};

verus! {

/// The state of the compounding.
#[derive(Debug)]
pub struct GrinderState {
    /// The cash of the current run, all of it staked on each window.
    pub stack: i64,
    /// Wins in a row.
    pub streak: u32,
    /// The number of the run: one more after each wipe.
    pub run_id: u64,
    pub best_streak: u32,
    pub best_stack: i64,
    pub windows_played: u64,
    pub wins: u64,
    pub losses: u64,
    pub panic_exits: u64,
    /// The profit of all windows of all runs.
    pub realized_pnl: i64,
    /// No entry while this is set.
    pub halted: bool,
    /// What was taken off the table in all.
    pub banked: i64,
    /// When runs were reset, in seconds since the epoch.
    pub reset_ts: Vec<i64>,
}

/// The state as mathematical integers.
#[verifier::ext_equal]
pub struct Ledger {
    pub stack: int,
    pub streak: int,
    pub run_id: int,
    pub best_streak: int,
    pub best_stack: int,
    pub windows_played: int,
    pub wins: int,
    pub losses: int,
    pub panic_exits: int,
    pub realized_pnl: int,
    pub halted: bool,
    pub banked: int,
    pub reset_ts: Seq<i64>,
}

impl View for GrinderState {
    type V = Ledger;

    open spec fn view(&self) -> Ledger {
        Ledger {
            stack: self.stack as int,
            streak: self.streak as int,
            run_id: self.run_id as int,
            best_streak: self.best_streak as int,
            best_stack: self.best_stack as int,
            windows_played: self.windows_played as int,
            wins: self.wins as int,
            losses: self.losses as int,
            panic_exits: self.panic_exits as int,
            realized_pnl: self.realized_pnl as int,
            halted: self.halted,
            banked: self.banked as int,
            reset_ts: self.reset_ts@,
        }
    }
}

/// The state of a bot that has played nothing.
pub open spec fn fresh_ledger(base: int) -> Ledger {
    Ledger {
        stack: base,
        streak: 0,
        run_id: 1,
        best_streak: 0,
        best_stack: base,
        windows_played: 0,
        wins: 0,
        losses: 0,
        panic_exits: 0,
        realized_pnl: 0,
        halted: false,
        banked: 0,
        reset_ts: Seq::empty(),
    }
}

impl GrinderState {
    /// The amounts are in range.
    pub open spec fn wf(self) -> bool {
        &&& amount(self.stack)
        &&& amount(self.best_stack)
        &&& signed(self.realized_pnl)
        &&& amount(self.banked)
        &&& self.stack + self.banked <= LIMIT
        &&& forall|i: int| 0 <= i < self.reset_ts@.len() ==> signed(#[trigger] self.reset_ts@[i])
    }

    /// One more window can be played and counted without going out of range.
    pub open spec fn has_room(self) -> bool {
        &&& stake(self.stack)
        &&& -LIMIT / 2 <= self.realized_pnl <= LIMIT / 2
        &&& self.banked <= LIMIT / 2
        &&& self.streak < u32::MAX
        &&& self.run_id < u64::MAX
        &&& self.windows_played < u64::MAX
        &&& self.wins < u64::MAX
        &&& self.losses < u64::MAX
        &&& self.panic_exits < u64::MAX
        &&& self.reset_ts@.len() < u32::MAX
    }

    /// A bot that has played nothing.
    pub fn fresh(base: i64) -> (r: Self)
        ensures
            r@ == fresh_ledger(base as int),
            amount(base) ==> r.wf(),
            stake(base) ==> r.has_room(),
    {
        GrinderState {
            stack: base,
            streak: 0,
            run_id: 1,
            best_streak: 0,
            best_stack: base,
            windows_played: 0,
            wins: 0,
            losses: 0,
            panic_exits: 0,
            realized_pnl: 0,
            halted: false,
            banked: 0,
            reset_ts: Vec::new(),
        }
    }

    /// Checks [`GrinderState::wf`].
    pub fn is_valid(&self) -> (r: bool)
        ensures
            r == self.wf(),
    {
        if !is_amount(self.stack) || !is_amount(self.best_stack) || !is_signed(self.realized_pnl)
            || !is_amount(self.banked) || self.stack + self.banked > LIMIT {
            return false;
        }
        let mut i: usize = 0;
        while i < self.reset_ts.len()
            invariant
                i <= self.reset_ts.len(),
                forall|j: int| 0 <= j < i ==> signed(#[trigger] self.reset_ts@[j]),
            decreases self.reset_ts.len() - i,
        {
            if !is_signed(self.reset_ts[i]) {
                assert(!signed(self.reset_ts@[i as int]));
                return false;
            }
            i = i + 1;
        }
        true
    }

    /// Checks [`GrinderState::has_room`].
    pub fn can_play(&self) -> (r: bool)
        ensures
            r == self.has_room(),
    {
        is_stake(self.stack) && -(LIMIT / 2) <= self.realized_pnl && self.realized_pnl <= LIMIT / 2
            && self.banked <= LIMIT / 2 && self.streak < u32::MAX && self.run_id < u64::MAX
            && self.windows_played < u64::MAX && self.wins < u64::MAX && self.losses < u64::MAX
            && self.panic_exits < u64::MAX && self.reset_ts.len() < u32::MAX as usize
    }
}

/// What reading the state file gave.
#[derive(Debug)]
pub enum Stored {
    /// There is no file, or it cannot be read.
    Missing,
    /// There is a file, but it does not hold a state.
    Corrupt,
    /// The state that the file holds.
    State(GrinderState),
}

/// The state to start from: the stored one, or a fresh one.
pub fn load(stored: Stored, base: i64) -> (r: GrinderState)
    ensures
        match stored {
            Stored::State(st) => r == st,
            _ => r@ == fresh_ledger(base as int),
        },
{
    match stored {
        Stored::State(st) => st,
        _ => GrinderState::fresh(base),
    }
}

/// Where a state file that cannot be understood is copied to, before it is
/// replaced.
pub fn corrupt_path(path: &str, now_s: i64) -> (r: String)
    ensures
        r@ == path@ + ".corrupt-"@ + decimal(now_s as int),
{
    path.to_owned().concat(".corrupt-").concat(decimal_of(now_s).as_str())
}

/// Where the state is written before it takes the place of the old one.
pub fn tmp_path(path: &str) -> (r: String)
    ensures
        r@ == path@ + ".tmp"@,
{
    path.to_owned().concat(".tmp")
}

/// A window that was played.
#[derive(Debug)]
pub struct WindowRecord {
    /// When the record was closed, in the form of RFC 3339.
    pub ts: String,
    /// When the window began, in seconds since the epoch.
    pub window_ts: i64,
    pub slug: String,
    /// `up` or `down`.
    pub side: String,
    pub entry_price: i64,
    pub shares: i64,
    /// The stack that was staked.
    pub cost: i64,
    /// The fees of the entry and of the exit.
    pub fees: i64,
    /// `win`, `loss`, `panic` or `secure`.
    pub outcome: String,
    /// Why the position was closed.
    pub reason: String,
    /// The dollars that came back, with what had not been spent.
    pub proceeds: i64,
    pub pnl: i64,
    pub stack_after: i64,
    pub streak_after: u32,
    pub run_id: u64,
    pub strike: i64,
    pub spot_at_exit: i64,
    pub z_at_entry: i64,
    pub z_at_exit: i64,
    pub drift_at_exit: i64,
    pub spot_at_entry: i64,
    /// The distance of the spot from the strike at entry.
    pub dist_at_entry: i64,
    pub sigma_at_entry: i64,
    pub remaining_s_at_entry: i64,
}

impl WindowRecord {
    /// The amounts that are added up are in range.
    pub open spec fn wf(self) -> bool {
        &&& 0 <= self.entry_price <= NANO
        &&& stake(self.shares)
        &&& amount(self.cost)
        &&& amount(self.fees)
        &&& signed(self.pnl)
    }

    /// Checks [`WindowRecord::wf`].
    pub fn is_valid(&self) -> (r: bool)
        ensures
            r == self.wf(),
    {
        0 <= self.entry_price && self.entry_price <= NANO && is_stake(self.shares) && is_amount(
            self.cost,
        ) && is_amount(self.fees) && is_signed(self.pnl)
    }
}

impl Clone for WindowRecord {
    fn clone(&self) -> (r: Self)
        ensures
            r == *self,
    {
        WindowRecord {
            ts: self.ts.clone(),
            window_ts: self.window_ts,
            slug: self.slug.clone(),
            side: self.side.clone(),
            entry_price: self.entry_price,
            shares: self.shares,
            cost: self.cost,
            fees: self.fees,
            outcome: self.outcome.clone(),
            reason: self.reason.clone(),
            proceeds: self.proceeds,
            pnl: self.pnl,
            stack_after: self.stack_after,
            streak_after: self.streak_after,
            run_id: self.run_id,
            strike: self.strike,
            spot_at_exit: self.spot_at_exit,
            z_at_entry: self.z_at_entry,
            z_at_exit: self.z_at_exit,
            drift_at_exit: self.drift_at_exit,
            spot_at_entry: self.spot_at_entry,
            dist_at_entry: self.dist_at_entry,
            sigma_at_entry: self.sigma_at_entry,
            remaining_s_at_entry: self.remaining_s_at_entry,
        }
    }
}

/// The last `n` items of a sequence.
pub open spec fn last_of<T>(s: Seq<T>, n: int) -> Seq<T> {
    if s.len() > n {
        s.skip(s.len() - n)
    } else {
        s
    }
}

/// The last `n` windows of the ledger.
pub fn tail_windows(records: Vec<WindowRecord>, n: usize) -> (r: Vec<WindowRecord>)
    ensures
        r@ == last_of(records@, n as int),
{
    let mut v = records;
    if v.len() > n {
        let at: usize = v.len() - n;
        let tail = v.split_off(at);
        assert(tail@ =~= records@.skip(at as int));
        tail
    } else {
        v
    }
}

/// The figures of one day.
#[derive(Debug)]
pub struct DailyStat {
    /// Year, month and day.
    pub date: String,
    pub windows: u32,
    pub wins: u32,
    pub panics: u32,
    pub secures: u32,
    /// The dollars staked.
    pub volume: i128,
    pub pnl: i128,
    /// The fees, estimated where none were recorded.
    pub fees: i128,
    /// The volume that counts towards rebates.
    pub wv: i128,
}

/// The figures of one day, as mathematical integers.
pub struct Day {
    pub windows: int,
    pub wins: int,
    pub panics: int,
    pub secures: int,
    pub volume: int,
    pub pnl: int,
    pub fees: int,
    pub wv: int,
}

/// The day of a record: the date that its timestamp begins with.
pub open spec fn date_of(r: WindowRecord) -> Seq<char> {
    prefix(r.ts@, 10)
}

/// The taker fee on `shares` bought at `price`, to be expected where none was
/// recorded.
pub open spec fn expected_fee(rate: int, price: int, shares: int) -> int {
    ((rate * price * (NANO - price)) / NANO as int * shares) / 1_000_000_000_000_000_000
}

/// The fees of a record.
pub open spec fn record_fees(r: WindowRecord, rate: int) -> int {
    if r.fees > 0 {
        r.fees as int
    } else {
        expected_fee(rate, r.entry_price as int, r.shares as int)
    }
}

/// The rebate volume of a record: the cost, times what the price lacks to one,
/// times 2.3.
pub open spec fn rebate_volume(r: WindowRecord) -> int {
    (r.cost * (NANO - r.entry_price) * 23) / 10_000_000_000
}

/// One if `b` holds, else zero.
pub open spec fn one_if(b: bool) -> int {
    if b {
        1
    } else {
        0
    }
}

pub open spec fn empty_day() -> Day {
    Day { windows: 0, wins: 0, panics: 0, secures: 0, volume: 0, pnl: 0, fees: 0, wv: 0 }
}

/// The figures of a day with one more record.
pub open spec fn with_record(d: Day, r: WindowRecord, rate: int) -> Day {
    Day {
        windows: d.windows + 1,
        wins: d.wins + one_if(r.outcome@ == "win"@),
        panics: d.panics + one_if(r.outcome@ == "panic"@),
        secures: d.secures + one_if(r.outcome@ == "secure"@),
        volume: d.volume + r.cost,
        pnl: d.pnl + r.pnl,
        fees: d.fees + record_fees(r, rate),
        wv: d.wv + rebate_volume(r),
    }
}

/// The figures of the day `date` in the ledger.
pub open spec fn day_of(records: Seq<WindowRecord>, date: Seq<char>, rate: int) -> Day
    decreases records.len(),
{
    if records.len() == 0 {
        empty_day()
    } else if date_of(records.last()) == date {
        with_record(day_of(records.drop_last(), date, rate), records.last(), rate)
    } else {
        day_of(records.drop_last(), date, rate)
    }
}

impl DailyStat {
    /// The figures are those of `d`.
    pub open spec fn shows(self, d: Day) -> bool {
        &&& self.windows == d.windows
        &&& self.wins == d.wins
        &&& self.panics == d.panics
        &&& self.secures == d.secures
        &&& self.volume == d.volume
        &&& self.pnl == d.pnl
        &&& self.fees == d.fees
        &&& self.wv == d.wv
    }
}

/// Some record is of the day `date`.
pub open spec fn played_on(records: Seq<WindowRecord>, date: Seq<char>) -> bool {
    exists|i: int| 0 <= i < records.len() && date_of(#[trigger] records[i]) == date
}

/// Dates go back along `stats`, and none comes twice.
pub open spec fn latest_first(stats: Seq<DailyStat>) -> bool {
    forall|i: int, j: int|
        0 <= i < j < stats.len() ==> before(
            (#[trigger] stats[j]).date@,
            (#[trigger] stats[i]).date@,
        )
}

/// `stats` are the figures of days that were played, each complete.
pub open spec fn complete_days(
    stats: Seq<DailyStat>,
    records: Seq<WindowRecord>,
    rate: int,
) -> bool {
    forall|i: int|
        0 <= i < stats.len() ==> {
            &&& played_on(records, (#[trigger] stats[i]).date@)
            &&& stats[i].shows(day_of(records, stats[i].date@, rate))
        }
}

/// The day `date` is among `stats`.
pub open spec fn has_day(stats: Seq<DailyStat>, date: Seq<char>) -> bool {
    exists|i: int| 0 <= i < stats.len() && (#[trigger] stats[i]).date@ == date
}

/// The bounds within which the figures of `n` records stay.
pub open spec fn day_in_range(d: Day, n: int) -> bool {
    &&& 0 <= d.windows <= n
    &&& 0 <= d.wins <= n
    &&& 0 <= d.panics <= n
    &&& 0 <= d.secures <= n
    &&& 0 <= d.volume <= n * LIMIT
    &&& -n * LIMIT <= d.pnl <= n * LIMIT
    &&& 0 <= d.fees <= n * LIMIT
    &&& 0 <= d.wv <= n * (3 * LIMIT)
}

proof fn lemma_record_terms(r: WindowRecord, rate: int)
    requires
        r.wf(),
        0 <= rate <= NANO,
    ensures
        0 <= record_fees(r, rate) <= LIMIT,
        0 <= rebate_volume(r) <= 3 * LIMIT,
        0 <= rate * r.entry_price <= NANO * NANO,
        0 <= rate * r.entry_price * (NANO - r.entry_price) <= NANO * NANO * NANO,
        0 <= (rate * r.entry_price * (NANO - r.entry_price)) / (NANO as int) * r.shares <= NANO * NANO * STAKE_LIMIT,
        0 <= r.cost * (NANO - r.entry_price) <= LIMIT * NANO,
{
    let price = r.entry_price as int;
    let rest = NANO - price;
    let shares = r.shares as int;
    assert(0 <= rate * price <= NANO * NANO) by (nonlinear_arith)
        requires
            0 <= rate <= NANO,
            0 <= price <= NANO,
    ;
    assert(0 <= rate * price * rest <= NANO * NANO * NANO) by (nonlinear_arith)
        requires
            0 <= rate * price <= NANO * NANO,
            0 <= rest <= NANO,
    ;
    let unit = (rate * price * rest) / (NANO as int);
    assert(0 <= unit <= NANO * NANO);
    assert(0 <= unit * shares <= NANO * NANO * STAKE_LIMIT) by (nonlinear_arith)
        requires
            0 <= unit <= NANO * NANO,
            0 <= shares <= STAKE_LIMIT,
    ;
    assert(0 <= r.cost * rest <= LIMIT * NANO) by (nonlinear_arith)
        requires
            0 <= r.cost <= LIMIT,
            0 <= rest <= NANO,
    ;
}

proof fn lemma_day_in_range(records: Seq<WindowRecord>, date: Seq<char>, rate: int)
    requires
        forall|i: int| 0 <= i < records.len() ==> (#[trigger] records[i]).wf(),
        0 <= rate <= NANO,
    ensures
        day_in_range(day_of(records, date, rate), records.len() as int),
        !played_on(records, date) ==> day_of(records, date, rate) == empty_day(),
    decreases records.len(),
{
    if records.len() > 0 {
        let front = records.drop_last();
        assert forall|i: int| 0 <= i < front.len() implies (#[trigger] front[i]).wf() by {
            assert(records[i].wf());
        }
        assert(records[records.len() - 1].wf());
        lemma_record_terms(records.last(), rate);
        lemma_day_in_range(front, date, rate);
        if !played_on(records, date) {
            assert(date_of(records[records.len() - 1]) != date);
            assert forall|i: int| 0 <= i < front.len() implies date_of(#[trigger] front[i]) != date by {
                assert(date_of(records[i]) != date);
            }
        }
    }
}

/// Adds a record to the figures of its day.
fn add_record(e: DailyStat, r: &WindowRecord, fee_rate: i64) -> (out: DailyStat)
    requires
        r.wf(),
        0 <= fee_rate <= NANO,
        e.windows < u32::MAX,
        e.wins < u32::MAX,
        e.panics < u32::MAX,
        e.secures < u32::MAX,
        0 <= e.volume <= u32::MAX * LIMIT,
        -u32::MAX * LIMIT <= e.pnl <= u32::MAX * LIMIT,
        0 <= e.fees <= u32::MAX * LIMIT,
        0 <= e.wv <= u32::MAX * (3 * LIMIT),
    ensures
        out.date == e.date,
        out.windows == e.windows + 1,
        out.volume == e.volume + r.cost,
        out.pnl == e.pnl + r.pnl,
        r.fees > 0 ==> out.fees == e.fees + r.fees,
        forall|d: Day| e.shows(d) ==> out.shows(#[trigger] with_record(d, *r, fee_rate as int)),
{
    proof {
        lemma_record_terms(*r, fee_rate as int);
    }
    let rest: i128 = (NANO - r.entry_price) as i128;
    let fees: i128 = if r.fees > 0 {
        r.fees as i128
    } else {
        let unit: i128 = (fee_rate as i128) * (r.entry_price as i128) * rest / (NANO as i128);
        unit * (r.shares as i128) / 1_000_000_000_000_000_000
    };
    let wv: i128 = (r.cost as i128) * rest * 23 / 10_000_000_000;
    let won = same(r.outcome.as_str(), "win");
    let panicked = same(r.outcome.as_str(), "panic");
    let secured = same(r.outcome.as_str(), "secure");
    DailyStat {
        date: e.date,
        windows: e.windows + 1,
        wins: if won {
            e.wins + 1
        } else {
            e.wins
        },
        panics: if panicked {
            e.panics + 1
        } else {
            e.panics
        },
        secures: if secured {
            e.secures + 1
        } else {
            e.secures
        },
        volume: e.volume + r.cost as i128,
        pnl: e.pnl + r.pnl as i128,
        fees: e.fees + fees,
        wv: e.wv + wv,
    }
}

/// The days without the last record, and the day that it changes.
proof fn lemma_one_more_record(records: Seq<WindowRecord>, n: int, rate: int)
    requires
        0 <= n < records.len(),
    ensures
        forall|d: Seq<char>|
            d != date_of(records[n]) ==> #[trigger] day_of(records.take(n + 1), d, rate) == day_of(
                records.take(n),
                d,
                rate,
            ),
        day_of(records.take(n + 1), date_of(records[n]), rate) == with_record(
            day_of(records.take(n), date_of(records[n]), rate),
            records[n],
            rate,
        ),
        forall|d: Seq<char>| played_on(records.take(n), d) ==> #[trigger] played_on(
            records.take(n + 1),
            d,
        ),
        played_on(records.take(n + 1), date_of(records[n])),
        forall|d: Seq<char>|
            d != date_of(records[n]) && #[trigger] played_on(records.take(n + 1), d) ==> played_on(
                records.take(n),
                d,
            ),
{
    assert(records.take(n + 1).drop_last() =~= records.take(n));
    assert(records.take(n + 1).last() == records[n]);
    assert(records.take(n + 1)[n] == records[n]);
    assert forall|d: Seq<char>| played_on(records.take(n), d) implies #[trigger] played_on(
        records.take(n + 1),
        d,
    ) by {
        let i = choose|i: int|
            0 <= i < records.take(n).len() && date_of(#[trigger] records.take(n)[i]) == d;
        assert(records.take(n + 1)[i] == records.take(n)[i]);
    }
    assert forall|d: Seq<char>|
        d != date_of(records[n]) && #[trigger] played_on(records.take(n + 1), d) implies played_on(
        records.take(n),
        d,
    ) by {
        let i = choose|i: int|
            0 <= i < records.take(n + 1).len() && date_of(#[trigger] records.take(n + 1)[i]) == d;
        assert(records.take(n)[i] == records.take(n + 1)[i]);
    }
}

/// The figures of the last `n_days` days that were played, latest first.
pub fn daily_stats(records: &Vec<WindowRecord>, n_days: usize, fee_rate: i64) -> (r: Vec<DailyStat>)
    requires
        forall|i: int| 0 <= i < records@.len() ==> (#[trigger] records@[i]).wf(),
        records@.len() <= u32::MAX,
        0 <= fee_rate <= NANO,
    ensures
        r@.len() <= n_days,
        latest_first(r@),
        complete_days(r@, records@, fee_rate as int),
        forall|d: Seq<char>| #[trigger]
            played_on(records@, d) ==> {
                ||| has_day(r@, d)
                ||| r@.len() == n_days && forall|i: int|
                    0 <= i < r@.len() ==> before(d, (#[trigger] r@[i]).date@)
            },
{
    let mut stats: Vec<DailyStat> = Vec::new();
    let mut i: usize = 0;
    while i < records.len()
        invariant
            i <= records.len() <= u32::MAX,
            0 <= fee_rate <= NANO,
            forall|j: int| 0 <= j < records@.len() ==> (#[trigger] records@[j]).wf(),
            latest_first(stats@),
            complete_days(stats@, records@.take(i as int), fee_rate as int),
            forall|d: Seq<char>| #[trigger]
                played_on(records@.take(i as int), d) ==> has_day(stats@, d),
        decreases records.len() - i,
    {
        let rec = &records[i];
        let date = prefix_of(rec.ts.as_str(), 10);
        let ghost day = date@;
        let ghost earlier = records@.take(i as int);
        let ghost now = records@.take(i + 1);
        let ghost rate = fee_rate as int;
        let ghost old_stats = stats@;
        proof {
            lemma_one_more_record(records@, i as int, rate);
            assert(records@[i as int].wf());
            assert forall|j: int| 0 <= j < earlier.len() implies (#[trigger] earlier[j]).wf() by {
                assert(records@[j].wf());
            }
            lemma_day_in_range(earlier, day, rate);
        }
        let mut k: usize = 0;
        while k < stats.len() && comes_before(date.as_str(), stats[k].date.as_str())
            invariant
                k <= stats.len(),
                stats@ == old_stats,
                date@ == day,
                forall|j: int| 0 <= j < k ==> before(day, (#[trigger] old_stats[j]).date@),
            decreases stats.len() - k,
        {
            k = k + 1;
        }
        let found = k < stats.len() && same(date.as_str(), stats[k].date.as_str());
        proof {
            assert forall|j: int| k <= j < old_stats.len() && !(found && j == k) implies before(
                (#[trigger] old_stats[j]).date@,
                day,
            ) by {
                before_is_total(day, old_stats[k as int].date@);
                if j > k {
                    assert(before(old_stats[j].date@, old_stats[k as int].date@));
                    if !found {
                        before_is_transitive(
                            old_stats[j].date@,
                            old_stats[k as int].date@,
                            day,
                        );
                    }
                }
            }
            assert forall|j: int| 0 <= j < old_stats.len() && !(found && j == k) implies (
            #[trigger] old_stats[j]).date@ != day by {
                before_is_irreflexive(day);
            }
        }
        let entry = if found {
            stats.remove(k)
        } else {
            DailyStat {
                date,
                windows: 0,
                wins: 0,
                panics: 0,
                secures: 0,
                volume: 0,
                pnl: 0,
                fees: 0,
                wv: 0,
            }
        };
        proof {
            if found {
                assert(entry == old_stats[k as int]);
                assert(entry.shows(day_of(earlier, day, rate)));
            } else {
                if played_on(earlier, day) {
                    assert(has_day(old_stats, day));
                }
                assert(entry.shows(empty_day()));
            }
            assert(entry.shows(day_of(earlier, day, rate)));
            assert(entry.date@ == day);
            let n = earlier.len() as int;
            assert(n * LIMIT <= u32::MAX * LIMIT && n * (3 * LIMIT) <= u32::MAX * (3 * LIMIT) && -n
                * LIMIT >= -u32::MAX * LIMIT) by (nonlinear_arith)
                requires
                    0 <= n <= u32::MAX,
                    LIMIT == 1_000_000_000_000_000_000,
            ;
        }
        let updated = add_record(entry, rec, fee_rate);
        stats.insert(k, updated);
        proof {
            assert(stats@[k as int] == updated);
            assert(updated.shows(day_of(now, day, rate)));
            assert forall|j: int| 0 <= j < stats@.len() && j != k implies ({
                let b = if found || j < k {
                    j
                } else {
                    j - 1
                };
                0 <= b < old_stats.len() && (#[trigger] stats@[j]) == old_stats[b]
            }) by {
            }
            assert forall|a: int, b: int| 0 <= a < b < stats@.len() implies before(
                (#[trigger] stats@[b]).date@,
                (#[trigger] stats@[a]).date@,
            ) by {
                let oa = if found || a < k {
                    a
                } else {
                    a - 1
                };
                let ob = if found || b < k {
                    b
                } else {
                    b - 1
                };
                if a != k {
                    assert(stats@[a] == old_stats[oa]);
                }
                if b != k {
                    assert(stats@[b] == old_stats[ob]);
                }
                if a != k && b != k {
                    assert(before(old_stats[ob].date@, old_stats[oa].date@));
                }
            }
            assert forall|j: int| 0 <= j < stats@.len() implies {
                &&& played_on(now, (#[trigger] stats@[j]).date@)
                &&& stats@[j].shows(day_of(now, stats@[j].date@, rate))
            } by {
                if j != k {
                    let b = if found || j < k {
                        j
                    } else {
                        j - 1
                    };
                    assert(stats@[j] == old_stats[b]);
                    assert(played_on(earlier, old_stats[b].date@));
                    assert(old_stats[b].date@ != day);
                }
            }
            assert forall|d: Seq<char>| #[trigger] played_on(now, d) implies has_day(stats@, d) by {
                if d == day {
                    assert(stats@[k as int].date@ == day);
                } else {
                    assert(played_on(earlier, d));
                    let b = choose|b: int|
                        0 <= b < old_stats.len() && (#[trigger] old_stats[b]).date@ == d;
                    let j = if found || b < k {
                        b
                    } else {
                        b + 1
                    };
                    assert(stats@[j] == old_stats[b]);
                }
            }
        }
        i = i + 1;
    }
    let ghost all = stats@;
    proof {
        assert(records@.take(records.len() as int) =~= records@);
    }
    stats.truncate(n_days);
    proof {
        assert forall|j: int| 0 <= j < stats@.len() implies #[trigger] stats@[j] == all[j] by {
        }
        assert forall|d: Seq<char>| #[trigger] played_on(records@, d) implies {
            ||| has_day(stats@, d)
            ||| stats@.len() == n_days && forall|i: int|
                0 <= i < stats@.len() ==> before(d, (#[trigger] stats@[i]).date@)
        } by {
            assert(has_day(all, d));
            let b = choose|b: int| 0 <= b < all.len() && (#[trigger] all[b]).date@ == d;
            if b < stats@.len() {
                assert(stats@[b] == all[b]);
            } else {
                assert forall|i: int| 0 <= i < stats@.len() implies before(
                    d,
                    (#[trigger] stats@[i]).date@,
                ) by {
                    assert(before(all[b].date@, all[i].date@));
                }
            }
        }
    }
    stats
}

/// One more record of a day changes its figures by its own, whatever their sign:
/// the profit by its profit, the volume by its cost, the fees by its fees where
/// there are any, and the counts by one each. It changes no other day.
pub proof fn one_more_record_adds_its_own(
    records: Seq<WindowRecord>,
    r: WindowRecord,
    date: Seq<char>,
    rate: int,
)
    ensures
        ({
            let before = day_of(records, date, rate);
            let after = day_of(records.push(r), date, rate);
            let same_day = date == date_of(r);
            &&& !same_day ==> after == before
            &&& same_day ==> {
                &&& after.pnl - before.pnl == r.pnl
                &&& after.volume - before.volume == r.cost
                &&& after.windows - before.windows == 1
                &&& r.outcome@ == "win"@ ==> after.wins - before.wins == 1
                &&& r.outcome@ != "win"@ ==> after.wins == before.wins
                &&& r.outcome@ == "panic"@ ==> after.panics - before.panics == 1
                &&& r.outcome@ != "panic"@ ==> after.panics == before.panics
                &&& r.outcome@ == "secure"@ ==> after.secures - before.secures == 1
                &&& r.outcome@ != "secure"@ ==> after.secures == before.secures
                &&& r.fees > 0 ==> after.fees - before.fees == r.fees
            }
        }),
        day_of(Seq::empty(), date, rate) == (Day {
            windows: 0,
            wins: 0,
            panics: 0,
            secures: 0,
            volume: 0,
            pnl: 0,
            fees: 0,
            wv: 0,
        }),
{
    assert(records.push(r).drop_last() =~= records);
}

/// Where no fee was recorded, the fee that the rate lets expect is added: the rate
/// times the price times its complement times the shares, to within what
/// rounding loses.
pub proof fn unrecorded_fees_are_expected(
    records: Seq<WindowRecord>,
    r: WindowRecord,
    rate: int,
)
    requires
        r.wf(),
        0 <= rate <= NANO,
        r.fees <= 0,
    ensures
        ({
            let fee = day_of(records.push(r), date_of(r), rate).fees - day_of(
                records,
                date_of(r),
                rate,
            ).fees;
            let exact = (rate * r.entry_price * (NANO - r.entry_price)) * r.shares;
            &&& 0 <= fee
            &&& fee * 1_000_000_000_000_000_000_000_000_000 <= exact
            &&& exact < (fee + 1) * 1_000_000_000_000_000_000_000_000_000 + 1_000_000_000 * (r.shares
                + 1)
        }),
{
    assert(records.push(r).drop_last() =~= records);
    lemma_record_terms(r, rate);
    let num = rate * r.entry_price * (NANO - r.entry_price);
    let unit = num / (NANO as int);
    let shares = r.shares as int;
    let fee = (unit * shares) / 1_000_000_000_000_000_000;
    assert(unit * 1_000_000_000 <= num < unit * 1_000_000_000 + 1_000_000_000);
    assert((unit * 1_000_000_000) * shares <= num * shares) by (nonlinear_arith)
        requires
            unit * 1_000_000_000 <= num,
            0 <= shares,
    ;
    assert(num * shares <= (unit * 1_000_000_000 + 1_000_000_000) * shares) by (nonlinear_arith)
        requires
            num < unit * 1_000_000_000 + 1_000_000_000,
            0 <= shares,
    ;
    assert((unit * 1_000_000_000) * shares == 1_000_000_000 * (unit * shares)) by (nonlinear_arith);
    assert((unit * 1_000_000_000 + 1_000_000_000) * shares == 1_000_000_000 * (unit * shares)
        + 1_000_000_000 * shares) by (nonlinear_arith);
    assert(0 <= unit * shares);
    assert(fee * 1_000_000_000_000_000_000 <= unit * shares < (fee + 1) * 1_000_000_000_000_000_000);
}

/// A record adds its cost, times what its price lacks to one, times 2.3, to the
/// rebate volume of its day, rounded down.
pub proof fn rebates_go_by_the_price(records: Seq<WindowRecord>, r: WindowRecord, rate: int)
    requires
        r.wf(),
    ensures
        ({
            let more = day_of(records.push(r), date_of(r), rate).wv - day_of(
                records,
                date_of(r),
                rate,
            ).wv;
            let exact = r.cost * (1_000_000_000 - r.entry_price) * 23;
            more * 10_000_000_000 <= exact < (more + 1) * 10_000_000_000
        }),
{
    assert(records.push(r).drop_last() =~= records);
}

/// The day of a record is written in the first ten characters of its timestamp.
pub proof fn a_day_is_ten_characters(r: WindowRecord)
    ensures
        r.ts@.len() >= 10 ==> date_of(r).len() == 10,
        r.ts@.len() < 10 ==> date_of(r) == r.ts@,
        forall|i: int| 0 <= i < date_of(r).len() ==> #[trigger] date_of(r)[i] == r.ts@[i],
{
}

/// The profit of all records.
pub open spec fn profits(records: Seq<WindowRecord>) -> int
    decreases records.len(),
{
    if records.len() == 0 {
        0
    } else {
        profits(records.drop_last()) + records.last().pnl
    }
}

/// The costs of all records.
pub open spec fn costs(records: Seq<WindowRecord>) -> int
    decreases records.len(),
{
    if records.len() == 0 {
        0
    } else {
        costs(records.drop_last()) + records.last().cost
    }
}

/// The profits, the volumes and the windows of some days.
pub open spec fn days_profit(stats: Seq<DailyStat>) -> int
    decreases stats.len(),
{
    if stats.len() == 0 {
        0
    } else {
        days_profit(stats.drop_last()) + stats.last().pnl
    }
}

pub open spec fn days_volume(stats: Seq<DailyStat>) -> int
    decreases stats.len(),
{
    if stats.len() == 0 {
        0
    } else {
        days_volume(stats.drop_last()) + stats.last().volume
    }
}

pub open spec fn days_windows(stats: Seq<DailyStat>) -> int
    decreases stats.len(),
{
    if stats.len() == 0 {
        0
    } else {
        days_windows(stats.drop_last()) + stats.last().windows
    }
}

/// The days add up to the ledger: over all days that were played, the profits are
/// the profit of all records, the volumes their cost, and the windows their
/// number.
pub proof fn days_add_up_to_the_ledger(
    stats: Seq<DailyStat>,
    records: Seq<WindowRecord>,
    rate: int,
)
    requires
        latest_first(stats),
        complete_days(stats, records, rate),
        forall|d: Seq<char>| #[trigger] played_on(records, d) ==> has_day(stats, d),
    ensures
        days_profit(stats) == profits(records),
        days_volume(stats) == costs(records),
        days_windows(stats) == records.len(),
{
    let dates = stats.map_values(|s: DailyStat| s.date@);
    assert forall|i: int| 0 <= i < stats.len() implies (#[trigger] stats[i]).shows(
        day_of(records, dates[i], rate),
    ) by {}
    lemma_days_shown(stats, dates, records, rate);
    assert forall|i: int, j: int| 0 <= i < j < dates.len() implies #[trigger] dates[i]
        != #[trigger] dates[j] by {
        assert(before(stats[j].date@, stats[i].date@));
        before_is_irreflexive(stats[i].date@);
    }
    assert forall|k: int| 0 <= k < records.len() implies exists|i: int|
        0 <= i < dates.len() && dates[i] == date_of(#[trigger] records[k]) by {
        assert(played_on(records, date_of(records[k])));
        assert(has_day(stats, date_of(records[k])));
        let i = choose|i: int|
            0 <= i < stats.len() && (#[trigger] stats[i]).date@ == date_of(records[k]);
        assert(dates[i] == date_of(records[k]));
    }
    lemma_days_total(dates, records, rate);
}

/// The profits, the volumes and the windows that the ledger has on some dates.
spec fn on_dates(dates: Seq<Seq<char>>, records: Seq<WindowRecord>, rate: int) -> (int, int, int)
    decreases dates.len(),
{
    if dates.len() == 0 {
        (0, 0, 0)
    } else {
        let rest = on_dates(dates.drop_last(), records, rate);
        let d = day_of(records, dates.last(), rate);
        (rest.0 + d.pnl, rest.1 + d.volume, rest.2 + d.windows)
    }
}

proof fn lemma_days_shown(
    stats: Seq<DailyStat>,
    dates: Seq<Seq<char>>,
    records: Seq<WindowRecord>,
    rate: int,
)
    requires
        stats.len() == dates.len(),
        forall|i: int|
            0 <= i < stats.len() ==> (#[trigger] stats[i]).shows(day_of(records, dates[i], rate)),
    ensures
        on_dates(dates, records, rate) == (days_profit(stats), days_volume(stats), days_windows(stats)),
    decreases stats.len(),
{
    if stats.len() > 0 {
        let s = stats.drop_last();
        let d = dates.drop_last();
        assert(stats[stats.len() - 1].shows(day_of(records, dates[stats.len() - 1], rate)));
        assert forall|i: int| 0 <= i < s.len() implies (#[trigger] s[i]).shows(
            day_of(records, d[i], rate),
        ) by {
            assert(stats[i].shows(day_of(records, dates[i], rate)));
        }
        lemma_days_shown(s, d, records, rate);
    }
}

/// One more record adds to the one date that is its own.
proof fn lemma_dates_step(
    dates: Seq<Seq<char>>,
    records: Seq<WindowRecord>,
    r: WindowRecord,
    rate: int,
)
    requires
        forall|i: int, j: int|
            0 <= i < j < dates.len() ==> #[trigger] dates[i] != #[trigger] dates[j],
    ensures
        ({
            let before = on_dates(dates, records, rate);
            let after = on_dates(dates, records.push(r), rate);
            if exists|i: int| 0 <= i < dates.len() && #[trigger] dates[i] == date_of(r) {
                after == (before.0 + r.pnl, before.1 + r.cost, before.2 + 1)
            } else {
                after == before
            }
        }),
    decreases dates.len(),
{
    if dates.len() > 0 {
        let front = dates.drop_last();
        let n = dates.len() - 1;
        assert forall|i: int, j: int| 0 <= i < j < front.len() implies #[trigger] front[i]
            != #[trigger] front[j] by {
            assert(dates[i] != dates[j]);
        }
        lemma_dates_step(front, records, r, rate);
        one_more_record_adds_its_own(records, r, dates.last(), rate);
        if dates.last() == date_of(r) {
            assert(dates[n] == date_of(r));
            assert forall|i: int| 0 <= i < front.len() implies #[trigger] front[i] != date_of(r) by {
                assert(dates[i] != dates[n]);
            }
        } else if exists|i: int| 0 <= i < dates.len() && #[trigger] dates[i] == date_of(r) {
            let i = choose|i: int| 0 <= i < dates.len() && #[trigger] dates[i] == date_of(r);
            assert(front[i] == date_of(r));
        } else {
            assert forall|i: int| 0 <= i < front.len() implies #[trigger] front[i] != date_of(r) by {
                assert(dates[i] != date_of(r));
            }
        }
    }
}

proof fn lemma_no_records(dates: Seq<Seq<char>>, rate: int)
    ensures
        on_dates(dates, Seq::empty(), rate) == (0int, 0int, 0int),
    decreases dates.len(),
{
    if dates.len() > 0 {
        lemma_no_records(dates.drop_last(), rate);
    }
}

proof fn lemma_days_total(dates: Seq<Seq<char>>, records: Seq<WindowRecord>, rate: int)
    requires
        forall|i: int, j: int|
            0 <= i < j < dates.len() ==> #[trigger] dates[i] != #[trigger] dates[j],
        forall|k: int|
            0 <= k < records.len() ==> exists|i: int|
                0 <= i < dates.len() && dates[i] == date_of(#[trigger] records[k]),
    ensures
        on_dates(dates, records, rate) == (
            profits(records),
            costs(records),
            records.len() as int,
        ),
    decreases records.len(),
{
    if records.len() == 0 {
        assert(records =~= Seq::empty());
        lemma_no_records(dates, rate);
    } else {
        let front = records.drop_last();
        let r = records.last();
        assert forall|k: int| 0 <= k < front.len() implies exists|i: int|
            0 <= i < dates.len() && dates[i] == date_of(#[trigger] front[k]) by {
            assert(front[k] == records[k]);
        }
        lemma_days_total(dates, front, rate);
        lemma_dates_step(dates, front, r, rate);
        assert(records[records.len() - 1] == r);
        let i = choose|i: int| 0 <= i < dates.len() && dates[i] == date_of(r);
        assert(dates[i] == date_of(r));
        assert(front.push(r) =~= records);
    }
}

/// The last items of a sequence are its end, in order.
pub proof fn the_last_are_the_end<T>(s: Seq<T>, n: int)
    requires
        0 <= n,
    ensures
        s.len() <= n ==> last_of(s, n) == s,
        s.len() > n ==> last_of(s, n).len() == n,
        forall|i: int|
            0 <= i < last_of(s, n).len() ==> #[trigger] last_of(s, n)[i] == s[s.len() - last_of(
                s,
                n,
            ).len() + i],
{
}

/// A bot that has played nothing starts its first run from the base, with nothing
/// won, lost or put aside.
pub proof fn a_fresh_ledger_is_empty(base: int)
    ensures
        ({
            let l = fresh_ledger(base);
            &&& l.stack == base && l.best_stack == base
            &&& l.run_id == 1
            &&& l.streak == 0 && l.best_streak == 0
            &&& l.windows_played == 0 && l.wins == 0 && l.losses == 0 && l.panic_exits == 0
            &&& l.realized_pnl == 0 && l.banked == 0
            &&& !l.halted
            &&& l.reset_ts.len() == 0
        }),
{
}

/// Days go back: of two, the later one comes first. Its date differs from the other
/// in some character, which is greater, or goes on where the other ends.
pub proof fn days_go_back(stats: Seq<DailyStat>, i: int, j: int)
    requires
        latest_first(stats),
        0 <= i < j < stats.len(),
    ensures
        ({
            let (later, earlier) = (stats[i].date@, stats[j].date@);
            exists|k: int|
                0 <= k <= earlier.len() && k <= later.len() && #[trigger] earlier.take(k) == later.take(
                    k,
                ) && (k == earlier.len() && k < later.len() || k < earlier.len() && k < later.len()
                    && earlier[k] < later[k])
        }),
{
    let (later, earlier) = (stats[i].date@, stats[j].date@);
    assert(before(earlier, later));
    before_is_lexicographic(earlier, later);
    let k = choose|k: int|
        0 <= k <= earlier.len() && k <= later.len() && #[trigger] earlier.take(k) == later.take(k) && (k
            == earlier.len() && k < later.len() || k < earlier.len() && k < later.len() && earlier[k]
            < later[k]);
    assert(earlier.take(k) == later.take(k));
}

/// The figures of a day that are shown are all of them.
pub proof fn a_day_shows_all_its_figures(s: DailyStat, d: Day)
    requires
        s.shows(d),
    ensures
        s.windows == d.windows,
        s.wins == d.wins,
        s.panics == d.panics,
        s.secures == d.secures,
        s.volume == d.volume,
        s.pnl == d.pnl,
        s.fees == d.fees,
        s.wv == d.wv,
{
}

} // verus!
