//! The window that is played, and the position that is held in it.

use vstd::prelude::*;

use crate::fixed::{
    amount, div_trunc, instant, is_amount, is_instant, is_signed, is_stake, quotient, signed, stake,
};
use crate::tokyo::SIGMA_LIMIT;

verus! {

/// A window of five minutes, with a token for each side.
#[derive(Debug)]
pub struct Market {
    pub slug: String,
    pub up_token_id: String,
    pub down_token_id: String,
    /// When the window begins, in seconds since the epoch.
    pub window_ts: i64,
    /// When the window ends, in milliseconds since the epoch.
    pub end_ms: i64,
}

/// The seconds from `now_ms` until `end_ms`.
pub open spec fn seconds_left(end_ms: int, now_ms: int) -> int {
    quotient(end_ms - now_ms, 1000)
}

impl Market {
    pub open spec fn wf(self) -> bool {
        instant(self.end_ms)
    }

    /// Checks [`Market::wf`].
    pub fn is_valid(&self) -> (r: bool)
        ensures
            r == self.wf(),
    {
        is_instant(self.end_ms)
    }

    /// The seconds that remain of the window.
    pub fn time_remaining_sec(&self, now_ms: i64) -> (r: i64)
        requires
            self.wf(),
            instant(now_ms),
        ensures
            r == seconds_left(self.end_ms as int, now_ms as int),
            -10_000_000_000 <= r <= 10_000_000_000,
    {
        div_trunc((self.end_ms - now_ms) as i128, 1000) as i64
    }

    pub open spec fn token(self, side_up: bool) -> Seq<char> {
        if side_up {
            self.up_token_id@
        } else {
            self.down_token_id@
        }
    }

    /// The token of a side.
    pub fn token_id(&self, side_up: bool) -> (r: String)
        ensures
            r@ == self.token(side_up),
    {
        if side_up {
            self.up_token_id.clone()
        } else {
            self.down_token_id.clone()
        }
    }
}

impl Clone for Market {
    fn clone(&self) -> (r: Self)
        ensures
            r == *self,
    {
        Market {
            slug: self.slug.clone(),
            up_token_id: self.up_token_id.clone(),
            down_token_id: self.down_token_id.clone(),
            window_ts: self.window_ts,
            end_ms: self.end_ms,
        }
    }
}

/// One for the side that wins when the price rises, minus one for the other.
pub open spec fn direction(side_up: bool) -> int {
    if side_up {
        1
    } else {
        -1
    }
}

/// The direction of a side.
pub fn direction_of(side_up: bool) -> (r: i64)
    ensures
        r == direction(side_up),
{
    if side_up {
        1
    } else {
        -1
    }
}

/// The name of a side.
pub open spec fn side_name(side_up: bool) -> Seq<char> {
    if side_up {
        "up"@
    } else {
        "down"@
    }
}

/// An open position.
#[derive(Debug)]
pub struct Position {
    pub side_up: bool,
    pub token_id: String,
    pub shares: i64,
    /// The stack that was staked on the window.
    pub cost: i64,
    pub entry_fees: i64,
    pub entry_price: i64,
    /// What was left of the stack, for want of depth.
    pub cash_left: i64,
    pub z_at_entry: i64,
    pub spot_at_entry: i64,
    pub sigma_at_entry: i64,
    pub remaining_s_at_entry: i64,
    pub window_ts: i64,
    pub slug: String,
    pub strike: i64,
    pub end_ms: i64,
    /// Nothing is sold any more: the position goes to resolution.
    pub ride: bool,
}

impl Position {
    pub open spec fn wf(self) -> bool {
        &&& stake(self.shares)
        &&& stake(self.cost)
        &&& stake(self.entry_fees)
        &&& amount(self.entry_price)
        &&& 0 <= self.cash_left <= self.cost
        &&& signed(self.spot_at_entry)
        &&& 0 <= self.sigma_at_entry <= SIGMA_LIMIT
        &&& -10_000_000_000 <= self.remaining_s_at_entry <= 10_000_000_000
        &&& signed(self.strike)
        &&& instant(self.end_ms)
    }

    /// Checks [`Position::wf`].
    pub fn is_valid(&self) -> (r: bool)
        ensures
            r == self.wf(),
    {
        is_stake(self.shares) && is_stake(self.cost) && is_stake(self.entry_fees) && is_amount(
            self.entry_price,
        ) && 0 <= self.cash_left && self.cash_left <= self.cost && is_signed(self.spot_at_entry) && 0
            <= self.sigma_at_entry && self.sigma_at_entry <= SIGMA_LIMIT && -10_000_000_000
            <= self.remaining_s_at_entry && self.remaining_s_at_entry <= 10_000_000_000
            && is_signed(self.strike) && is_instant(self.end_ms)
    }

    /// The direction that the position wins in.
    pub fn dir(&self) -> (r: i64)
        ensures
            r == direction(self.side_up),
    {
        direction_of(self.side_up)
    }

    /// The name of the side that is held.
    pub fn side_str(&self) -> (r: &'static str)
        ensures
            r@ == side_name(self.side_up),
    {
        if self.side_up {
            "up"
        } else {
            "down"
        }
    }
}

impl Clone for Position {
    fn clone(&self) -> (r: Self)
        ensures
            r == *self,
    {
        Position {
            side_up: self.side_up,
            token_id: self.token_id.clone(),
            shares: self.shares,
            cost: self.cost,
            entry_fees: self.entry_fees,
            entry_price: self.entry_price,
            cash_left: self.cash_left,
            z_at_entry: self.z_at_entry,
            spot_at_entry: self.spot_at_entry,
            sigma_at_entry: self.sigma_at_entry,
            remaining_s_at_entry: self.remaining_s_at_entry,
            window_ts: self.window_ts,
            slug: self.slug.clone(),
            strike: self.strike,
            end_ms: self.end_ms,
            ride: self.ride,
        }
    }
}

/// What the bot is doing.
#[derive(Debug)]
pub enum Phase {
    /// It holds nothing, and looks for an entry.
    Scanning,
    /// It holds a position, and watches it.
    InPosition(Position),
}

impl Clone for Phase {
    fn clone(&self) -> (r: Self)
        ensures
            r == *self,
    {
        match self {
            Phase::Scanning => Phase::Scanning,
            Phase::InPosition(p) => Phase::InPosition(p.clone()),
        }
    }
}

/// Why a position was closed.
#[derive(Debug, Clone, Copy, PartialEq, Eq, Structural)]
pub enum Reason {
    /// The radar's alarm is on.
    RadarKill,
    /// The spot is close to the strike and the margin is thin.
    DistFloor,
    /// The margin is under its floor.
    ZFloor,
    /// The price drifts the wrong way.
    DriftAgainst,
    /// The guard sees nothing.
    GuardStale,
    /// The window ended, and the close of its candle is known.
    ResolutionKline,
    /// The window ended, and the spot stands in for the close.
    ResolutionProxy,
    /// The wall between the spot and the strike is thin.
    SecureWall,
}

impl Reason {
    pub open spec fn text(self) -> Seq<char> {
        match self {
            Reason::RadarKill => "radar_kill"@,
            Reason::DistFloor => "dist_floor"@,
            Reason::ZFloor => "z_floor"@,
            Reason::DriftAgainst => "drift_against"@,
            Reason::GuardStale => "guard_stale"@,
            Reason::ResolutionKline => "resolution_kline"@,
            Reason::ResolutionProxy => "resolution_proxy"@,
            Reason::SecureWall => "secure_wall"@,
        }
    }

    /// The word that the ledger uses.
    pub fn as_str(&self) -> (r: &'static str)
        ensures
            r@ == self.text(),
    {
        match self {
            Reason::RadarKill => "radar_kill",
            Reason::DistFloor => "dist_floor",
            Reason::ZFloor => "z_floor",
            Reason::DriftAgainst => "drift_against",
            Reason::GuardStale => "guard_stale",
            Reason::ResolutionKline => "resolution_kline",
            Reason::ResolutionProxy => "resolution_proxy",
            Reason::SecureWall => "secure_wall",
        }
    }
}

/// The seconds that are left, of a thousand milliseconds each, rounded towards
/// zero: after the end they are negative.
pub proof fn seconds_are_whole(end_ms: int, now_ms: int)
    ensures
        end_ms >= now_ms ==> 0 <= seconds_left(end_ms, now_ms) && seconds_left(end_ms, now_ms) * 1000
            <= end_ms - now_ms < seconds_left(end_ms, now_ms) * 1000 + 1000,
        seconds_left(now_ms, end_ms) == -seconds_left(end_ms, now_ms),
{
}

/// A side has its direction, its name and its token.
pub proof fn sides_are_told_apart(m: Market)
    ensures
        direction(true) == 1,
        direction(false) == -1,
        side_name(true) == "up"@,
        side_name(false) == "down"@,
        m.token(true) == m.up_token_id@,
        m.token(false) == m.down_token_id@,
{
}

} // verus!
