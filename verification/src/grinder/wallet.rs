//! What the wallet holds, read now and then: money on its way back makes a
//! single reading too low, so the highest of the last few is taken.

use vstd::prelude::*;

use crate::fixed::{amount, max, LIMIT};
use crate::state::last_of;

verus! {

/// How many readings of the wallet are looked back on.
pub const READINGS_KEPT: usize = 9;

/// How many evaluations at the close of a window are looked back on.
pub const EVALUATIONS_KEPT: usize = 3;

/// The highest of `readings`, and at least `floor`.
pub open spec fn highest_of(readings: Seq<i64>, floor: int) -> int
    decreases readings.len(),
{
    if readings.len() == 0 {
        floor
    } else {
        max(highest_of(readings.drop_last(), floor), readings.last() as int)
    }
}

/// The highest of some readings is at least each of them and at least the
/// floor, and it is one of these.
pub proof fn highest_is_the_highest(readings: Seq<i64>, floor: int)
    ensures
        highest_of(readings, floor) >= floor,
        forall|i: int|
            0 <= i < readings.len() ==> #[trigger] readings[i] <= highest_of(readings, floor),
        highest_of(readings, floor) == floor || exists|i: int|
            0 <= i < readings.len() && #[trigger] readings[i] == highest_of(readings, floor),
    decreases readings.len(),
{
    if readings.len() > 0 {
        let rest = readings.drop_last();
        highest_is_the_highest(rest, floor);
        assert forall|i: int| 0 <= i < readings.len() implies #[trigger] readings[i] <= highest_of(
            readings,
            floor,
        ) by {
            if i < rest.len() {
                assert(rest[i] == readings[i]);
            }
        }
        if highest_of(readings, floor) == readings.last() {
            assert(readings[readings.len() - 1] == highest_of(readings, floor));
        } else if highest_of(rest, floor) != floor {
            let i = choose|i: int|
                0 <= i < rest.len() && #[trigger] rest[i] == highest_of(rest, floor);
            assert(readings[i] == highest_of(readings, floor));
        }
    }
}

/// The highest of `readings`, and at least `floor`.
pub fn highest_reading(readings: &Vec<i64>, floor: i64) -> (r: i64)
    ensures
        r == highest_of(readings@, floor as int),
{
    let mut best: i64 = floor;
    let mut i: usize = 0;
    while i < readings.len()
        invariant
            i <= readings.len(),
            best == highest_of(readings@.take(i as int), floor as int),
        decreases readings.len() - i,
    {
        assert(readings@.take(i + 1).drop_last() =~= readings@.take(i as int));
        assert(readings@.take(i + 1).last() == readings@[i as int]);
        if readings[i] > best {
            best = readings[i];
        }
        i = i + 1;
    }
    assert(readings@.take(i as int) =~= readings@);
    best
}

/// Adds a reading, and forgets the oldest ones beyond `kept`.
pub fn push_reading(readings: &mut Vec<i64>, x: i64, kept: usize)
    ensures
        final(readings)@ == last_of(old(readings)@.push(x), kept as int),
{
    readings.push(x);
    if readings.len() > kept {
        let ghost all = readings@;
        let at: usize = readings.len() - kept;
        *readings = readings.split_off(at);
        assert(readings@ =~= all.skip(at as int));
    }
}

/// The last readings of the wallet.
#[derive(Debug)]
pub struct WalletWindow {
    pub readings: Vec<i64>,
}

impl WalletWindow {
    /// No reading yet.
    pub fn new() -> (r: Self)
        ensures
            r.readings@.len() == 0,
    {
        WalletWindow { readings: Vec::new() }
    }

    /// Takes in a reading of the wallet, and returns what it is now thought to
    /// hold. A reading of nothing says nothing.
    pub fn on_balance(&mut self, c: i64) -> (r: Option<i64>)
        ensures
            c <= 0 ==> r is None && *final(self) == *old(self),
            c > 0 ==> {
                &&& final(self).readings@ == last_of(
                    old(self).readings@.push(c),
                    READINGS_KEPT as int,
                )
                &&& r matches Some(w)
                &&& w == highest_of(final(self).readings@, 0)
                &&& w >= c
            },
            (c <= LIMIT && (forall|i: int|
                0 <= i < old(self).readings@.len() ==> #[trigger] old(self).readings@[i] <= LIMIT))
                ==> (r matches Some(w) ==> amount(w)) && (forall|i: int|
                0 <= i < final(self).readings@.len() ==> #[trigger] final(self).readings@[i]
                    <= LIMIT),
    {
        if c <= 0 {
            return None;
        }
        let ghost all = self.readings@.push(c);
        push_reading(&mut self.readings, c, READINGS_KEPT);
        let w = highest_reading(&self.readings, 0);
        proof {
            let kept = self.readings@;
            highest_is_the_highest(kept, 0);
            assert(kept[kept.len() - 1] == c);
            if c <= LIMIT && (forall|i: int|
                0 <= i < old(self).readings@.len() ==> #[trigger] old(self).readings@[i] <= LIMIT) {
                assert forall|i: int| 0 <= i < kept.len() implies #[trigger] kept[i] <= LIMIT by {
                    let j = i + all.len() - kept.len();
                    assert(kept[i] == all[j]);
                    if j < old(self).readings@.len() {
                        assert(old(self).readings@[j] <= LIMIT);
                    }
                }
            }
        }
        Some(w)
    }
}

} // verus!
