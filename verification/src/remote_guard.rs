//! The remote radar, which sends datagrams:
//!
//! - `T`, then eight or nine little-endian words of eight bytes: a sequence
//!   number, the instant of emission, the spot, the volatility, the drift, the
//!   order flow imbalance, the book imbalance, the velocity and, in the longer
//!   form, the impulse, all but the first two as binary64 values;
//! - `K`, an alarm;
//! - `H`, a heartbeat, which is ignored like anything else.

use vstd::prelude::*;

use crate::fixed::{bounded_from_bits, bounded_of_bits, signed, NANO, PICO};
use crate::tokyo::GuardState;

verus! {

/// The first byte of a tick.
pub const TICK_TAG: u8 = 0x54;

/// The first byte of an alarm.
pub const KILL_TAG: u8 = 0x4B;

/// What the guard reads in a tick of the remote radar. All readings are the bits
/// of their binary64 values; the order flow imbalance is not among them.
#[derive(Debug, Clone, Copy, PartialEq, Eq, Structural)]
pub struct WireTick {
    pub seq: u64,
    pub ts_ms: u64,
    pub spot: u64,
    pub sigma: u64,
    pub drift: u64,
    pub obi: u64,
    pub velocity: u64,
    pub impulse: u64,
}

/// What the remote radar said last.
#[derive(Debug, Clone, Copy, PartialEq, Eq, Structural)]
pub struct RemoteState {
    /// A tick was taken in.
    pub heard: bool,
    /// The sequence number of the last tick; zero before the first.
    pub last_seq: u64,
    /// When the last datagram arrived here.
    pub ts_ms_local: u64,
    pub spot: i64,
    pub sigma: i64,
    pub drift: i64,
    pub ofi: u64,
    pub obi: i64,
    pub velocity: i64,
    pub impulse: u64,
    /// Until when the alarm is on.
    pub kill_until_ms: u64,
}

/// The little-endian word of eight bytes at `at`.
pub open spec fn word_at(b: Seq<u8>, at: int) -> int {
    b[at] + 0x100 * b[at + 1] + 0x1_0000 * b[at + 2] + 0x100_0000 * b[at + 3] + 0x1_0000_0000 * b[at
        + 4] + 0x100_0000_0000 * b[at + 5] + 0x1_0000_0000_0000 * b[at + 6] + 0x100_0000_0000_0000
        * b[at + 7]
}

/// The word at position `k` of a tick.
pub open spec fn tick_word(b: Seq<u8>, k: int) -> u64 {
    word_at(b, 1 + 8 * k) as u64
}

/// A datagram that has the form of a tick.
pub open spec fn is_tick(b: Seq<u8>) -> bool {
    b.len() >= 65 && b[0] == TICK_TAG
}

/// What a datagram says as a tick: nothing where it has not the form of one.
pub open spec fn decoded(b: Seq<u8>) -> Option<WireTick> {
    if is_tick(b) {
        Some(
            WireTick {
                seq: tick_word(b, 0),
                ts_ms: tick_word(b, 1),
                spot: tick_word(b, 2),
                sigma: tick_word(b, 3),
                drift: tick_word(b, 4),
                obi: tick_word(b, 6),
                velocity: tick_word(b, 7),
                impulse: if b.len() >= 73 {
                    tick_word(b, 8)
                } else {
                    0
                },
            },
        )
    } else {
        None
    }
}

fn read_word(b: &[u8], at: usize) -> (r: u64)
    requires
        at + 8 <= b@.len(),
    ensures
        r == word_at(b@, at as int),
{
    (b[at] as u64) + 0x100 * (b[at + 1] as u64) + 0x1_0000 * (b[at + 2] as u64) + 0x100_0000 * (b[at
        + 3] as u64) + 0x1_0000_0000 * (b[at + 4] as u64) + 0x100_0000_0000 * (b[at + 5] as u64)
        + 0x1_0000_0000_0000 * (b[at + 6] as u64) + 0x100_0000_0000_0000 * (b[at + 7] as u64)
}

/// Reads a datagram as a tick.
pub fn decode_wiretick(b: &[u8]) -> (r: Option<WireTick>)
    ensures
        r == decoded(b@),
        r is Some <==> is_tick(b@),
{
    if b.len() < 65 || b[0] != TICK_TAG {
        return None;
    }
    Some(
        WireTick {
            seq: read_word(b, 1),
            ts_ms: read_word(b, 9),
            spot: read_word(b, 17),
            sigma: read_word(b, 25),
            drift: read_word(b, 33),
            obi: read_word(b, 49),
            velocity: read_word(b, 57),
            impulse: if b.len() >= 73 {
                read_word(b, 65)
            } else {
                0
            },
        },
    )
}

impl RemoteState {
    pub open spec fn wf(self) -> bool {
        &&& signed(self.spot)
        &&& signed(self.sigma)
        &&& signed(self.drift)
        &&& signed(self.obi)
        &&& signed(self.velocity)
    }

    pub open spec fn blank() -> RemoteState {
        RemoteState {
            heard: false,
            last_seq: 0,
            ts_ms_local: 0,
            spot: 0,
            sigma: 0,
            drift: 0,
            ofi: 0,
            obi: 0,
            velocity: 0,
            impulse: 0,
            kill_until_ms: 0,
        }
    }

    /// Nothing heard yet.
    pub fn new() -> (r: Self)
        ensures
            r == RemoteState::blank(),
            r.wf(),
    {
        RemoteState {
            heard: false,
            last_seq: 0,
            ts_ms_local: 0,
            spot: 0,
            sigma: 0,
            drift: 0,
            ofi: 0,
            obi: 0,
            velocity: 0,
            impulse: 0,
            kill_until_ms: 0,
        }
    }

    /// What the local guard would say with these readings.
    pub open spec fn guard(self, now_ms: int) -> GuardState {
        GuardState {
            ts_ms: self.ts_ms_local,
            spot: self.spot,
            drift: self.drift,
            sigma: self.sigma,
            obi: self.obi,
            velocity: self.velocity,
            kill: now_ms < self.kill_until_ms,
        }
    }

    /// What the local guard would say with these readings.
    pub fn as_guard_state(&self, now_ms: u64) -> (r: GuardState)
        ensures
            r == self.guard(now_ms as int),
    {
        GuardState {
            ts_ms: self.ts_ms_local,
            spot: self.spot,
            drift: self.drift,
            sigma: self.sigma,
            obi: self.obi,
            velocity: self.velocity,
            kill: now_ms < self.kill_until_ms,
        }
    }

    /// A tick is taken in unless its sequence number shows it to be late or a
    /// repetition.
    pub open spec fn accepts(self, t: WireTick) -> bool {
        !self.heard || t.seq > self.last_seq
    }

    /// The state after a tick that was taken in at `now_ms`, with each reading in
    /// fixed point; the order flow imbalance is kept for the record.
    pub open spec fn taken(self, t: WireTick, ofi: u64, now_ms: u64) -> RemoteState {
        RemoteState {
            heard: true,
            last_seq: t.seq,
            ts_ms_local: now_ms,
            spot: bounded_of_bits(t.spot, NANO as int) as i64,
            sigma: bounded_of_bits(t.sigma, NANO as int) as i64,
            drift: bounded_of_bits(t.drift, PICO as int) as i64,
            ofi,
            obi: bounded_of_bits(t.obi, NANO as int) as i64,
            velocity: bounded_of_bits(t.velocity, NANO as int) as i64,
            impulse: t.impulse,
            kill_until_ms: self.kill_until_ms,
        }
    }

    /// The state after a datagram that arrives at `now_ms`.
    pub open spec fn after(self, b: Seq<u8>, now_ms: u64, kill_latch_ms: u64) -> RemoteState {
        if b.len() > 0 && b[0] == TICK_TAG {
            match decoded(b) {
                Some(t) if self.accepts(t) => self.taken(t, tick_word(b, 5), now_ms),
                _ => self,
            }
        } else if b.len() > 0 && b[0] == KILL_TAG {
            RemoteState {
                kill_until_ms: (now_ms + kill_latch_ms) as u64,
                ts_ms_local: now_ms,
                ..self
            }
        } else {
            self
        }
    }

    /// A datagram that the position should be looked at again for.
    pub open spec fn pulses(self, b: Seq<u8>) -> bool {
        ||| b.len() > 0 && b[0] == TICK_TAG && (decoded(b) matches Some(t) && self.accepts(t))
        ||| b.len() > 0 && b[0] == KILL_TAG
    }

    /// Takes in a datagram that arrives at `now_ms`, and tells whether the
    /// position should be looked at again.
    pub fn on_datagram(&mut self, b: &[u8], now_ms: u64, kill_latch_ms: u64) -> (r: bool)
        requires
            old(self).wf(),
            now_ms + kill_latch_ms <= u64::MAX,
        ensures
            final(self).wf(),
            *final(self) == old(self).after(b@, now_ms, kill_latch_ms),
            r == old(self).pulses(b@),
    {
        if b.len() == 0 {
            return false;
        }
        if b[0] == TICK_TAG {
            match decode_wiretick(b) {
                Some(t) => {
                    if self.heard && t.seq <= self.last_seq {
                        return false;
                    }
                    self.heard = true;
                    self.last_seq = t.seq;
                    self.ts_ms_local = now_ms;
                    self.spot = bounded_from_bits(t.spot, NANO);
                    self.sigma = bounded_from_bits(t.sigma, NANO);
                    self.drift = bounded_from_bits(t.drift, PICO);
                    self.ofi = read_word(b, 41);
                    self.obi = bounded_from_bits(t.obi, NANO);
                    self.velocity = bounded_from_bits(t.velocity, NANO);
                    self.impulse = t.impulse;
                    true
                },
                None => false,
            }
        } else if b[0] == KILL_TAG {
            self.kill_until_ms = now_ms + kill_latch_ms;
            self.ts_ms_local = now_ms;
            true
        } else {
            false
        }
    }
}

/// The bytes of a word, least significant first.
pub open spec fn word_bytes(w: u64) -> Seq<u8> {
    Seq::new(
        8,
        |i: int|
            if i == 0 {
                (w % 0x100) as u8
            } else if i == 1 {
                (w / 0x100 % 0x100) as u8
            } else if i == 2 {
                (w / 0x1_0000 % 0x100) as u8
            } else if i == 3 {
                (w / 0x100_0000 % 0x100) as u8
            } else if i == 4 {
                (w / 0x1_0000_0000 % 0x100) as u8
            } else if i == 5 {
                (w / 0x100_0000_0000 % 0x100) as u8
            } else if i == 6 {
                (w / 0x1_0000_0000_0000 % 0x100) as u8
            } else {
                (w / 0x100_0000_0000_0000 % 0x100) as u8
            },
    )
}

/// The datagram that carries `words` as a tick.
pub open spec fn frame(words: Seq<u64>) -> Seq<u8>
    decreases words.len(),
{
    if words.len() == 0 {
        seq![TICK_TAG]
    } else {
        frame(words.drop_last()) + word_bytes(words.last())
    }
}

proof fn lemma_frame_len(words: Seq<u64>)
    ensures
        frame(words).len() == 1 + 8 * words.len(),
        frame(words)[0] == TICK_TAG,
    decreases words.len(),
{
    if words.len() > 0 {
        lemma_frame_len(words.drop_last());
    }
}

proof fn lemma_word_bytes(w: u64, b: Seq<u8>, at: int)
    requires
        0 <= at,
        at + 8 <= b.len(),
        forall|i: int| 0 <= i < 8 ==> b[at + i] == (#[trigger] word_bytes(w)[i]),
    ensures
        word_at(b, at) == w,
{
    let x = w as int;
    assert(b[at + 0] == word_bytes(w)[0]);
    assert(b[at + 1] == word_bytes(w)[1]);
    assert(b[at + 2] == word_bytes(w)[2]);
    assert(b[at + 3] == word_bytes(w)[3]);
    assert(b[at + 4] == word_bytes(w)[4]);
    assert(b[at + 5] == word_bytes(w)[5]);
    assert(b[at + 6] == word_bytes(w)[6]);
    assert(b[at + 7] == word_bytes(w)[7]);
    let q1 = x / 0x100;
    let q2 = q1 / 0x100;
    let q3 = q2 / 0x100;
    let q4 = q3 / 0x100;
    let q5 = q4 / 0x100;
    let q6 = q5 / 0x100;
    let q7 = q6 / 0x100;
    assert(q2 == x / 0x1_0000);
    assert(q3 == x / 0x100_0000);
    assert(q4 == x / 0x1_0000_0000);
    assert(q5 == x / 0x100_0000_0000);
    assert(q6 == x / 0x1_0000_0000_0000);
    assert(q7 == x / 0x100_0000_0000_0000);
    assert(q7 < 0x100);
}

/// Reading a tick gives back the words that were written into it.
pub proof fn reading_gives_back_what_was_written(words: Seq<u64>, k: int)
    requires
        8 <= words.len(),
        0 <= k < words.len(),
    ensures
        is_tick(frame(words)),
        tick_word(frame(words), k) == words[k],
    decreases words.len(),
{
    lemma_frame_len(words);
    lemma_frame_word(words, k);
}

proof fn lemma_frame_word(words: Seq<u64>, k: int)
    requires
        0 <= k < words.len(),
    ensures
        word_at(frame(words), 1 + 8 * k) == words[k],
    decreases words.len(),
{
    lemma_frame_len(words);
    lemma_frame_len(words.drop_last());
    let b = frame(words);
    let at = 1 + 8 * k;
    let front = frame(words.drop_last());
    if k == words.len() - 1 {
        assert forall|i: int| 0 <= i < 8 implies b[at + i] == (#[trigger] word_bytes(words[k])[i]) by {
        }
        lemma_word_bytes(words[k], b, at);
    } else {
        lemma_frame_word(words.drop_last(), k);
        assert forall|i: int| 0 <= i < 8 implies #[trigger] b[at + i] == front[at + i] by {
        }
        assert(b[at + 0] == front[at + 0]);
        assert(b[at + 1] == front[at + 1]);
        assert(b[at + 2] == front[at + 2]);
        assert(b[at + 3] == front[at + 3]);
        assert(b[at + 4] == front[at + 4]);
        assert(b[at + 5] == front[at + 5]);
        assert(b[at + 6] == front[at + 6]);
        assert(b[at + 7] == front[at + 7]);
    }
}

/// The order flow imbalance, and what follows a tick of the longer form, do not
/// change what is read.
pub proof fn the_rest_of_a_tick_is_not_read(b: Seq<u8>, c: Seq<u8>)
    requires
        b.len() == c.len(),
        forall|i: int|
            0 <= i < b.len() && !(41 <= i < 49) && i < 73 ==> #[trigger] b[i] == #[trigger] c[i],
    ensures
        decoded(b) == decoded(c),
{
    if b.len() > 0 {
        assert(b[0] == c[0]);
    }
    if is_tick(b) {
        assert forall|k: int| 0 <= k < 8 && k != 5 implies #[trigger] tick_word(b, k) == tick_word(
            c,
            k,
        ) by {
            lemma_same_word(b, c, 1 + 8 * k);
        }
        if b.len() >= 73 {
            lemma_same_word(b, c, 65);
        }
    }
}

proof fn lemma_same_word(b: Seq<u8>, c: Seq<u8>, at: int)
    requires
        0 <= at,
        at + 8 <= b.len(),
        b.len() == c.len(),
        forall|i: int| at <= i < at + 8 ==> #[trigger] b[i] == #[trigger] c[i],
    ensures
        word_at(b, at) == word_at(c, at),
{
    assert(b[at] == c[at]);
    assert(b[at + 1] == c[at + 1]);
    assert(b[at + 2] == c[at + 2]);
    assert(b[at + 3] == c[at + 3]);
    assert(b[at + 4] == c[at + 4]);
    assert(b[at + 5] == c[at + 5]);
    assert(b[at + 6] == c[at + 6]);
    assert(b[at + 7] == c[at + 7]);
}

/// A datagram, and when it arrived.
pub struct Arrival {
    pub bytes: Seq<u8>,
    pub at_ms: u64,
}

/// The state after some datagrams.
pub open spec fn after_all(s: RemoteState, arrivals: Seq<Arrival>, kill_latch_ms: u64) -> RemoteState
    decreases arrivals.len(),
{
    if arrivals.len() == 0 {
        s
    } else {
        after_all(s, arrivals.drop_last(), kill_latch_ms).after(
            arrivals.last().bytes,
            arrivals.last().at_ms,
            kill_latch_ms,
        )
    }
}

/// The datagram at `i` is a tick that was taken in.
pub open spec fn applied(s: RemoteState, arrivals: Seq<Arrival>, kill_latch_ms: u64, i: int) -> bool {
    decoded(arrivals[i].bytes) matches Some(t) && after_all(s, arrivals.take(i), kill_latch_ms).accepts(
        t,
    )
}

/// Ticks are taken in in strictly increasing order: of a radar that was just
/// listened to, a tick is taken in exactly if its number is greater than that of
/// every tick taken in before.
pub proof fn ticks_are_taken_in_order(arrivals: Seq<Arrival>, kill_latch_ms: u64, n: int)
    requires
        0 <= n < arrivals.len(),
        is_tick(arrivals[n].bytes),
    ensures
        applied(RemoteState::blank(), arrivals, kill_latch_ms, n) <==> forall|i: int|
            0 <= i < n && #[trigger] applied(RemoteState::blank(), arrivals, kill_latch_ms, i)
                ==> tick_word(arrivals[i].bytes, 0) < tick_word(arrivals[n].bytes, 0),
{
    lemma_last_seq(arrivals, kill_latch_ms, n);
    let s = after_all(RemoteState::blank(), arrivals.take(n), kill_latch_ms);
    if s.heard {
        let i = choose|i: int|
            0 <= i < n && #[trigger] applied(RemoteState::blank(), arrivals, kill_latch_ms, i)
                && tick_word(arrivals[i].bytes, 0) == s.last_seq;
        assert(applied(RemoteState::blank(), arrivals, kill_latch_ms, i));
    }
}

/// The number of the last tick is the greatest of those taken in.
proof fn lemma_last_seq(arrivals: Seq<Arrival>, kill_latch_ms: u64, n: int)
    requires
        0 <= n <= arrivals.len(),
    ensures
        ({
            let s = after_all(RemoteState::blank(), arrivals.take(n), kill_latch_ms);
            &&& forall|i: int|
                0 <= i < n && #[trigger] applied(RemoteState::blank(), arrivals, kill_latch_ms, i)
                    ==> s.heard && tick_word(arrivals[i].bytes, 0) <= s.last_seq
            &&& s.heard ==> exists|i: int|
                0 <= i < n && #[trigger] applied(RemoteState::blank(), arrivals, kill_latch_ms, i)
                    && tick_word(arrivals[i].bytes, 0) == s.last_seq
        }),
    decreases n,
{
    let blank = RemoteState::blank();
    if n > 0 {
        lemma_last_seq(arrivals, kill_latch_ms, n - 1);
        assert(arrivals.take(n).drop_last() =~= arrivals.take(n - 1));
        assert(arrivals.take(n).last() == arrivals[n - 1]);
        let before = after_all(blank, arrivals.take(n - 1), kill_latch_ms);
        let s = after_all(blank, arrivals.take(n), kill_latch_ms);
        let b = arrivals[n - 1].bytes;
        assert(s == before.after(b, arrivals[n - 1].at_ms, kill_latch_ms));
        if applied(blank, arrivals, kill_latch_ms, n - 1) {
            assert(s.heard && s.last_seq == tick_word(b, 0));
            assert forall|i: int|
                0 <= i < n && #[trigger] applied(blank, arrivals, kill_latch_ms, i) implies s.heard
                && tick_word(arrivals[i].bytes, 0) <= s.last_seq by {}
        } else {
            assert(s.heard == before.heard && s.last_seq == before.last_seq);
            if s.heard {
                let i = choose|i: int|
                    0 <= i < n - 1 && #[trigger] applied(blank, arrivals, kill_latch_ms, i)
                        && tick_word(arrivals[i].bytes, 0) == before.last_seq;
                assert(applied(blank, arrivals, kill_latch_ms, i));
            }
        }
    }
}

/// A tick that comes again changes nothing, however late it comes and whatever
/// datagrams came between.
pub proof fn repetitions_are_ignored(
    s: RemoteState,
    b: Seq<u8>,
    now_ms: u64,
    between: Seq<Arrival>,
    then_ms: u64,
    kill_latch_ms: u64,
)
    requires
        is_tick(b),
    ensures
        ({
            let later = after_all(s.after(b, now_ms, kill_latch_ms), between, kill_latch_ms);
            &&& later.after(b, then_ms, kill_latch_ms) == later
            &&& !later.pulses(b)
        }),
{
    lemma_seq_grows(s.after(b, now_ms, kill_latch_ms), between, kill_latch_ms);
}

proof fn lemma_seq_grows(s: RemoteState, arrivals: Seq<Arrival>, kill_latch_ms: u64)
    requires
        s.heard,
    ensures
        after_all(s, arrivals, kill_latch_ms).heard,
        after_all(s, arrivals, kill_latch_ms).last_seq >= s.last_seq,
    decreases arrivals.len(),
{
    if arrivals.len() > 0 {
        lemma_seq_grows(s, arrivals.drop_last(), kill_latch_ms);
    }
}

/// An alarm is on from the moment its datagram arrives until its latch ends.
pub proof fn remote_alarm_is_latched(
    s: RemoteState,
    b: Seq<u8>,
    now_ms: u64,
    then_ms: int,
    kill_latch_ms: u64,
)
    requires
        b.len() > 0,
        b[0] == KILL_TAG,
        now_ms + kill_latch_ms <= u64::MAX,
    ensures
        s.after(b, now_ms, kill_latch_ms).guard(then_ms).kill <==> then_ms < now_ms + kill_latch_ms,
{
}

/// A tick is read back as it was sent: the words of a datagram are its number, the
/// instant, the spot, the volatility, the drift, the order flow, the imbalance, the
/// velocity and, in the longer form, the impulse.
pub proof fn ticks_are_read_back(words: Seq<u64>)
    requires
        words.len() == 8 || words.len() == 9,
    ensures
        decoded(frame(words)) matches Some(t) && t.seq == words[0] && t.ts_ms == words[1] && t.spot
            == words[2] && t.sigma == words[3] && t.drift == words[4] && t.obi == words[6] && t.velocity
            == words[7] && t.impulse == (if words.len() == 9 {
            words[8]
        } else {
            0
        }),
        tick_word(frame(words), 5) == words[5],
{
    lemma_frame_len(words);
    reading_gives_back_what_was_written(words, 0);
    reading_gives_back_what_was_written(words, 1);
    reading_gives_back_what_was_written(words, 2);
    reading_gives_back_what_was_written(words, 3);
    reading_gives_back_what_was_written(words, 4);
    reading_gives_back_what_was_written(words, 5);
    reading_gives_back_what_was_written(words, 6);
    reading_gives_back_what_was_written(words, 7);
    if words.len() == 9 {
        reading_gives_back_what_was_written(words, 8);
    }
}

/// What a datagram changes: a tick that is taken in is remembered with its number,
/// its readings and the instant at which it arrived, and leaves the alarm as it
/// was; an alarm moves its latch and the instant, and nothing else; anything else
/// changes nothing. The position is looked at again exactly for the first two.
pub proof fn what_a_datagram_changes(
    s: RemoteState,
    b: Seq<u8>,
    now_ms: u64,
    kill_latch_ms: u64,
)
    requires
        now_ms + kill_latch_ms <= u64::MAX,
    ensures
        ({
            let after = s.after(b, now_ms, kill_latch_ms);
            let tick = b.len() >= 65 && b[0] == 0x54 && (!s.heard || s.last_seq < tick_word(b, 0));
            let alarm = b.len() > 0 && b[0] == 0x4B;
            &&& tick ==> {
                &&& after.heard
                &&& after.last_seq == tick_word(b, 0)
                &&& after.ts_ms_local == now_ms
                &&& after.kill_until_ms == s.kill_until_ms
                &&& after.spot == bounded_of_bits(tick_word(b, 2), 1_000_000_000) as i64
                &&& after.sigma == bounded_of_bits(tick_word(b, 3), 1_000_000_000) as i64
                &&& after.drift == bounded_of_bits(tick_word(b, 4), 1_000_000_000_000) as i64
                &&& after.ofi == tick_word(b, 5)
                &&& after.obi == bounded_of_bits(tick_word(b, 6), 1_000_000_000) as i64
                &&& after.velocity == bounded_of_bits(tick_word(b, 7), 1_000_000_000) as i64
                &&& b.len() >= 73 ==> after.impulse == tick_word(b, 8)
                &&& b.len() < 73 ==> after.impulse == 0
            }
            &&& alarm ==> after == (RemoteState {
                kill_until_ms: after.kill_until_ms,
                ts_ms_local: now_ms,
                ..s
            }) && after.kill_until_ms == now_ms + kill_latch_ms
            &&& !tick && !alarm ==> after == s
            &&& s.pulses(b) <==> tick || alarm
        }),
{
}

/// What the remote radar says as a guard: its readings as they are, seen when they
/// arrived, and the alarm while its latch holds.
pub proof fn the_radar_speaks_as_a_guard(s: RemoteState, now_ms: int)
    ensures
        ({
            let gs = s.guard(now_ms);
            &&& gs.ts_ms == s.ts_ms_local
            &&& gs.spot == s.spot && gs.drift == s.drift && gs.sigma == s.sigma
            &&& gs.obi == s.obi && gs.velocity == s.velocity
            &&& gs.kill <==> now_ms < s.kill_until_ms
        }),
        RemoteState::blank().ts_ms_local == 0 && !RemoteState::blank().heard
            && RemoteState::blank().kill_until_ms == 0,
{
}

} // verus!
