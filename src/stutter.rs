use vstd::arithmetic::div_mod::{
    lemma_div_is_ordered,
    lemma_div_multiples_vanish,
    lemma_fundamental_div_mod,
    lemma_fundamental_div_mod_converse,
};
use vstd::arithmetic::div_mod::lemma_small_mod;
use vstd::arithmetic::mul::lemma_mul_inequality;
use vstd::prelude::*;

use crate::block::{is_restamped, BlockError, OutputBuffer, SignalBlock};
use crate::random::draw_between;
use crate::time::{samples_in, InclusiveRange, TimeSpan, NANOS_PER_SEC};

verus! {

/// Whether position `x` lies in the window that a stutter at `loc`, lasting
/// `dur` samples and repeating pieces of `piece` samples, overwrites. The
/// window is tiled with whole pieces from `loc` on; a tile is written when it
/// starts before `dur` samples have been covered.
pub open spec fn in_stutter(loc: int, dur: int, piece: int, x: int) -> bool {
    piece > 0 && loc <= x && (x - loc) - (x - loc) % piece < dur
}

/// The buffer `s` after one stutter: each position of the window holds the
/// sample of the first piece at the same offset within its tile; every other
/// position keeps its sample.
pub open spec fn stutter_once<S>(s: Seq<S>, loc: int, dur: int, piece: int) -> Seq<S> {
    Seq::new(
        s.len(),
        |x: int|
            if in_stutter(loc, dur, piece, x) {
                s[loc + (x - loc) % piece]
            } else {
                s[x]
            },
    )
}

/// The offset `k * p + o` (with `o < p`) lies `o` into tile number `k`.
proof fn lemma_tile_offset(k: int, p: int, o: int)
    requires
        p > 0,
        k >= 0,
        0 <= o < p,
    ensures
        (k * p + o) % p == o,
        (k * p + o) - (k * p + o) % p == k * p,
{
    lemma_fundamental_div_mod_converse(k * p + o, p, k, o);
}

/// An offset at or past the start `k * p` of a tile lies in that tile or a later one.
proof fn lemma_tile_start_monotone(k: int, p: int, d: int)
    requires
        p > 0,
        k >= 0,
        k * p <= d,
    ensures
        d - d % p >= k * p,
{
    lemma_fundamental_div_mod(d, p);
    assert(k * p == p * k) by (nonlinear_arith);
    lemma_div_is_ordered(p * k, d, p);
    lemma_div_multiples_vanish(k, p);
    lemma_mul_inequality(k, d / p, p);
    assert((d / p) * p == p * (d / p)) by (nonlinear_arith);
}

/// Stamps one stutter into `samples`: from `location` on, the first
/// `piece_length` samples are repeated tile after tile until the tiles cover
/// `duration` samples, the last tile cut short at the end of the buffer.
/// A piece of length zero writes nothing.
pub fn stutter_at<S: Copy>(samples: &mut Vec<S>, location: usize, duration: usize, piece_length: usize)
    requires
        location <= old(samples)@.len(),
    ensures
        final(samples)@ == stutter_once(
            old(samples)@,
            location as int,
            duration as int,
            piece_length as int,
        ),
{
    let ghost s0 = samples@;
    let len = samples.len();
    if piece_length == 0 {
        assert(samples@ =~= stutter_once(s0, location as int, duration as int, 0));
        return;
    }
    let p = piece_length;
    let mut x: usize = location;
    let mut tile: usize = 0;
    let mut off: usize = 0;
    let ghost mut k: int = 0;
    while x < len && tile < duration
        invariant
            len == samples@.len(),
            len == s0.len(),
            p > 0,
            location <= x <= len,
            k >= 0,
            tile == k * p,
            off < p,
            x == location + tile + off,
            forall|y: int|
                location <= y < x ==> #[trigger] samples@[y] == s0[location + (y - location) % (p as int)]
                    && in_stutter(location as int, duration as int, p as int, y),
            forall|y: int| 0 <= y < len && !(location <= y < x) ==> #[trigger] samples@[y] == s0[y],
        decreases len - x,
    {
        let ghost xi = x as int;
        proof {
            lemma_tile_offset(k, p as int, off as int);
            if tile > 0 {
                assert(k >= 1);
                assert(k * p >= p) by (nonlinear_arith)
                    requires k >= 1, p > 0;
                let y = location + off;
                lemma_tile_offset(0, p as int, off as int);
                assert(samples@[y] == s0[y]);
            }
        }
        let v = samples[location + off];
        samples.set(x, v);
        x = x + 1;
        off = off + 1;
        if off == p {
            off = 0;
            tile = tile + p;
            proof {
                k = k + 1;
                assert(tile == k * p) by (nonlinear_arith)
                    requires tile == (k - 1) * p + p;
            }
        }
    }
    proof {
        assert forall|y: int| 0 <= y < len implies #[trigger] samples@[y] == stutter_once(
            s0,
            location as int,
            duration as int,
            p as int,
        )[y] by {
            if location <= y < x {
            } else if y >= x {
                if tile >= duration {
                    lemma_tile_start_monotone(k, p as int, y - location);
                }
            }
        }
        assert(samples@ =~= stutter_once(s0, location as int, duration as int, p as int));
    }
}

/// The buffer `s` after the stutters of `events`, in order; an event is
/// `(location, duration, piece length)`, all in samples.
pub open spec fn apply_stutters<S>(s: Seq<S>, events: Seq<(int, int, int)>) -> Seq<S>
    decreases events.len(),
{
    if events.len() == 0 {
        s
    } else {
        let e = events.last();
        stutter_once(apply_stutters(s, events.drop_last()), e.0, e.1, e.2)
    }
}

/// A piece at least as long as the rest of the buffer repeats nothing: it is
/// the same as a piece that reaches exactly to the end.
proof fn lemma_long_piece<S>(s: Seq<S>, loc: int, dur: int, piece: int)
    requires
        0 <= loc <= s.len(),
        piece >= s.len(),
        s.len() > 0,
    ensures
        stutter_once(s, loc, dur, piece) == stutter_once(s, loc, dur, s.len() as int),
{
    assert forall|x: int| 0 <= x < s.len() implies #[trigger] stutter_once(s, loc, dur, piece)[x]
        == stutter_once(s, loc, dur, s.len() as int)[x] by {
        if loc <= x {
            lemma_small_mod((x - loc) as nat, piece as nat);
            lemma_small_mod((x - loc) as nat, s.len());
        }
    }
    assert(stutter_once(s, loc, dur, piece) =~= stutter_once(s, loc, dur, s.len() as int));
}

/// A longer span never holds fewer samples.
proof fn lemma_samples_in_monotone(a: nat, b: nat, rate: nat)
    requires
        a <= b,
    ensures
        samples_in(a, rate) <= samples_in(b, rate),
{
    lemma_mul_inequality(a as int, b as int, rate as int);
    lemma_div_is_ordered((a * rate) as int, (b * rate) as int, NANOS_PER_SEC as int);
}

/// Repeats short windows of the input in place, simulating glitches.
///
/// A count is drawn from `stutter_count`; for each stutter a duration and a
/// piece length are drawn from their ranges, and a location such that the
/// whole duration fits inside the buffer. The piece that starts at the
/// location is then repeated forward over the duration (see [`stutter_at`]).
pub struct StutterBlock {
    /// How many stutters are placed in the buffer.
    pub stutter_count: InclusiveRange<u16>,
    /// How long each stutter lasts.
    pub stutter_duration: InclusiveRange<TimeSpan>,
    /// How long the repeated piece of each stutter is.
    pub stutter_piece_length: InclusiveRange<TimeSpan>,
}

impl StutterBlock {
    /// Every range has its start at or below its end.
    pub open spec fn ranges_valid(&self) -> bool {
        &&& self.stutter_count.start <= self.stutter_count.end
        &&& self.stutter_duration.start.nanos <= self.stutter_duration.end.nanos
        &&& self.stutter_piece_length.start.nanos <= self.stutter_piece_length.end.nanos
    }

    /// Event `e` could come out of one draw on a buffer of `len` samples at
    /// `rate`: its duration and piece length lie within the ranges converted
    /// to samples, and the duration fits after its location.
    pub open spec fn event_allowed(&self, rate: u32, len: nat, e: (int, int, int)) -> bool {
        &&& samples_in(self.stutter_duration.start.nanos as nat, rate as nat) <= e.1
        &&& e.1 <= samples_in(self.stutter_duration.end.nanos as nat, rate as nat)
        &&& samples_in(self.stutter_piece_length.start.nanos as nat, rate as nat) <= e.2
        &&& e.2 <= samples_in(self.stutter_piece_length.end.nanos as nat, rate as nat)
        &&& 0 <= e.0
        &&& e.0 + e.1 < len
    }

    /// `events` could be the whole set of draws of one call.
    pub open spec fn events_allowed(&self, rate: u32, len: nat, events: Seq<(int, int, int)>) -> bool {
        &&& if self.stutter_count.end == 0 {
            events.len() == 0
        } else {
            self.stutter_count.start <= events.len() <= self.stutter_count.end
        }
        &&& forall|i: int| 0 <= i < events.len() ==> self.event_allowed(rate, len, #[trigger] events[i])
    }
}

impl Default for StutterBlock {
    /// The block that leaves its input as it is: no stutter at all.
    fn default() -> (r: StutterBlock)
        ensures
            r.stutter_count.start == 0,
            r.stutter_count.end == 0,
            r.stutter_duration.start.nanos == 0,
            r.stutter_duration.end.nanos == 0,
            r.stutter_piece_length.start.nanos == 0,
            r.stutter_piece_length.end.nanos == 0,
    {
        StutterBlock {
            stutter_count: InclusiveRange::new(0, 0),
            stutter_duration: InclusiveRange::new(TimeSpan::zero(), TimeSpan::zero()),
            stutter_piece_length: InclusiveRange::new(TimeSpan::zero(), TimeSpan::zero()),
        }
    }
}

/// The last location at which a stutter lasting `duration` samples can start
/// in a buffer of `len` samples so that a sample follows it, or
/// `SourceTooShort` when there is no such location.
pub fn location_bound(duration: u128, len: usize) -> (r: Result<usize, BlockError>)
    ensures
        duration >= len ==> r == Err::<usize, BlockError>(BlockError::SourceTooShort),
        duration < len ==> r == Ok::<usize, BlockError>((len - duration - 1) as usize),
{
    if duration >= len as u128 {
        Err(BlockError::SourceTooShort)
    } else {
        Ok((len as u128 - duration - 1) as usize)
    }
}

/// Stamps one stutter of drawn sizes, in samples, into `samples`. The piece
/// may be longer than the buffer; it then repeats nothing.
pub fn place_stutter<S: Copy>(samples: &mut Vec<S>, location: usize, duration: u128, piece: u128)
    requires
        location + duration < old(samples)@.len(),
    ensures
        final(samples)@ == stutter_once(old(samples)@, location as int, duration as int, piece as int),
{
    let len = samples.len();
    let piece_in_buffer: usize = if piece >= len as u128 {
        len
    } else {
        piece as usize
    };
    proof {
        if piece >= len as u128 {
            lemma_long_piece(samples@, location as int, duration as int, piece as int);
        }
    }
    stutter_at(samples, location, duration as usize, piece_in_buffer);
}

impl SignalBlock for StutterBlock {
    fn process<S: Copy>(&self, samples: Vec<S>, sample_rate: u32, rng: &mut rand::rngs::StdRng) -> (r: Result<
        OutputBuffer<S>,
        BlockError,
    >)
        ensures
            r matches Ok(b) ==> is_restamped(b),
            self.stutter_count.end == 0 ==> (r matches Ok(b) && b.samples@ == samples@),
            r == Err::<OutputBuffer<S>, BlockError>(BlockError::InvalidParameters) <==> (self.stutter_count.end
                > 0 && !self.ranges_valid()),
            r == Err::<OutputBuffer<S>, BlockError>(BlockError::EmptySource) <==> (self.stutter_count.end > 0
                && self.ranges_valid() && samples@.len() == 0),
            r == Err::<OutputBuffer<S>, BlockError>(BlockError::SourceTooShort) ==> samples@.len() > 0
                && samples@.len() <= samples_in(self.stutter_duration.end.nanos as nat, sample_rate as nat),
            self.ranges_valid() && samples@.len() > 0 && samples_in(
                self.stutter_duration.end.nanos as nat,
                sample_rate as nat,
            ) < samples@.len() ==> r is Ok,
            r matches Ok(b) ==> exists|events: Seq<(int, int, int)>|
                #![trigger apply_stutters(samples@, events)]
                self.events_allowed(sample_rate, samples@.len(), events) && b.samples@ == apply_stutters(
                    samples@,
                    events,
                ),
    {
        let ghost s0 = samples@;
        if self.stutter_count.end == 0 {
            assert(apply_stutters(s0, Seq::empty()) == s0);
            return Ok(OutputBuffer::restamped(samples));
        }
        if !(self.stutter_count.start <= self.stutter_count.end
            && self.stutter_duration.start.nanos <= self.stutter_duration.end.nanos
            && self.stutter_piece_length.start.nanos <= self.stutter_piece_length.end.nanos) {
            return Err(BlockError::InvalidParameters);
        }
        let len = samples.len();
        if len == 0 {
            return Err(BlockError::EmptySource);
        }
        let mut buf = samples;
        let count = draw_between(rng, self.stutter_count.start as u128, self.stutter_count.end as u128) as u16;
        let ghost mut events: Seq<(int, int, int)> = Seq::empty();
        let mut i: u16 = 0;
        while i < count
            invariant
                buf@.len() == len,
                s0 == samples@,
                len == s0.len(),
                len > 0,
                self.ranges_valid(),
                self.stutter_count.start <= count <= self.stutter_count.end,
                self.stutter_count.end > 0,
                i <= count,
                events.len() == i,
                forall|j: int| 0 <= j < events.len() ==> self.event_allowed(sample_rate, len as nat, #[trigger] events[j]),
                buf@ == apply_stutters(s0, events),
            ensures
                i == count,
            decreases count - i,
        {
            let dn = draw_between(
                rng,
                self.stutter_duration.start.nanos as u128,
                self.stutter_duration.end.nanos as u128,
            ) as u64;
            let pn = draw_between(
                rng,
                self.stutter_piece_length.start.nanos as u128,
                self.stutter_piece_length.end.nanos as u128,
            ) as u64;
            let duration = TimeSpan::from_nanos(dn).to_samples(sample_rate);
            let piece = TimeSpan::from_nanos(pn).to_samples(sample_rate);
            proof {
                lemma_samples_in_monotone(self.stutter_duration.start.nanos as nat, dn as nat, sample_rate as nat);
                lemma_samples_in_monotone(dn as nat, self.stutter_duration.end.nanos as nat, sample_rate as nat);
                lemma_samples_in_monotone(self.stutter_piece_length.start.nanos as nat, pn as nat, sample_rate as nat);
                lemma_samples_in_monotone(pn as nat, self.stutter_piece_length.end.nanos as nat, sample_rate as nat);
            }
            let bound = match location_bound(duration, len) {
                Ok(b) => b,
                Err(e) => {
                    return Err(e);
                },
            };
            let location = draw_between(rng, 0, bound as u128) as usize;
            place_stutter(&mut buf, location, duration, piece);
            proof {
                let e = (location as int, duration as int, piece as int);
                assert(self.event_allowed(sample_rate, len as nat, e));
                let ev2 = events.push(e);
                assert(ev2.drop_last() == events);
                assert forall|j: int| 0 <= j < ev2.len() implies self.event_allowed(sample_rate, len as nat, #[trigger] ev2[j]) by {
                    if j < events.len() {
                        assert(ev2[j] == events[j]);
                    }
                }
                events = ev2;
            }
            i = i + 1;
        }
        proof {
            assert(self.events_allowed(sample_rate, len as nat, events));
        }
        Ok(OutputBuffer::restamped(buf))
    }
}
/// A stutter never writes outside the buffer: the buffer keeps its length,
/// every position that changes lies at or after the stutter's location, and
/// every sample read to fill it comes from a position before the one it fills.
pub proof fn lemma_stutter_in_bounds<S>(s: Seq<S>, loc: int, dur: int, piece: int)
    requires
        0 <= loc,
    ensures
        stutter_once(s, loc, dur, piece).len() == s.len(),
        forall|x: int|
            0 <= x < s.len() && in_stutter(loc, dur, piece, x) ==> loc <= #[trigger] (loc + (x - loc) % piece) <= x,
        forall|x: int|
            0 <= x < s.len() && #[trigger] stutter_once(s, loc, dur, piece)[x] != s[x] ==> loc <= x && in_stutter(
                loc,
                dur,
                piece,
                x,
            ),
{
    assert forall|x: int| 0 <= x < s.len() && in_stutter(loc, dur, piece, x) implies loc <= #[trigger] (loc + (x
        - loc) % piece) <= x by {
        lemma_fundamental_div_mod(x - loc, piece);
        vstd::arithmetic::div_mod::lemma_mod_bound(x - loc, piece);
    }
}

/// Any run of stutters keeps the buffer's length.
pub proof fn lemma_stutters_keep_length<S>(s: Seq<S>, events: Seq<(int, int, int)>)
    ensures
        apply_stutters(s, events).len() == s.len(),
    decreases events.len(),
{
    if events.len() > 0 {
        lemma_stutters_keep_length(s, events.drop_last());
    }
}
} // verus!
