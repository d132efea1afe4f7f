use vstd::arithmetic::div_mod::{lemma_div_is_ordered, lemma_div_multiples_vanish, lemma_fundamental_div_mod, lemma_fundamental_div_mod_converse};
use vstd::arithmetic::mul::lemma_mul_inequality;
use vstd::prelude::*;

use crate::block::{is_restamped, BlockError, OutputBuffer, SignalBlock};
use crate::random::draw_between;
use crate::time::{samples_in, TimeSpan, NANOS_PER_SEC};

verus! {

/// `min(a, b)` over integers.
pub open spec fn min_int(a: int, b: int) -> int {
    if a <= b {
        a
    } else {
        b
    }
}

/// Number of samples that `mult` times `span` covers at `rate`, but no more than `cap`.
pub fn samples_covering(span: TimeSpan, mult: u128, rate: u32, cap: u64) -> (r: u64)
    ensures
        r as int == min_int(cap as int, samples_in((span.nanos * mult) as nat, rate as nat) as int),
{
    proof {
        assert(span.nanos as nat * rate as nat <= u64::MAX as nat * u32::MAX as nat) by (nonlinear_arith);
    }
    let a: u128 = span.nanos as u128 * rate as u128;
    let ghost exact: int = span.nanos * mult * rate;
    proof {
        assert(exact == a * mult) by (nonlinear_arith)
            requires exact == span.nanos * mult * rate, a == span.nanos * rate;
    }
    if mult > 0 && a > u128::MAX / mult {
        proof {
            let m = u128::MAX as int;
            lemma_fundamental_div_mod(m, mult as int);
            assert(a * mult > m) by (nonlinear_arith)
                requires a >= m / (mult as int) + 1, mult > 0, m == (mult as int) * (m / (mult as int)) + m % (mult as int),
                    m % (mult as int) < mult;
            lemma_div_is_ordered(m + 1, exact, NANOS_PER_SEC as int);
            let n = NANOS_PER_SEC as int;
            assert(n * cap <= m + 1) by (nonlinear_arith)
                requires cap <= u64::MAX, n == 1_000_000_000, m == u128::MAX;
            lemma_div_is_ordered(n * cap, m + 1, n);
            lemma_div_multiples_vanish(cap as int, n);
        }
        return cap;
    }
    proof {
        if mult > 0 {
            lemma_fundamental_div_mod(u128::MAX as int, mult as int);
            assert(a * mult <= u128::MAX) by (nonlinear_arith)
                requires a <= (u128::MAX as int) / (mult as int), mult > 0,
                    (u128::MAX as int) == (mult as int) * ((u128::MAX as int) / (mult as int)) + (u128::MAX as int) % (mult as int),
                    (u128::MAX as int) % (mult as int) >= 0;
        }
    }
    let prod: u128 = a * mult;
    let q: u128 = prod / (NANOS_PER_SEC as u128);
    if q < cap as u128 {
        q as u64
    } else {
        cap
    }
}

/// `n / k` rounded up.
pub open spec fn ceil_div(n: int, k: int) -> int {
    (n + k - 1) / k
}

/// Every `k`-th sample of `s`, starting with the first.
pub open spec fn decimated<S>(s: Seq<S>, k: int) -> Seq<S> {
    Seq::new(ceil_div(s.len() as int, k) as nat, |j: int| s[j * k])
}

/// Position reached after taking the first `j` steps of `steps` from 0.
pub open spec fn cursor(steps: Seq<u128>, j: int) -> int
    decreases j,
{
    if j <= 0 {
        0
    } else {
        cursor(steps, j - 1) + steps[j - 1]
    }
}

/// `out` is what a walk over `src` yields when it takes the sample under the
/// cursor, then moves the cursor by the next step of `steps`, until it holds
/// `target` samples or the cursor leaves `src`.
pub open spec fn is_walk<S>(out: Seq<S>, src: Seq<S>, target: int, steps: Seq<u128>) -> bool {
    &&& out.len() <= target
    &&& out.len() <= steps.len()
    &&& forall|j: int| 0 <= j < out.len() ==> #[trigger] cursor(steps, j) < src.len()
    &&& forall|j: int| 0 <= j < out.len() ==> #[trigger] out[j] == src[cursor(steps, j)]
    &&& out.len() < target ==> cursor(steps, out.len() as int) >= src.len()
}

/// A step that a jitter of at most `variation` around `factor` can give,
/// once negative steps are raised to zero.
pub open spec fn step_allowed(factor: int, variation: int, step: int) -> bool {
    &&& step >= 0
    &&& step >= factor - variation
    &&& step <= factor + variation
}

/// Keeps every `factor`-th sample among the first `window` ones.
pub fn decimate<S: Copy>(samples: &Vec<S>, window: usize, factor: usize) -> (r: Vec<S>)
    requires
        factor > 0,
        window <= samples@.len(),
    ensures
        r@ == decimated(samples@.take(window as int), factor as int),
{
    let ghost src = samples@.take(window as int);
    let mut out: Vec<S> = Vec::new();
    let mut idx: u128 = 0;
    proof {
        assert(0 * factor == 0) by (nonlinear_arith);
    }
    while idx < window as u128
        invariant
            factor > 0,
            window <= samples@.len(),
            src == samples@.take(window as int),
            idx == out@.len() * factor,
            (out@.len() - 1) * factor < window,
            forall|j: int| 0 <= j < out@.len() ==> #[trigger] out@[j] == src[j * factor],
        decreases window + factor - idx,
    {
        proof {
            assert(idx <= u64::MAX);
        }
        out.push(samples[idx as usize]);
        proof {
            assert((out@.len() - 1) * factor == idx) by (nonlinear_arith)
                requires idx == (out@.len() - 1) * factor;
        }
        idx = idx + factor as u128;
        proof {
            assert(idx == out@.len() * factor) by (nonlinear_arith)
                requires idx == (out@.len() - 1) * factor + factor;
        }
    }
    proof {
        let m = out@.len() as int;
        let w = window as int;
        let k = factor as int;
        assert(0 <= w + k - 1 - m * k < k) by (nonlinear_arith)
            requires (m - 1) * k < w, m * k >= w, k > 0;
        lemma_fundamental_div_mod_converse(w + k - 1, k, m, w + k - 1 - m * k);
        assert(out@ =~= decimated(src, k));
    }
    out
}

/// The step that a jitter drawn from `0..=2 * variation` gives: `factor`
/// moved by the jitter less `variation`, raised to zero when negative.
pub fn jitter_step(factor: usize, variation: usize, jitter: u128) -> (r: u128)
    requires
        jitter <= 2 * variation,
    ensures
        r == (if factor + jitter >= variation {
            factor + jitter - variation
        } else {
            0
        }),
        step_allowed(factor as int, variation as int, r as int),
{
    if factor as u128 + jitter >= variation as u128 {
        factor as u128 + jitter - variation as u128
    } else {
        0
    }
}

/// The walk of [`is_walk`] over the first `window` samples, with the steps
/// given; there must be steps enough to reach `target` samples or to leave
/// the window.
pub fn jitter_walk<S: Copy>(samples: &Vec<S>, window: usize, target: u128, steps: &Vec<u128>) -> (r: Vec<S>)
    requires
        window <= samples@.len(),
        target <= steps@.len() || cursor(steps@, steps@.len() as int) >= window,
    ensures
        is_walk(r@, samples@.take(window as int), target as int, steps@),
{
    let ghost src = samples@.take(window as int);
    let mut out: Vec<S> = Vec::new();
    let mut i: u128 = 0;
    while (out.len() as u128) < target && i < window as u128
        invariant
            window <= samples@.len(),
            src == samples@.take(window as int),
            target <= steps@.len() || cursor(steps@, steps@.len() as int) >= window,
            out@.len() <= target,
            out@.len() <= steps@.len(),
            cursor(steps@, out@.len() as int) < window ==> i == cursor(steps@, out@.len() as int),
            cursor(steps@, out@.len() as int) >= window ==> i == window,
            forall|j: int| 0 <= j < out@.len() ==> #[trigger] cursor(steps@, j) < src.len(),
            forall|j: int| 0 <= j < out@.len() ==> #[trigger] out@[j] == src[cursor(steps@, j)],
        decreases target - out@.len(),
    {
        let ghost j = out@.len() as int;
        let ghost before = out@;
        proof {
            assert(i <= u64::MAX);
            assert(i == cursor(steps@, j));
        }
        out.push(samples[i as usize]);
        proof {
            assert(out@[j] == src[cursor(steps@, j)]);
            assert forall|t: int| 0 <= t < out@.len() implies #[trigger] out@[t] == src[cursor(steps@, t)] by {
                if t < j {
                    assert(out@[t] == before[t]);
                }
            }
        }
        let step = steps[out.len() - 1];
        if step >= window as u128 - i {
            i = window as u128;
        } else {
            i = i + step;
        }
        proof {
            assert(cursor(steps@, j + 1) == cursor(steps@, j) + steps@[j]);
        }
    }
    out
}

/// Speeds the input up by keeping only some of its samples, which gives
/// aliasing artifacts at large factors.
///
/// Without variation every `factor`-th sample is kept, from a window of the
/// input four times `factor` times `target_duration` long (the factor of
/// four is an empirical constant of this effect). With variation, a cursor
/// walks a window `factor` times `target_duration` long; after each sample
/// it moves by `factor` plus a jitter drawn from `-factor_variation..=factor_variation`,
/// raised to zero when negative, until `target_duration` worth of samples is
/// collected or the window is exhausted.
pub struct AliasBlock {
    /// How much the audio is sped up: 1 keeps the speed, 2 doubles it.
    pub factor: usize,
    /// How far each step may stray from `factor`.
    pub factor_variation: usize,
    /// How long the output lasts at most.
    pub target_duration: TimeSpan,
}

impl AliasBlock {
    /// Length of the window read without variation, on an input of `len` samples.
    pub open spec fn plain_window(&self, rate: u32, len: nat) -> int {
        min_int(len as int, samples_in((self.target_duration.nanos * (4 * self.factor)) as nat, rate as nat) as int)
    }

    /// Length of the window walked with variation, on an input of `len` samples.
    pub open spec fn jitter_window(&self, rate: u32, len: nat) -> int {
        min_int(len as int, samples_in((self.target_duration.nanos * self.factor) as nat, rate as nat) as int)
    }

    /// Number of samples in `target_duration` at `rate`.
    pub open spec fn target_count(&self, rate: u32) -> int {
        samples_in(self.target_duration.nanos as nat, rate as nat) as int
    }

    /// `out` is what the jittered walk can yield on `input` at `rate`, for
    /// some choice of steps that each lie within `factor_variation` of
    /// `factor` and are not negative.
    pub open spec fn jitter_outcome<S>(&self, input: Seq<S>, rate: u32, out: Seq<S>) -> bool {
        exists|steps: Seq<u128>|
            (forall|j: int|
                0 <= j < steps.len() ==> step_allowed(
                    self.factor as int,
                    self.factor_variation as int,
                    #[trigger] steps[j] as int,
                )) && #[trigger] is_walk(out, input.take(self.jitter_window(rate, input.len())), self.target_count(rate), steps)
    }

    /// How many samples of a source at `sample_rate` the block can read at
    /// most, capped at `u64::MAX`: a caller may cut the source there first.
    pub fn samples_needed(&self, sample_rate: u32) -> (r: u64)
        ensures
            self.factor_variation == 0 ==> r == min_int(
                u64::MAX as int,
                samples_in((self.target_duration.nanos * (4 * self.factor)) as nat, sample_rate as nat) as int,
            ),
            self.factor_variation > 0 ==> r == min_int(
                u64::MAX as int,
                samples_in((self.target_duration.nanos * self.factor) as nat, sample_rate as nat) as int,
            ),
    {
        let mult: u128 = if self.factor_variation == 0 {
            4 * self.factor as u128
        } else {
            self.factor as u128
        };
        samples_covering(self.target_duration, mult, sample_rate, u64::MAX)
    }
}

impl Default for AliasBlock {
    /// The block that keeps every sample, for one second.
    fn default() -> (r: AliasBlock)
        ensures
            r.factor == 1,
            r.factor_variation == 0,
            r.target_duration.nanos == NANOS_PER_SEC,
    {
        AliasBlock { factor: 1, factor_variation: 0, target_duration: TimeSpan::from_secs(1) }
    }
}

impl SignalBlock for AliasBlock {
    fn process<S: Copy>(&self, samples: Vec<S>, sample_rate: u32, rng: &mut rand::rngs::StdRng) -> (r: Result<
        OutputBuffer<S>,
        BlockError,
    >)
        ensures
            r matches Ok(b) ==> is_restamped(b),
            r is Err <==> self.factor == 0 && self.factor_variation == 0,
            r is Err ==> r == Err::<OutputBuffer<S>, BlockError>(BlockError::InvalidParameters),
            r matches Ok(b) ==> (self.factor_variation == 0 ==> b.samples@ == decimated(
                samples@.take(self.plain_window(sample_rate, samples@.len())),
                self.factor as int,
            )),
            r matches Ok(b) ==> (self.factor_variation > 0 ==> self.jitter_outcome(
                samples@,
                sample_rate,
                b.samples@,
            )),
    {
        let len = samples.len();
        if self.factor_variation == 0 {
            if self.factor == 0 {
                return Err(BlockError::InvalidParameters);
            }
            let window = samples_covering(self.target_duration, 4 * self.factor as u128, sample_rate, len as u64)
                as usize;
            let out = decimate(&samples, window, self.factor);
            return Ok(OutputBuffer::restamped(out));
        }
        let target = self.target_duration.to_samples(sample_rate);
        let window = samples_covering(self.target_duration, self.factor as u128, sample_rate, len as u64) as usize;
        let variation = self.factor_variation as u128;
        let mut steps: Vec<u128> = Vec::new();
        let mut pos: u128 = 0;
        while (steps.len() as u128) < target && pos < window as u128
            invariant
                variation == self.factor_variation,
                variation > 0,
                steps@.len() <= target,
                forall|j: int|
                    0 <= j < steps@.len() ==> step_allowed(
                        self.factor as int,
                        self.factor_variation as int,
                        #[trigger] steps@[j] as int,
                    ),
                cursor(steps@, steps@.len() as int) < window ==> pos == cursor(steps@, steps@.len() as int),
                cursor(steps@, steps@.len() as int) >= window ==> pos == window,
            decreases target - steps@.len(),
        {
            let ghost n = steps@.len() as int;
            let ghost before = steps@;
            let jitter = draw_between(rng, 0, 2 * variation);
            let step = jitter_step(self.factor, self.factor_variation, jitter);
            steps.push(step);
            proof {
                assert forall|t: int| 0 <= t <= n implies cursor(steps@, t) == cursor(before, t) by {
                    lemma_cursor_prefix(before, steps@, t);
                }
                assert(cursor(steps@, n + 1) == cursor(steps@, n) + steps@[n]);
                assert forall|j: int| 0 <= j < steps@.len() implies step_allowed(
                    self.factor as int,
                    self.factor_variation as int,
                    #[trigger] steps@[j] as int,
                ) by {
                    if j < n {
                        assert(steps@[j] == before[j]);
                    }
                }
            }
            if step >= window as u128 - pos {
                pos = window as u128;
            } else {
                pos = pos + step;
            }
        }
        let out = jitter_walk(&samples, window, target, &steps);
        let buf = OutputBuffer::restamped(out);
        proof {
            assert(window as int == self.jitter_window(sample_rate, samples@.len()));
            assert(target as int == self.target_count(sample_rate));
            assert(is_walk(buf.samples@, samples@.take(window as int), target as int, steps@));
            assert(self.jitter_outcome(samples@, sample_rate, buf.samples@));
        }
        Ok(buf)
    }
}

/// The cursor after `t` steps depends on the first `t` steps alone.
proof fn lemma_cursor_prefix(a: Seq<u128>, b: Seq<u128>, t: int)
    requires
        0 <= t <= a.len(),
        t <= b.len(),
        forall|u: int| 0 <= u < t ==> a[u] == b[u],
    ensures
        cursor(a, t) == cursor(b, t),
    decreases t,
{
    if t > 0 {
        lemma_cursor_prefix(a, b, t - 1);
    }
}
/// With a factor of one and no variation the block is the identity on its
/// window: the output is the input cut to the window, and that window holds
/// at least the first `target_duration` of the input.
pub proof fn lemma_alias_identity<S>(block: AliasBlock, input: Seq<S>, rate: u32)
    requires
        block.factor == 1,
        block.factor_variation == 0,
    ensures
        decimated(input.take(block.plain_window(rate, input.len())), 1) == input.take(
            block.plain_window(rate, input.len()),
        ),
        block.plain_window(rate, input.len()) >= min_int(input.len() as int, block.target_count(rate)),
{
    let w = block.plain_window(rate, input.len());
    let src = input.take(w);
    assert(ceil_div(src.len() as int, 1) == src.len());
    assert forall|j: int| 0 <= j < src.len() implies #[trigger] decimated(src, 1)[j] == src[j] by {
        assert(j * 1 == j);
    }
    assert(decimated(src, 1) =~= src);
    let n = block.target_duration.nanos as nat;
    assert(n <= n * 4) by (nonlinear_arith);
    assert(n * 4 == (block.target_duration.nanos * (4 * block.factor)) as nat);
    lemma_mul_inequality(n as int, (n * 4) as int, rate as int);
    lemma_div_is_ordered((n * rate) as int, (n * 4 * rate) as int, NANOS_PER_SEC as int);
}

/// Without variation, output sample `j` is input sample `j * factor`, for
/// every position of the output, and the output holds the window's length
/// divided by the factor, rounded up.
pub proof fn lemma_decimation<S>(block: AliasBlock, input: Seq<S>, rate: u32)
    requires
        block.factor >= 1,
        block.factor_variation == 0,
    ensures
        ({
            let w = block.plain_window(rate, input.len());
            let out = decimated(input.take(w), block.factor as int);
            &&& out.len() == ceil_div(w, block.factor as int)
            &&& forall|j: int|
                0 <= j < out.len() ==> #[trigger] (j * block.factor) < w && out[j] == input[j * block.factor]
        }),
{
    let w = block.plain_window(rate, input.len());
    let k = block.factor as int;
    let out = decimated(input.take(w), k);
    assert(w >= 0);
    assert forall|j: int| 0 <= j < out.len() implies #[trigger] (j * block.factor) < w && out[j] == input[j
        * block.factor] by {
        lemma_fundamental_div_mod(w + k - 1, k);
        vstd::arithmetic::div_mod::lemma_mod_bound(w + k - 1, k);
        assert(j * k < w) by (nonlinear_arith)
            requires 0 <= j < (w + k - 1) / k, k >= 1, w + k - 1 == k * ((w + k - 1) / k) + (w + k - 1) % k,
                0 <= (w + k - 1) % k < k;
    }
}

/// With variation, the output never holds more than `target_duration` worth
/// of samples.
pub proof fn lemma_jitter_bounds<S>(block: AliasBlock, input: Seq<S>, rate: u32, out: Seq<S>)
    requires
        block.jitter_outcome(input, rate, out),
    ensures
        out.len() <= block.target_count(rate),
{
}
} // verus!
