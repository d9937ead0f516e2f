//! Channel downmix and sample-rate conversion schedule (device rate -> 16 kHz mono).
//!
//! Time is measured exactly, in units of `1 / (input_rate * 16000)` seconds:
//! input sample `j` arrives at time `j * 16000` and output sample `k` is due at
//! time `k * input_rate`. Output `k` is produced when the first input sample at
//! or after its due time arrives (input `output_source(k)`), by linear
//! interpolation between that input sample and the one before it; the weight of
//! the newer sample is `output_weight(k) / 16000`. The very first output is the
//! very first input sample itself (weight 16000, no older neighbour).
//!
//! The sample values are the caller's: the schedule says which mono samples
//! each output is made of and with which weight.

use vstd::prelude::*;

verus! {

/// The fixed output sample rate in Hz.
pub const TARGET_OUTPUT_SAMPLE_RATE_HZ: u32 = 16000;

/// Denominator of every interpolation weight.
pub const INTERPOLATION_SCALE: u32 = 16000;

/// Returns the fixed output sample rate (16 kHz).
pub fn output_sample_rate_hz() -> (rate: u32)
    ensures
        rate == TARGET_OUTPUT_SAMPLE_RATE_HZ,
        rate == 16000,
{
    TARGET_OUTPUT_SAMPLE_RATE_HZ
}

/// Number of output samples due once `n` mono input samples at `rate` Hz have
/// been consumed: the outputs `k` with `k * rate <= (n - 1) * 16000`.
pub open spec fn outputs_after(n: nat, rate: nat) -> nat {
    if n == 0 {
        0
    } else {
        (((n - 1) * 16000) / (rate as int)) as nat + 1
    }
}

/// Index of the mono input sample at which output `k` is produced: the first
/// input whose time is at or after the output's due time.
pub open spec fn output_source(k: nat, rate: nat) -> nat {
    ((k * rate + 15999) / 16000) as nat
}

/// Weight (out of 16000) of input `output_source(k)` in output `k`; the rest of
/// the weight is on the input just before it.
pub open spec fn output_weight(k: nat, rate: nat) -> int {
    k * rate + 16000 - output_source(k, rate) * 16000
}

/// One output sample of the schedule: the mono sample of `frame` mixed with the
/// mono sample before it (the previous frame, or the last frame of the previous
/// chunk), with `weight / 16000` on the newer one.
#[derive(Clone, Copy, Debug, PartialEq, Eq, Structural)]
pub struct InterpolationPoint {
    pub frame: usize,
    pub weight: u32,
}

/// The points that a chunk produces when it holds the mono inputs
/// `first_input .. last_input` of the stream; frames count from the chunk's start.
pub open spec fn chunk_points(first_input: nat, last_input: nat, rate: nat) -> Seq<InterpolationPoint> {
    Seq::new(
        (outputs_after(last_input, rate) - outputs_after(first_input, rate)) as nat,
        |i: int|
            InterpolationPoint {
                frame: (output_source((outputs_after(first_input, rate) + i) as nat, rate)
                    - first_input) as usize,
                weight: output_weight((outputs_after(first_input, rate) + i) as nat, rate) as u32,
            },
    )
}

/// Normalizes native microphone input into mono 16 kHz: it keeps the
/// resampling clock of one input stream.
pub struct AudioStreamNormalizer {
    input_channel_count: usize,
    input_sample_rate_hz: u32,
    started: bool,
    /// Due time of the next output minus the time of the next input.
    phase: i64,
    consumed: Ghost<nat>,
    emitted: Ghost<nat>,
}

impl AudioStreamNormalizer {
    /// Channels per interleaved input frame.
    pub closed spec fn channels(&self) -> nat {
        self.input_channel_count as nat
    }

    /// Input sample rate in Hz.
    pub closed spec fn rate(&self) -> nat {
        self.input_sample_rate_hz as nat
    }

    /// Number of mono input samples (frames) consumed so far.
    pub closed spec fn consumed(&self) -> nat {
        self.consumed@
    }

    /// The clock invariant: `emitted` outputs are due after `consumed` inputs,
    /// and `phase` is the due time of the next output minus the time of the
    /// next input.
    pub closed spec fn wf(&self) -> bool {
        &&& self.input_channel_count > 0
        &&& self.input_sample_rate_hz > 0
        &&& self.emitted@ == outputs_after(self.consumed@, self.input_sample_rate_hz as nat)
        &&& (self.started <==> self.consumed@ > 0)
        &&& self.consumed@ > 0 ==> {
            &&& self.phase == self.emitted@ * self.input_sample_rate_hz - self.consumed@ * 16000
            &&& -16000 < self.phase <= self.input_sample_rate_hz - 16000
        }
    }

    /// A well-formed normalizer has at least one channel and a non-zero rate.
    pub proof fn lemma_wf_positive(&self)
        requires
            self.wf(),
        ensures
            self.channels() >= 1,
            self.rate() >= 1,
    {
    }

    /// A normalizer for `input_channel_count` interleaved channels at
    /// `input_sample_rate_hz`, before any input. Both must be non-zero: a chunk
    /// cannot be split into frames of zero samples, and at zero Hz no output
    /// ever falls due.
    pub fn new(input_channel_count: usize, input_sample_rate_hz: u32) -> (n: Self)
        requires
            input_channel_count > 0,
            input_sample_rate_hz > 0,
        ensures
            n.wf(),
            n.channels() == input_channel_count,
            n.rate() == input_sample_rate_hz,
            n.consumed() == 0,
    {
        AudioStreamNormalizer {
            input_channel_count,
            input_sample_rate_hz,
            started: false,
            phase: 0,
            consumed: Ghost(0),
            emitted: Ghost(0),
        }
    }

    /// Channels per interleaved input frame.
    pub fn input_channel_count(&self) -> (c: usize)
        ensures
            c == self.channels(),
    {
        self.input_channel_count
    }

    /// Input sample rate in Hz.
    pub fn input_sample_rate_hz(&self) -> (r: u32)
        ensures
            r == self.rate(),
    {
        self.input_sample_rate_hz
    }

    /// The divisor of the channel sum in the downmix: the channel count,
    /// saturated at `u16::MAX`.
    pub fn channel_divisor(&self) -> (d: u16)
        ensures
            d == (if self.channels() <= u16::MAX { self.channels() } else { u16::MAX as nat }),
    {
        if self.input_channel_count <= 65535 {
            self.input_channel_count as u16
        } else {
            u16::MAX
        }
    }

    /// Consumes one mono input sample (from chunk frame `frame`) and appends the
    /// outputs due at it; what `out` already held is left as it was.
    pub fn push_mono_sample(&mut self, frame: usize, out: &mut Vec<InterpolationPoint>)
        requires
            old(self).wf(),
        ensures
            final(self).wf(),
            final(self).channels() == old(self).channels(),
            final(self).rate() == old(self).rate(),
            final(self).consumed() == old(self).consumed() + 1,
            final(out)@.len() >= old(out)@.len(),
            final(out)@.subrange(0, old(out)@.len() as int) == old(out)@,
            final(out)@ == old(out)@ + Seq::new(
                (outputs_after(old(self).consumed() + 1, old(self).rate()) - outputs_after(
                    old(self).consumed(),
                    old(self).rate(),
                )) as nat,
                |i: int|
                    InterpolationPoint {
                        frame,
                        weight: output_weight(
                            (outputs_after(old(self).consumed(), old(self).rate()) + i) as nat,
                            old(self).rate(),
                        ) as u32,
                    },
            ),
            forall|k: nat|
                outputs_after(old(self).consumed(), old(self).rate()) <= k < outputs_after(
                    old(self).consumed() + 1,
                    old(self).rate(),
                ) ==> #[trigger] output_source(k, old(self).rate()) == old(self).consumed(),
    {
        let ghost n = self.consumed@;
        let ghost r = self.input_sample_rate_hz as nat;
        let ghost old_out = out@;
        if !self.started {
            // The first input is emitted as it is.
            proof {
                lemma_outputs_after_one(r);
            }
            out.push(InterpolationPoint { frame, weight: INTERPOLATION_SCALE });
            self.started = true;
            self.phase = self.input_sample_rate_hz as i64 - 16000;
            self.consumed = Ghost(1);
            self.emitted = Ghost(1);
            proof {
                assert(output_source(0, r) == 0);
                assert(output_weight(0, r) == 16000);
                assert(out@ =~= old_out + Seq::new(
                    (outputs_after(1, r) - outputs_after(0, r)) as nat,
                    |i: int| InterpolationPoint { frame, weight: output_weight((0 + i) as nat, r) as u32 },
                ));
                assert forall|k: nat| 0 <= k < 1 implies #[trigger] output_source(k, r) == 0 by {}
                assert(out@.subrange(0, old_out.len() as int) =~= old_out);
            }
            return;
        }
        let ghost k0 = self.emitted@;
        let ghost mut k: nat = k0;
        while self.phase <= 0
            invariant
                self.input_sample_rate_hz == r,
                self.input_channel_count == old(self).input_channel_count,
                self.consumed == old(self).consumed,
                self.emitted == old(self).emitted,
                self.started,
                r > 0,
                n > 0,
                k >= k0,
                self.phase == k * r - n * 16000,
                -16000 < self.phase,
                self.phase - r <= 0,
                k0 * r > (n - 1) * 16000,
                out@.len() == old_out.len() + (k - k0),
                forall|i: int| 0 <= i < old_out.len() ==> out@[i] == old_out[i],
                forall|j: nat|
                    k0 <= j < k ==> {
                        &&& #[trigger] output_source(j, r) == n
                        &&& out@[old_out.len() + (j - k0)] == InterpolationPoint {
                            frame,
                            weight: output_weight(j, r) as u32,
                        }
                    },
            decreases r - self.phase,
        {
            proof {
                lemma_mul_step(k, r);
                lemma_mul_mono(k0, k, r);
                assert((n - 1) * 16000 < k * r <= n * 16000);
                lemma_source_of_due(k, r, n);
            }
            let weight = (self.phase + 16000) as u32;
            out.push(InterpolationPoint { frame, weight });
            self.phase = self.phase + self.input_sample_rate_hz as i64;
            proof {
                k = k + 1;
            }
        }
        self.phase = self.phase - 16000;
        self.consumed = Ghost(n + 1);
        proof {
            lemma_mul_step((k - 1) as nat, r);
            lemma_outputs_after_char(n + 1, k, r);
        }
        self.emitted = Ghost(k);
        proof {
            assert(out@ =~= old_out + Seq::new(
                (outputs_after(n + 1, r) - outputs_after(n, r)) as nat,
                |i: int| InterpolationPoint { frame, weight: output_weight((outputs_after(n, r) + i) as nat, r) as u32 },
            )) by {
                assert forall|i: int| 0 <= i < (k - k0) implies #[trigger] out@[old_out.len() + i]
                    == InterpolationPoint { frame, weight: output_weight((k0 + i) as nat, r) as u32 } by {
                    let j = (k0 + i) as nat;
                    assert(output_source(j, r) == n);
                }
            }
            assert(out@.subrange(0, old_out.len() as int) =~= old_out);
        }
    }
}

/// Schedules the outputs of an interleaved multi-channel input chunk of
/// `input_sample_count` samples: each whole frame of `channels` samples is one
/// mono input (the mean of its channels); samples after the last whole frame are
/// ignored.
pub fn plan_interleaved_input_chunk(
    input_sample_count: usize,
    normalizer: &mut AudioStreamNormalizer,
) -> (points: Vec<InterpolationPoint>)
    requires
        old(normalizer).wf(),
    ensures
        final(normalizer).wf(),
        final(normalizer).channels() == old(normalizer).channels(),
        final(normalizer).rate() == old(normalizer).rate(),
        final(normalizer).consumed() == old(normalizer).consumed() + (input_sample_count as nat)
            / old(normalizer).channels(),
        points@ == chunk_points(
            old(normalizer).consumed(),
            final(normalizer).consumed(),
            old(normalizer).rate(),
        ),
        points@.len() == outputs_after(final(normalizer).consumed(), old(normalizer).rate())
            - outputs_after(old(normalizer).consumed(), old(normalizer).rate()),
        forall|i: int|
            0 <= i < points@.len() ==> {
                &&& (#[trigger] points@[i]).frame < final(normalizer).consumed() - old(
                    normalizer,
                ).consumed()
                &&& point_is_due_output(
                    old(normalizer).consumed(),
                    (outputs_after(old(normalizer).consumed(), old(normalizer).rate()) + i) as nat,
                    points@[i],
                    old(normalizer).rate(),
                )
            },
{
    let frame_count = input_sample_count / normalizer.input_channel_count();
    let ghost n0 = normalizer.consumed();
    let ghost r = normalizer.rate();
    let mut points: Vec<InterpolationPoint> = Vec::new();
    let mut frame: usize = 0;
    while frame < frame_count
        invariant
            normalizer.wf(),
            normalizer.channels() == old(normalizer).channels(),
            normalizer.rate() == r,
            r == old(normalizer).rate(),
            n0 == old(normalizer).consumed(),
            frame <= frame_count,
            frame_count == (input_sample_count as nat) / old(normalizer).channels(),
            normalizer.consumed() == n0 + frame,
            points@ == chunk_points(n0, (n0 + frame) as nat, r),
        decreases frame_count - frame,
    {
        let ghost before = points@;
        proof {
            lemma_outputs_after_mono(n0, (n0 + frame) as nat, r);
            lemma_outputs_after_mono((n0 + frame) as nat, (n0 + frame + 1) as nat, r);
        }
        normalizer.push_mono_sample(frame, &mut points);
        proof {
            let lo = outputs_after(n0, r);
            let mid = outputs_after((n0 + frame) as nat, r);
            let hi = outputs_after((n0 + frame + 1) as nat, r);
            let expected = chunk_points(n0, (n0 + frame + 1) as nat, r);
            assert forall|i: int| 0 <= i < expected.len() implies #[trigger] points@[i] == expected[i] by {
                if i >= mid - lo {
                    let k = (lo + i) as nat;
                    assert(mid <= k < hi);
                    assert(output_source(k, r) == n0 + frame);
                }
            }
            assert(points@ =~= expected);
        }
        frame = frame + 1;
    }
    proof {
        lemma_chunk_points_follow_due_times(n0, normalizer.consumed(), r);
    }
    points
}

proof fn lemma_outputs_after_mono(a: nat, b: nat, r: nat)
    requires
        a <= b,
        r > 0,
    ensures
        outputs_after(a, r) <= outputs_after(b, r),
{
    if a > 0 {
        vstd::arithmetic::div_mod::lemma_div_is_ordered(
            ((a - 1) * 16000) as int,
            ((b - 1) * 16000) as int,
            r as int,
        );
    }
}

/// Every interpolation weight lies in `1 ..= 16000`: each output lies strictly
/// after the older neighbour and at or before the newer one.
pub proof fn lemma_weight_in_range(k: nat, rate: nat)
    ensures
        1 <= output_weight(k, rate) <= 16000,
{
    let x = k * rate;
    assert(x >= 0) by (nonlinear_arith);
}

/// Where output `k` stands relative to the outputs due after `n` inputs.
proof fn lemma_due_bounds(k: nat, n: nat, r: nat)
    requires
        r > 0,
    ensures
        n > 0 && outputs_after(n, r) <= k ==> k * r > (n - 1) * 16000,
        k < outputs_after(n, r) ==> k * r <= (n - 1) * 16000,
{
    if n > 0 {
        let x = ((n - 1) * 16000) as int;
        let q = x / (r as int);
        vstd::arithmetic::div_mod::lemma_fundamental_div_mod(x, r as int);
        vstd::arithmetic::div_mod::lemma_mod_pos_bound(x, r as int);
        if outputs_after(n, r) <= k {
            assert(k * r >= (q + 1) * r) by (nonlinear_arith)
                requires
                    k >= q + 1,
                    q >= 0,
            ;
            assert((q + 1) * r == q * r + r) by (nonlinear_arith);
            assert(r * q == q * r) by (nonlinear_arith);
        }
        if k < outputs_after(n, r) {
            assert(k * r <= q * r) by (nonlinear_arith)
                requires
                    k <= q,
                    r > 0,
            ;
            assert(r * q == q * r) by (nonlinear_arith);
        }
    }
}

/// The outputs scheduled by a chunk holding inputs `first .. last` are all
/// produced at inputs of that chunk: their frames are `0 .. last - first`, in
/// order, and every weight is in `1 ..= 16000`.
pub proof fn lemma_chunk_points_in_chunk(first: nat, last: nat, rate: nat)
    requires
        rate > 0,
        first <= last,
        last - first <= usize::MAX,
    ensures
        forall|i: int|
            0 <= i < chunk_points(first, last, rate).len() ==> {
                &&& #[trigger] chunk_points(first, last, rate)[i].frame < last - first
                &&& 1 <= chunk_points(first, last, rate)[i].weight <= 16000
            },
        forall|i: int, j: int|
            0 <= i <= j < chunk_points(first, last, rate).len() ==> chunk_points(first, last, rate)[i].frame
                <= chunk_points(first, last, rate)[j].frame,
{
    lemma_outputs_after_mono(first, last, rate);
    assert forall|i: int| 0 <= i < chunk_points(first, last, rate).len() implies {
        &&& #[trigger] chunk_points(first, last, rate)[i].frame < last - first
        &&& 1 <= chunk_points(first, last, rate)[i].weight <= 16000
        &&& first <= output_source((outputs_after(first, rate) + i) as nat, rate) < last
    } by {
        let k = (outputs_after(first, rate) + i) as nat;
        lemma_due_bounds(k, first, rate);
        lemma_due_bounds(k, last, rate);
        lemma_weight_in_range(k, rate);
    }
    assert forall|i: int, j: int|
        0 <= i <= j < chunk_points(first, last, rate).len() implies chunk_points(first, last, rate)[i].frame
        <= chunk_points(first, last, rate)[j].frame by {
        let ki = (outputs_after(first, rate) + i) as nat;
        let kj = (outputs_after(first, rate) + j) as nat;
        lemma_mul_mono(ki, kj, rate);
        assert(chunk_points(first, last, rate)[i].frame < last - first);
        assert(chunk_points(first, last, rate)[j].frame < last - first);
        lemma_due_bounds(ki, first, rate);
        lemma_due_bounds(ki, last, rate);
        lemma_due_bounds(kj, first, rate);
        lemma_due_bounds(kj, last, rate);
    }
}

/// Output `g` of the stream is placed at point `p` of a chunk that starts at
/// input `first`: `p` is taken at input `j = first + p.frame`, the first input
/// at or after the output's due time `g * rate` (so input `j - 1` comes strictly
/// before it), and the weight on input `j` is how far past input `j - 1` the
/// output is due, out of 16000.
pub open spec fn point_is_due_output(first: nat, g: nat, p: InterpolationPoint, rate: nat) -> bool {
    let j = first + p.frame;
    &&& j * 16000 < g * rate + 16000
    &&& g * rate <= j * 16000
    &&& p.weight == g * rate + 16000 - j * 16000
}

/// After `n` inputs exactly the outputs due no later than the last input have
/// been produced: output `outputs_after(n) - 1` is due at or before the time
/// of input `n - 1`, and output `outputs_after(n)` after it.
pub proof fn lemma_outputs_after_counts_due_outputs(n: nat, rate: nat)
    requires
        rate > 0,
    ensures
        n == 0 ==> outputs_after(n, rate) == 0,
        n > 0 ==> outputs_after(n, rate) >= 1,
        n > 0 ==> (outputs_after(n, rate) - 1) * rate <= (n - 1) * 16000,
        n > 0 ==> (n - 1) * 16000 < outputs_after(n, rate) * rate,
{
    if n > 0 {
        let c = outputs_after(n, rate);
        assert(c >= 1);
        lemma_due_bounds((c - 1) as nat, n, rate);
        lemma_due_bounds(c, n, rate);
    }
}

/// The points of a chunk holding inputs `first .. last` are the outputs due
/// from after input `first - 1` up to input `last - 1`, in order: point `i` is
/// stream output `outputs_after(first) + i`, taken at the first input at or
/// after its due time, with the weight given by how far past the input before
/// it the output falls.
pub proof fn lemma_chunk_points_follow_due_times(first: nat, last: nat, rate: nat)
    requires
        rate > 0,
        first <= last,
        last - first <= usize::MAX,
    ensures
        chunk_points(first, last, rate).len() == outputs_after(last, rate) - outputs_after(
            first,
            rate,
        ),
        forall|i: int|
            0 <= i < chunk_points(first, last, rate).len() ==> {
                &&& (#[trigger] chunk_points(first, last, rate)[i]).frame < last - first
                &&& point_is_due_output(
                    first,
                    (outputs_after(first, rate) + i) as nat,
                    chunk_points(first, last, rate)[i],
                    rate,
                )
            },
{
    lemma_outputs_after_mono(first, last, rate);
    assert forall|i: int| 0 <= i < chunk_points(first, last, rate).len() implies {
        &&& (#[trigger] chunk_points(first, last, rate)[i]).frame < last - first
        &&& point_is_due_output(
            first,
            (outputs_after(first, rate) + i) as nat,
            chunk_points(first, last, rate)[i],
            rate,
        )
    } by {
        let k = (outputs_after(first, rate) + i) as nat;
        lemma_due_bounds(k, first, rate);
        lemma_due_bounds(k, last, rate);
        lemma_weight_in_range(k, rate);
        let x = k * rate;
        let s = output_source(k, rate);
        assert(s * 16000 < x + 16000 && x <= s * 16000);
        assert(first <= s < last);
    }
}

/// Scheduling a stream in two chunks gives the points of scheduling it in one:
/// the second chunk's points follow the first chunk's, with frames counted from
/// the second chunk's start.
pub proof fn lemma_chunks_compose(a: nat, b: nat, c: nat, rate: nat)
    requires
        rate > 0,
        a <= b <= c,
        c - a <= usize::MAX,
    ensures
        chunk_points(a, c, rate) == chunk_points(a, b, rate) + chunk_points(b, c, rate).map_values(
            |p: InterpolationPoint| InterpolationPoint { frame: (p.frame + (b - a)) as usize, weight: p.weight },
        ),
{
    lemma_outputs_after_mono(a, b, rate);
    lemma_outputs_after_mono(b, c, rate);
    lemma_chunk_points_in_chunk(b, c, rate);
    lemma_chunk_points_in_chunk(a, c, rate);
    let lhs = chunk_points(a, c, rate);
    let rhs = chunk_points(a, b, rate) + chunk_points(b, c, rate).map_values(
        |p: InterpolationPoint| InterpolationPoint { frame: (p.frame + (b - a)) as usize, weight: p.weight },
    );
    assert forall|i: int| 0 <= i < lhs.len() implies #[trigger] lhs[i] == rhs[i] by {
        let k = (outputs_after(a, rate) + i) as nat;
        lemma_due_bounds(k, a, rate);
        lemma_due_bounds(k, b, rate);
        lemma_due_bounds(k, c, rate);
        if i >= outputs_after(b, rate) - outputs_after(a, rate) {
            let ii = i - (outputs_after(b, rate) - outputs_after(a, rate));
            assert(chunk_points(b, c, rate)[ii].frame < c - b);
        }
    }
    assert(lhs =~= rhs);
}

/// At 16 kHz input the schedule passes every input through unchanged: output
/// `k` is input `k` with full weight.
pub proof fn lemma_passthrough_at_output_rate(n: nat, k: nat)
    ensures
        outputs_after(n, 16000) == n,
        output_source(k, 16000) == k,
        output_weight(k, 16000) == 16000,
{
    assert(k * 16000 == 16000 * k) by (nonlinear_arith);
    if n > 0 {
        assert(((n - 1) * 16000) / 16000 == n - 1) by (nonlinear_arith)
            requires
                n > 0,
        ;
    }
    assert((k * 16000 + 15999) / 16000 == k) by (nonlinear_arith);
}

/// At an input rate `m` times the output rate, output `k` is input `k * m`
/// with full weight: every `m`-th input is kept, starting with the first.
pub proof fn lemma_decimation_by_integer_factor(m: nat, n: nat, k: nat)
    requires
        m >= 1,
    ensures
        n > 0 ==> outputs_after(n, m * 16000) == (n - 1) / (m as int) + 1,
        output_source(k, m * 16000) == k * m,
        output_weight(k, m * 16000) == 16000,
        n > 0 ==> chunk_points(0, n, m * 16000).len() == (n - 1) / (m as int) + 1,
        k < chunk_points(0, n, m * 16000).len() ==> chunk_points(0, n, m * 16000)[k as int]
            == (InterpolationPoint { frame: (k * m) as usize, weight: 16000 }),
{
    let r = m * 16000;
    assert(k * r == (k * m) * 16000) by (nonlinear_arith)
        requires
            r == m * 16000,
    ;
    assert(((k * m) * 16000 + 15999) / 16000 == k * m) by (nonlinear_arith);
    if n > 0 {
        let x = (n - 1) as int;
        assert(r > 0) by (nonlinear_arith)
            requires
                m >= 1,
                r == m * 16000,
        ;
        vstd::arithmetic::div_mod::lemma_fundamental_div_mod(x, m as int);
        vstd::arithmetic::div_mod::lemma_mod_pos_bound(x, m as int);
        let q = x / (m as int);
        let rem = x % (m as int);
        assert(x * 16000 == q * r + rem * 16000) by (nonlinear_arith)
            requires
                x == m * q + rem,
                r == m * 16000,
        ;
        assert(rem * 16000 < r) by (nonlinear_arith)
            requires
                rem < m,
                r == m * 16000,
        ;
        vstd::arithmetic::div_mod::lemma_fundamental_div_mod_converse(
            x * 16000,
            r as int,
            q,
            rem * 16000,
        );
    }
}

proof fn lemma_mul_step(k: nat, r: nat)
    ensures
        (k + 1) * r == k * r + r,
{
    assert((k + 1) * r == k * r + r) by (nonlinear_arith);
}

proof fn lemma_mul_mono(a: nat, b: nat, r: nat)
    requires
        a <= b,
    ensures
        a * r <= b * r,
{
    assert(a * r <= b * r) by (nonlinear_arith)
        requires
            a <= b,
    ;
}

proof fn lemma_outputs_after_one(r: nat)
    requires
        r > 0,
    ensures
        outputs_after(1, r) == 1,
{
    assert(0int / (r as int) == 0) by (nonlinear_arith)
        requires
            r > 0,
    ;
}

/// An output due in `((n - 1) * 16000, n * 16000]` is produced at input `n`.
proof fn lemma_source_of_due(k: nat, r: nat, n: nat)
    requires
        n > 0,
        (n - 1) * 16000 < k * r <= n * 16000,
    ensures
        output_source(k, r) == n,
{
    let x = k * r;
    assert((x + 15999) / 16000 == n);
}

/// `k` outputs are due after `n` inputs exactly when output `k - 1` is due by
/// the time of input `n - 1` and output `k` is not.
proof fn lemma_outputs_after_char(n: nat, k: nat, r: nat)
    requires
        n > 0,
        k > 0,
        r > 0,
        (k - 1) * r <= (n - 1) * 16000 < k * r,
    ensures
        outputs_after(n, r) == k,
{
    let x = ((n - 1) * 16000) as int;
    let q = (k - 1) as int;
    lemma_mul_step((k - 1) as nat, r);
    vstd::arithmetic::div_mod::lemma_fundamental_div_mod_converse(x, r as int, q, x - q * r);
}

} // verus!
