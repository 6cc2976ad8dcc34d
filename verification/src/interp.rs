//! The linear interpolator: an adaptive piecewise-linear reconstructor.
//!
//! Each channel keeps a history buffer of the most recent samples. While a
//! detected segment is being replayed the engine just walks the stored line;
//! when the segment runs out it re-runs breakpoint detection on the buffered
//! samples: the dither accumulator rounds the continuous `amount` to a whole
//! span, the detector finds the greedy longest prefix of that span within
//! `tolerance`, and the line over that prefix becomes the next segment. In
//! both cases the incoming sample is pushed into the history (evicting the
//! oldest) and the emitted sample is the current value of the line. Before
//! the history first fills, samples pass through unchanged.
//!
//! The whole per-sample transition is written down as a spec function over a
//! ghost channel model, and `process_sample` / `process_block` are proved to
//! follow it exactly.

use vstd::prelude::*;

verus! {

use crate::MAX_CAPACITY;
use crate::MAX_MAG;
use crate::SCALE;
use crate::all_zero;
use crate::seq_int;
use crate::history::HistoryBuffer;
use crate::dither::DitherAccumulator;
use crate::dither::dither_offset;
use crate::dither::dither_carry;
use crate::segment::ramp;
use crate::segment::ramp_exec;
use crate::segment::end_point;
use crate::segment::find_end_point;
use crate::segment::lemma_end_point_from_range;
use vstd::arithmetic::div_mod::lemma_mod_division_less_than_divisor;
use vstd::arithmetic::div_mod::lemma_div_of0;

/// Mathematical model of one channel's state.
pub ghost struct ChannelModel {
    /// Buffered samples, oldest first.
    pub hist: Seq<int>,
    /// Fixed history capacity.
    pub cap: int,
    /// Output value the current segment started from.
    pub anchor: int,
    /// Total rise of the current segment over its whole length.
    pub delta: int,
    /// Length of the current segment, in samples.
    pub seg_len: int,
    /// How far into the current segment the channel is.
    pub seg_pos: int,
    /// Fractional carry of the dither accumulator.
    pub carry: int,
}

pub open spec fn model_wf(m: ChannelModel) -> bool {
    &&& 2 <= m.cap <= MAX_CAPACITY
    &&& m.hist.len() <= m.cap
    &&& forall|i: int| 0 <= i < m.hist.len() ==> -MAX_MAG <= #[trigger] m.hist[i] <= MAX_MAG
    &&& -MAX_MAG <= m.anchor <= MAX_MAG
    &&& -2 * MAX_MAG <= m.delta <= 2 * MAX_MAG
    &&& 1 <= m.seg_len <= m.cap
    &&& 0 <= m.seg_pos < m.seg_len
    &&& 0 <= m.carry < SCALE as int
}

/// The effective span is clamped to `[1, cap - 1]` before it is used: an
/// amount rounding to zero would make the gradient undefined, and a larger
/// one would index outside the history.
pub open spec fn clamp_span(off: int, cap: int) -> int {
    if off < 1 {
        1
    } else if off > cap - 1 {
        cap - 1
    } else {
        off
    }
}

/// The sample the channel emits for input `x`.
pub open spec fn step_output(m: ChannelModel, x: int, amount: int, tol: int, dither: bool) -> int {
    if m.hist.len() < m.cap {
        x
    } else if m.seg_pos + 1 < m.seg_len {
        m.anchor + ramp(m.delta, m.seg_pos + 1, m.seg_len)
    } else {
        m.hist[0]
    }
}

/// The channel state after processing input `x`.
pub open spec fn step_state(
    m: ChannelModel,
    x: int,
    amount: int,
    tol: int,
    dither: bool,
) -> ChannelModel {
    if m.hist.len() < m.cap {
        ChannelModel { hist: m.hist.push(x), ..m }
    } else if m.seg_pos + 1 < m.seg_len {
        ChannelModel { hist: m.hist.drop_first().push(x), seg_pos: m.seg_pos + 1, ..m }
    } else {
        let off = dither_offset(m.carry, amount, dither);
        let span = clamp_span(off, m.cap);
        let ep = end_point(m.hist, span, tol);
        ChannelModel {
            hist: m.hist.drop_first().push(x),
            cap: m.cap,
            anchor: m.hist[0],
            delta: m.hist[ep] - m.hist[0],
            seg_len: ep,
            seg_pos: 0,
            carry: dither_carry(m.carry, amount, dither),
        }
    }
}

/// The channel state after the first `n` samples of `xs`.
pub open spec fn state_after(
    m: ChannelModel,
    xs: Seq<int>,
    n: int,
    amount: int,
    tol: int,
    dither: bool,
) -> ChannelModel
    decreases n,
{
    if n <= 0 {
        m
    } else {
        step_state(state_after(m, xs, n - 1, amount, tol, dither), xs[n - 1], amount, tol, dither)
    }
}

/// One step keeps the channel model well-formed.
pub proof fn lemma_step_preserves_wf(m: ChannelModel, x: int, amount: int, tol: int, dither: bool)
    requires
        model_wf(m),
        -MAX_MAG <= x <= MAX_MAG,
        0 <= amount,
        0 <= tol,
    ensures
        model_wf(step_state(m, x, amount, tol, dither)),
        step_state(m, x, amount, tol, dither).cap == m.cap,
        -3 * MAX_MAG <= step_output(m, x, amount, tol, dither) <= 3 * MAX_MAG,
{
    let m2 = step_state(m, x, amount, tol, dither);
    if m.hist.len() < m.cap {
    } else if m.seg_pos + 1 < m.seg_len {
        crate::segment::lemma_ramp_range(m.delta, m.seg_pos + 1, m.seg_len);
    } else {
        let off = dither_offset(m.carry, amount, dither);
        let span = clamp_span(off, m.cap);
        lemma_end_point_from_range(m.hist, span, tol, 1);
        if dither {
            lemma_mod_division_less_than_divisor(m.carry + amount, SCALE as int);
        }
    }
}

/// Law: during warm-up (history not yet at capacity) the engine is the
/// identity — the input sample is emitted unchanged and only the history
/// grows.
pub proof fn lemma_warmup_passthrough(m: ChannelModel, x: int, amount: int, tol: int, dither: bool)
    requires
        m.hist.len() < m.cap,
    ensures
        step_output(m, x, amount, tol, dither) == x,
        step_state(m, x, amount, tol, dither) == (ChannelModel { hist: m.hist.push(x), ..m }),
{
}

/// Law: for any channel state and any sample sequence, every sample that
/// arrives while the history is still below capacity comes back exactly as
/// it went in.
#[verifier::rlimit(100)]
pub proof fn lemma_warmup_block(
    m: ChannelModel,
    xs: Seq<int>,
    n: int,
    amount: int,
    tol: int,
    dither: bool,
)
    requires
        0 <= n <= xs.len(),
        m.hist.len() + n <= m.cap,
    ensures
        forall|j: int|
            0 <= j < n ==> step_output(
                state_after(m, xs, j, amount, tol, dither),
                xs[j],
                amount,
                tol,
                dither,
            ) == xs[j],
        state_after(m, xs, n, amount, tol, dither).hist.len() == m.hist.len() + n,
        state_after(m, xs, n, amount, tol, dither).cap == m.cap,
    decreases n,
{
    if n > 0 {
        lemma_warmup_block(m, xs, n - 1, amount, tol, dither);
        let prev = state_after(m, xs, n - 1, amount, tol, dither);
        assert(prev.hist.len() == m.hist.len() + n - 1);
        assert(prev.cap == m.cap);
        assert(prev.hist.len() < prev.cap);
        assert(state_after(m, xs, n, amount, tol, dither) == step_state(
            prev,
            xs[n - 1],
            amount,
            tol,
            dither,
        ));
        assert(step_output(prev, xs[n - 1], amount, tol, dither) == xs[n - 1]);
        assert forall|j: int|
            0 <= j < n implies step_output(
            state_after(m, xs, j, amount, tol, dither),
            xs[j],
            amount,
            tol,
            dither,
        ) == xs[j] by {
            if j < n - 1 {
            }
        }
    }
}

/// A channel that has only ever seen silence: history, anchor and gradient
/// are all zero.
pub open spec fn zeroed(m: ChannelModel) -> bool {
    &&& all_zero(m.hist)
    &&& m.anchor == 0
    &&& m.delta == 0
}

/// Law: silence is a fixed point. A zeroed channel fed a zero sample emits
/// zero and stays zeroed, whatever the parameters.
pub proof fn lemma_zero_in_zero_out(m: ChannelModel, amount: int, tol: int, dither: bool)
    requires
        model_wf(m),
        zeroed(m),
        0 <= amount,
        0 <= tol,
    ensures
        step_output(m, 0, amount, tol, dither) == 0,
        zeroed(step_state(m, 0, amount, tol, dither)),
{
    let m2 = step_state(m, 0, amount, tol, dither);
    if m.hist.len() < m.cap {
        assert(all_zero(m2.hist));
    } else if m.seg_pos + 1 < m.seg_len {
        lemma_div_of0(m.seg_len);
        assert(ramp(0, m.seg_pos + 1, m.seg_len) == 0);
        assert(all_zero(m2.hist));
    } else {
        let off = dither_offset(m.carry, amount, dither);
        let span = clamp_span(off, m.cap);
        let ep = end_point(m.hist, span, tol);
        lemma_end_point_from_range(m.hist, span, tol, 1);
        assert(m.hist[ep] == 0);
        assert(all_zero(m2.hist));
    }
}

/// A zeroed channel stays zeroed and well-formed over any run of zeros.
pub proof fn lemma_zero_block_state(
    m: ChannelModel,
    xs: Seq<int>,
    n: int,
    amount: int,
    tol: int,
    dither: bool,
)
    requires
        model_wf(m),
        zeroed(m),
        0 <= n <= xs.len(),
        forall|i: int| 0 <= i < xs.len() ==> #[trigger] xs[i] == 0,
        0 <= amount,
        0 <= tol,
    ensures
        zeroed(state_after(m, xs, n, amount, tol, dither)),
        model_wf(state_after(m, xs, n, amount, tol, dither)),
    decreases n,
{
    if n > 0 {
        lemma_zero_block_state(m, xs, n - 1, amount, tol, dither);
        let prev = state_after(m, xs, n - 1, amount, tol, dither);
        lemma_zero_in_zero_out(prev, amount, tol, dither);
        lemma_step_preserves_wf(prev, 0, amount, tol, dither);
        assert(xs[n - 1] == 0);
        assert(state_after(m, xs, n, amount, tol, dither) == step_state(
            prev,
            0,
            amount,
            tol,
            dither,
        ));
    }
}

/// Law: a zeroed channel fed a block of zeros emits only zeros and ends
/// zeroed — silence in, silence out, whatever the parameters.
pub proof fn lemma_zero_block(
    m: ChannelModel,
    xs: Seq<int>,
    n: int,
    amount: int,
    tol: int,
    dither: bool,
)
    requires
        model_wf(m),
        zeroed(m),
        0 <= n <= xs.len(),
        forall|i: int| 0 <= i < xs.len() ==> #[trigger] xs[i] == 0,
        0 <= amount,
        0 <= tol,
    ensures
        forall|j: int|
            0 <= j < n ==> step_output(
                state_after(m, xs, j, amount, tol, dither),
                xs[j],
                amount,
                tol,
                dither,
            ) == 0,
        zeroed(state_after(m, xs, n, amount, tol, dither)),
{
    lemma_zero_block_state(m, xs, n, amount, tol, dither);
    assert forall|j: int|
        0 <= j < n implies step_output(
        state_after(m, xs, j, amount, tol, dither),
        xs[j],
        amount,
        tol,
        dither,
    ) == 0 by {
        lemma_zero_block_state(m, xs, j, amount, tol, dither);
        lemma_zero_in_zero_out(state_after(m, xs, j, amount, tol, dither), amount, tol, dither);
    }
}

struct LinChannel {
    hist: HistoryBuffer,
    anchor: i64,
    delta: i64,
    seg_len: usize,
    seg_pos: usize,
    dither: DitherAccumulator,
}

impl LinChannel {
    spec fn model(&self) -> ChannelModel {
        ChannelModel {
            hist: self.hist@,
            cap: self.hist.cap() as int,
            anchor: self.anchor as int,
            delta: self.delta as int,
            seg_len: self.seg_len as int,
            seg_pos: self.seg_pos as int,
            carry: self.dither.carry(),
        }
    }

    spec fn wf(&self) -> bool {
        &&& self.hist.wf()
        &&& self.dither.wf()
        &&& model_wf(self.model())
    }

    fn new(capacity: usize) -> (r: Self)
        requires
            2 <= capacity <= MAX_CAPACITY,
        ensures
            r.wf(),
            r.model() == initial_model(capacity as int),
    {
        LinChannel {
            hist: HistoryBuffer::new(capacity),
            anchor: 0,
            delta: 0,
            seg_len: 1,
            seg_pos: 0,
            dither: DitherAccumulator::new(),
        }
    }

    fn step(&mut self, x: i64, amount: i64, tol: i64, dither: bool) -> (out: i64)
        requires
            old(self).wf(),
            -MAX_MAG <= x <= MAX_MAG,
            0 <= amount,
            0 <= tol,
        ensures
            final(self).wf(),
            final(self).model() == step_state(old(self).model(), x as int, amount as int, tol as int, dither),
            out as int == step_output(old(self).model(), x as int, amount as int, tol as int, dither),
            -3 * MAX_MAG <= out <= 3 * MAX_MAG,
    {
        proof {
            lemma_step_preserves_wf(old(self).model(), x as int, amount as int, tol as int, dither);
            self.hist.lemma_wf_facts();
            self.dither.lemma_wf_facts();
        }
        if !self.hist.full() {
            self.hist.push_grow(x);
            x
        } else if self.seg_pos + 1 < self.seg_len {
            self.seg_pos = self.seg_pos + 1;
            let r = ramp_exec(self.delta, self.seg_pos, self.seg_len);
            let out = self.anchor + r;
            self.hist.push_evict(x);
            out
        } else {
            let off_u = self.dither.next_offset(amount, dither);
            let cm1 = self.hist.capacity() - 1;
            let span = if off_u < 1 {
                1
            } else if off_u > cm1 as u64 {
                cm1
            } else {
                off_u as usize
            };
            let ep = find_end_point(&self.hist, span, tol);
            let anchor = self.hist.read(0);
            let endv = self.hist.read(ep);
            self.anchor = anchor;
            self.delta = endv - anchor;
            self.seg_len = ep;
            self.seg_pos = 0;
            self.hist.push_evict(x);
            anchor
        }
    }
}

/// Model of a channel that has processed nothing yet.
pub open spec fn initial_model(cap: int) -> ChannelModel {
    ChannelModel {
        hist: Seq::empty(),
        cap: cap,
        anchor: 0,
        delta: 0,
        seg_len: 1,
        seg_pos: 0,
        carry: 0,
    }
}

/// The per-channel piecewise-linear interpolation engine.
pub struct LinearInterpolator {
    channels: Vec<LinChannel>,
    cap: usize,
}

fn channel_mut(v: &mut Vec<LinChannel>, i: usize) -> (c: &mut LinChannel)
    requires
        i < old(v).len(),
    ensures
        *c == old(v)@[i as int],
        final(v)@ == old(v)@.update(i as int, *final(c)),
{
    &mut v[i]
}

impl LinearInterpolator {
    pub closed spec fn num_channels(&self) -> int {
        self.channels.len() as int
    }

    pub closed spec fn cap(&self) -> int {
        self.cap as int
    }

    /// Model of channel `ch`.
    pub closed spec fn channel(&self, ch: int) -> ChannelModel {
        self.channels@[ch].model()
    }

    pub closed spec fn wf(&self) -> bool {
        &&& 2 <= self.cap <= MAX_CAPACITY
        &&& forall|ch: int|
            0 <= ch < self.channels@.len() ==> (#[trigger] self.channels@[ch]).wf()
                && self.channels@[ch].model().cap == self.cap as int
    }

    pub proof fn lemma_wf_facts(&self)
        requires
            self.wf(),
        ensures
            2 <= self.cap() <= MAX_CAPACITY,
            forall|ch: int|
                0 <= ch < self.num_channels() ==> model_wf(#[trigger] self.channel(ch))
                    && self.channel(ch).cap == self.cap(),
    {
    }

    /// An engine with `num_channels` channels, each with a history of
    /// `capacity` samples, all in their initial (empty) state.
    pub fn new(num_channels: usize, capacity: usize) -> (r: Self)
        requires
            2 <= capacity <= MAX_CAPACITY,
        ensures
            r.wf(),
            r.num_channels() == num_channels as int,
            r.cap() == capacity as int,
            forall|ch: int|
                0 <= ch < num_channels as int ==> #[trigger] r.channel(ch) == initial_model(
                    capacity as int,
                ),
    {
        let mut channels: Vec<LinChannel> = Vec::new();
        let mut i: usize = 0;
        while i < num_channels
            invariant
                2 <= capacity <= MAX_CAPACITY,
                i <= num_channels,
                channels@.len() == i as int,
                forall|ch: int|
                    0 <= ch < i as int ==> (#[trigger] channels@[ch]).wf()
                        && channels@[ch].model() == initial_model(capacity as int),
            decreases num_channels - i,
        {
            channels.push(LinChannel::new(capacity));
            i = i + 1;
        }
        LinearInterpolator { channels, cap: capacity }
    }

    /// Process one sample on channel `ch`: feed `x` into the channel state
    /// and return the reconstructed sample that replaces it.
    pub fn process_sample(&mut self, ch: usize, x: i64, amount: i64, tol: i64, dither: bool) -> (out:
        i64)
        requires
            old(self).wf(),
            (ch as int) < old(self).num_channels(),
            -MAX_MAG <= x <= MAX_MAG,
            0 <= amount,
            0 <= tol,
        ensures
            final(self).wf(),
            final(self).num_channels() == old(self).num_channels(),
            final(self).cap() == old(self).cap(),
            final(self).channel(ch as int) == step_state(
                old(self).channel(ch as int),
                x as int,
                amount as int,
                tol as int,
                dither,
            ),
            forall|j: int|
                0 <= j < old(self).num_channels() && j != ch as int ==> final(self).channel(j)
                    == old(self).channel(j),
            out as int == step_output(
                old(self).channel(ch as int),
                x as int,
                amount as int,
                tol as int,
                dither,
            ),
            -3 * MAX_MAG <= out <= 3 * MAX_MAG,
    {
        let c = channel_mut(&mut self.channels, ch);
        let out = c.step(x, amount, tol, dither);
        out
    }

    /// Process a whole block on channel `ch`, in place: every sample is fed
    /// through the channel in order and replaced by the engine's output.
    pub fn process_block(
        &mut self,
        ch: usize,
        samples: &mut Vec<i64>,
        amount: i64,
        tol: i64,
        dither: bool,
    )
        requires
            old(self).wf(),
            (ch as int) < old(self).num_channels(),
            forall|i: int|
                0 <= i < old(samples)@.len() ==> -MAX_MAG <= #[trigger] old(samples)@[i]
                    <= MAX_MAG,
            0 <= amount,
            0 <= tol,
        ensures
            final(self).wf(),
            final(self).num_channels() == old(self).num_channels(),
            final(self).cap() == old(self).cap(),
            forall|j: int|
                0 <= j < old(self).num_channels() && j != ch as int ==> final(self).channel(j)
                    == old(self).channel(j),
            final(self).channel(ch as int) == state_after(
                old(self).channel(ch as int),
                seq_int(old(samples)@),
                old(samples)@.len() as int,
                amount as int,
                tol as int,
                dither,
            ),
            final(samples)@.len() == old(samples)@.len(),
            forall|j: int|
                0 <= j < old(samples)@.len() ==> final(samples)@[j] as int == step_output(
                    state_after(
                        old(self).channel(ch as int),
                        seq_int(old(samples)@),
                        j,
                        amount as int,
                        tol as int,
                        dither,
                    ),
                    seq_int(old(samples)@)[j],
                    amount as int,
                    tol as int,
                    dither,
                ),
    {
        let ghost m0 = self.channel(ch as int);
        let ghost xs = seq_int(samples@);
        let n = samples.len();
        let mut i: usize = 0;
        while i < n
            invariant
                self.wf(),
                (ch as int) < self.num_channels(),
                self.num_channels() == old(self).num_channels(),
                self.cap() == old(self).cap(),
                forall|j: int|
                    0 <= j < old(self).num_channels() && j != ch as int ==> self.channel(j) == old(
                        self,
                    ).channel(j),
                m0 == old(self).channel(ch as int),
                xs == seq_int(old(samples)@),
                self.channel(ch as int) == state_after(
                    m0,
                    xs,
                    i as int,
                    amount as int,
                    tol as int,
                    dither,
                ),
                n as int == old(samples)@.len(),
                samples@.len() == old(samples)@.len(),
                0 <= i <= n,
                forall|j: int|
                    i as int <= j < n as int ==> #[trigger] samples@[j] == old(samples)@[j],
                forall|j: int|
                    0 <= j < old(samples)@.len() ==> -MAX_MAG <= #[trigger] old(samples)@[j]
                        <= MAX_MAG,
                forall|j: int|
                    0 <= j < i as int ==> #[trigger] samples@[j] as int == step_output(
                        state_after(m0, xs, j, amount as int, tol as int, dither),
                        xs[j],
                        amount as int,
                        tol as int,
                        dither,
                    ),
                0 <= amount,
                0 <= tol,
            decreases n - i,
        {
            let x = samples[i];
            let out = self.process_sample(ch, x, amount, tol, dither);
            samples.set(i, out);
            i = i + 1;
        }
    }
}

} // verus!
