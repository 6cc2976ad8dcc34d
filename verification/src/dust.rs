//! The dust saturators: curve-driven index remapping into recent history.
//!
//! Each processed sample is replaced by a sample found a small distance away
//! in the recent signal. The distance comes from a warp of the reference
//! sample's amplitude: `floor(|reference * amount|^curve * amount^(1-curve))`,
//! clamped to `[0, amount]` and optionally inverted to `amount - offset`.
//! The fractional-exponent warp is a float computation that the caller hands
//! in as a ready integer (`warp`); for `curve = 1` the warp is exactly
//! `floor(|reference * amount|)`, which `warp_unit_curve` computes here in
//! fixed point, giving a fully verified path.
//!
//! Two variants are supported: a ring-buffer variant that reads backward
//! into a per-channel history ring (with an `invert` flag), and a
//! block-deep-copy variant that keeps the previous input block and reads
//! forward into it, spilling into the current block when the offset runs
//! past its end (and clamping to the last available sample beyond that).

use vstd::prelude::*;

verus! {

use crate::MAX_CAPACITY;
use crate::MAX_MAG;
use crate::SCALE;
use crate::abs_val;
use crate::all_zero;
use crate::seq_int;
use crate::history::HistoryBuffer;
use vstd::arithmetic::div_mod::lemma_div_pos_is_pos;
use vstd::arithmetic::div_mod::lemma_div_is_ordered;
use vstd::arithmetic::mul::lemma_mul_inequality;
use vstd::arithmetic::mul::lemma_mul_nonnegative;

/// The final lookup offset: the warp clamped to `[0, amount]`, mirrored to
/// `amount - offset` when `invert` is set.
pub open spec fn spec_offset(warp: int, amount: int, invert: bool) -> int {
    let o = if warp > amount {
        amount
    } else {
        warp
    };
    if invert {
        amount - o
    } else {
        o
    }
}

/// The curve warp at `curve = 1`: exactly `floor(|reference * amount|)`,
/// with `reference` in fixed point (the `amount^(1 - curve)` factor is
/// `amount^0 == 1` and contributes nothing).
pub open spec fn unit_warp(reference: int, amount: int) -> int {
    (abs_val(reference) * amount) / (SCALE as int)
}

/// Clamp a warp to a usable offset and apply the invert flag.
pub fn clamp_offset(warp: u64, amount: u64, invert: bool) -> (o: u64)
    ensures
        o as int == spec_offset(warp as int, amount as int, invert),
        o <= amount,
{
    let c = if warp > amount {
        amount
    } else {
        warp
    };
    if invert {
        amount - c
    } else {
        c
    }
}

/// Law: the invert flag yields exactly the mirrored offset `amount - offset`,
/// and the result still lies in `[0, amount]`.
pub proof fn lemma_invert_mirror(warp: int, amount: int)
    requires
        0 <= warp,
        0 <= amount,
    ensures
        spec_offset(warp, amount, true) == amount - spec_offset(warp, amount, false),
        0 <= spec_offset(warp, amount, true) <= amount,
        0 <= spec_offset(warp, amount, false) <= amount,
{
}

/// The `curve = 1` warp, executable: `floor(|reference * amount|)` in fixed
/// point.
pub fn warp_unit_curve(reference: i64, amount: u64) -> (w: u64)
    requires
        -MAX_MAG <= reference <= MAX_MAG,
        amount <= MAX_CAPACITY as u64,
    ensures
        w as int == unit_warp(reference as int, amount as int),
{
    let m: u64 = if reference >= 0 {
        reference as u64
    } else {
        (-reference) as u64
    };
    proof {
        lemma_mul_nonnegative(m as int, amount as int);
        lemma_mul_inequality(m as int, MAX_MAG as int, amount as int);
        lemma_mul_inequality(amount as int, MAX_CAPACITY as int, MAX_MAG as int);
        assert(m as int * amount as int == amount as int * m as int) by (nonlinear_arith);
        assert(MAX_MAG as int * amount as int == amount as int * MAX_MAG as int)
            by (nonlinear_arith);
        lemma_div_pos_is_pos(m as int * amount as int, SCALE as int);
        lemma_div_is_ordered(
            m as int * amount as int,
            MAX_MAG as int * MAX_CAPACITY as int,
            SCALE as int,
        );
    }
    (m * amount) / (SCALE as u64)
}

/// History after one ring step: grow during warm-up, else evict the oldest.
pub open spec fn ring_next_hist(h: Seq<int>, cap: int, x: int) -> Seq<int> {
    if h.len() < cap {
        h.push(x)
    } else {
        h.drop_first().push(x)
    }
}

/// Output of one ring step: the input itself during warm-up, else the sample
/// `offset` positions behind the newest one.
pub open spec fn ring_output(
    h: Seq<int>,
    cap: int,
    x: int,
    warp: int,
    amount: int,
    invert: bool,
) -> int {
    if h.len() < cap {
        x
    } else {
        let a = if amount > cap - 1 {
            cap - 1
        } else {
            amount
        };
        let off = spec_offset(warp, a, invert);
        h.drop_first().push(x)[cap - 1 - off]
    }
}

/// Output of one ring step with the warp taken at `curve = 1` from the
/// oldest buffered sample.
pub open spec fn ring_unit_output(h: Seq<int>, cap: int, x: int, amount: int, invert: bool) -> int {
    if h.len() < cap {
        x
    } else {
        let a = if amount > cap - 1 {
            cap - 1
        } else {
            amount
        };
        ring_output(h, cap, x, unit_warp(h[0], a), amount, invert)
    }
}

/// Law: silence is a fixed point of the ring saturator — after a warm-up on
/// zeros, a zero input yields a zero output for every warp, amount and
/// invert flag.
pub proof fn lemma_ring_zero(h: Seq<int>, cap: int, warp: int, amount: int, invert: bool)
    requires
        2 <= cap,
        h.len() == cap,
        all_zero(h),
        0 <= warp,
        0 <= amount,
    ensures
        ring_output(h, cap, 0, warp, amount, invert) == 0,
{
    let a = if amount > cap - 1 {
        cap - 1
    } else {
        amount
    };
    lemma_invert_mirror(warp, a);
    let off = spec_offset(warp, a, invert);
    let h2 = h.drop_first().push(0);
    assert(h2[cap - 1 - off] == 0);
}

/// The ring-buffer dust saturator: one history ring per channel.
pub struct DustRing {
    channels: Vec<HistoryBuffer>,
    cap: usize,
}

fn hist_mut(v: &mut Vec<HistoryBuffer>, i: usize) -> (h: &mut HistoryBuffer)
    requires
        i < old(v).len(),
    ensures
        *h == old(v)@[i as int],
        final(v)@ == old(v)@.update(i as int, *final(h)),
{
    &mut v[i]
}

impl DustRing {
    pub closed spec fn num_channels(&self) -> int {
        self.channels.len() as int
    }

    pub closed spec fn cap(&self) -> int {
        self.cap as int
    }

    /// Buffered samples of channel `ch`, oldest first.
    pub closed spec fn channel(&self, ch: int) -> Seq<int> {
        self.channels@[ch]@
    }

    pub closed spec fn wf(&self) -> bool {
        &&& 2 <= self.cap <= MAX_CAPACITY
        &&& forall|ch: int|
            0 <= ch < self.channels@.len() ==> (#[trigger] self.channels@[ch]).wf()
                && self.channels@[ch].cap() == self.cap as nat
    }

    pub proof fn lemma_wf_facts(&self)
        requires
            self.wf(),
        ensures
            2 <= self.cap() <= MAX_CAPACITY,
            forall|ch: int|
                0 <= ch < self.num_channels() ==> (#[trigger] self.channel(ch)).len()
                    <= self.cap(),
            forall|ch: int, i: int|
                0 <= ch < self.num_channels() && 0 <= i < self.channel(ch).len() ==> -MAX_MAG
                    <= #[trigger] self.channel(ch)[i] <= MAX_MAG,
    {
        assert forall|ch: int| 0 <= ch < self.num_channels() implies (#[trigger] self.channel(
            ch,
        )).len() <= self.cap() by {
            self.channels@[ch].lemma_wf_facts();
        }
        assert forall|ch: int, i: int|
            0 <= ch < self.num_channels() && 0 <= i < self.channel(ch).len() implies -MAX_MAG
            <= #[trigger] self.channel(ch)[i] <= MAX_MAG by {
            self.channels@[ch].lemma_wf_facts();
        }
    }

    pub fn new(num_channels: usize, capacity: usize) -> (r: Self)
        requires
            2 <= capacity <= MAX_CAPACITY,
        ensures
            r.wf(),
            r.num_channels() == num_channels as int,
            r.cap() == capacity as int,
            forall|ch: int|
                0 <= ch < num_channels as int ==> (#[trigger] r.channel(ch)) == Seq::<
                    int,
                >::empty(),
    {
        let mut channels: Vec<HistoryBuffer> = Vec::new();
        let mut i: usize = 0;
        while i < num_channels
            invariant
                2 <= capacity <= MAX_CAPACITY,
                i <= num_channels,
                channels@.len() == i as int,
                forall|ch: int|
                    0 <= ch < i as int ==> (#[trigger] channels@[ch]).wf() && channels@[ch].cap()
                        == capacity as nat && channels@[ch]@ == Seq::<int>::empty(),
            decreases num_channels - i,
        {
            channels.push(HistoryBuffer::new(capacity));
            i = i + 1;
        }
        DustRing { channels, cap: capacity }
    }

    /// The reference sample the curve warp reads: the oldest buffered sample
    /// of channel `ch`, available once the channel is past warm-up.
    pub fn reference(&self, ch: usize) -> (r: Option<i64>)
        requires
            self.wf(),
            (ch as int) < self.num_channels(),
        ensures
            ((r is Some) == (self.channel(ch as int).len() == self.cap())),
            (r matches Some(v) ==> v as int == self.channel(ch as int)[0]),
    {
        let h = &self.channels[ch];
        if h.full() {
            Some(h.read(0))
        } else {
            None
        }
    }

    /// Process one sample on channel `ch` with a caller-supplied warp: push
    /// `x` into the ring and emit the sample `offset` positions behind it.
    pub fn process_sample(&mut self, ch: usize, x: i64, warp: u64, amount: u64, invert: bool) -> (out:
        i64)
        requires
            old(self).wf(),
            (ch as int) < old(self).num_channels(),
            -MAX_MAG <= x <= MAX_MAG,
        ensures
            final(self).wf(),
            final(self).num_channels() == old(self).num_channels(),
            final(self).cap() == old(self).cap(),
            forall|j: int|
                0 <= j < old(self).num_channels() && j != ch as int ==> final(self).channel(j)
                    == old(self).channel(j),
            final(self).channel(ch as int) == ring_next_hist(
                old(self).channel(ch as int),
                old(self).cap(),
                x as int,
            ),
            out as int == ring_output(
                old(self).channel(ch as int),
                old(self).cap(),
                x as int,
                warp as int,
                amount as int,
                invert,
            ),
            -MAX_MAG <= out <= MAX_MAG,
    {
        proof {
            assert(old(self).channels@[ch as int].wf());
            assert(old(self).channels@[ch as int].cap() == old(self).cap as nat);
        }
        let h = hist_mut(&mut self.channels, ch);
        proof {
            h.lemma_wf_facts();
        }
        if !h.full() {
            h.push_grow(x);
            x
        } else {
            let cap = h.capacity();
            let cm1 = cap - 1;
            let a = if amount > cm1 as u64 {
                cm1 as u64
            } else {
                amount
            };
            let off = clamp_offset(warp, a, invert);
            h.push_evict(x);
            h.read(cm1 - (off as usize))
        }
    }

    /// Process one sample at `curve = 1`: the warp is computed here, in
    /// fixed point, from the oldest buffered sample — a fully verified path.
    pub fn process_sample_unit_curve(&mut self, ch: usize, x: i64, amount: u64, invert: bool) -> (out:
        i64)
        requires
            old(self).wf(),
            (ch as int) < old(self).num_channels(),
            -MAX_MAG <= x <= MAX_MAG,
        ensures
            final(self).wf(),
            final(self).num_channels() == old(self).num_channels(),
            final(self).cap() == old(self).cap(),
            forall|j: int|
                0 <= j < old(self).num_channels() && j != ch as int ==> final(self).channel(j)
                    == old(self).channel(j),
            final(self).channel(ch as int) == ring_next_hist(
                old(self).channel(ch as int),
                old(self).cap(),
                x as int,
            ),
            out as int == ring_unit_output(
                old(self).channel(ch as int),
                old(self).cap(),
                x as int,
                amount as int,
                invert,
            ),
            -MAX_MAG <= out <= MAX_MAG,
    {
        proof {
            self.lemma_wf_facts();
        }
        let hb = &self.channels[ch];
        let w = if hb.full() {
            let cm1 = hb.capacity() - 1;
            let a = if amount > cm1 as u64 {
                cm1 as u64
            } else {
                amount
            };
            let rv = hb.read(0);
            warp_unit_curve(rv, a)
        } else {
            0
        };
        self.process_sample(ch, x, w, amount, invert)
    }
}

/// The block-deep-copy dust saturator: keeps the whole previous input block
/// and reads forward into it.
pub struct DustBlock {
    prev: Vec<i64>,
}

/// Where a forward lookup lands: in the previous block, past its end in the
/// current block, or clamped to the current block's last sample.
pub open spec fn block_lookup(prev: Seq<int>, cur: Seq<int>, i: int, off: int) -> int
    recommends
        0 <= i < cur.len(),
        0 <= off,
{
    let j = i + off;
    if j < prev.len() {
        prev[j]
    } else if j - prev.len() < cur.len() {
        cur[j - prev.len()]
    } else {
        cur[cur.len() - 1]
    }
}

/// Law: silence in, silence out for the block saturator — when both the
/// retained block and the current block are silent, every lookup is zero.
pub proof fn lemma_block_lookup_zero(prev: Seq<int>, cur: Seq<int>, i: int, off: int)
    requires
        all_zero(prev),
        all_zero(cur),
        0 <= i < cur.len(),
        0 <= off,
    ensures
        block_lookup(prev, cur, i, off) == 0,
{
}

fn copy_samples(src: &Vec<i64>) -> (r: Vec<i64>)
    ensures
        r@ == src@,
{
    let mut r: Vec<i64> = Vec::new();
    let mut i: usize = 0;
    while i < src.len()
        invariant
            i <= src@.len(),
            r@ == src@.subrange(0, i as int),
        decreases src@.len() - i,
    {
        r.push(src[i]);
        proof {
            assert(r@ =~= src@.subrange(0, i + 1));
        }
        i = i + 1;
    }
    proof {
        assert(r@ =~= src@);
    }
    r
}

impl DustBlock {
    /// The retained previous block.
    pub closed spec fn prev_view(&self) -> Seq<int> {
        seq_int(self.prev@)
    }

    pub closed spec fn wf(&self) -> bool {
        forall|i: int|
            0 <= i < self.prev@.len() ==> -MAX_MAG <= #[trigger] self.prev@[i] <= MAX_MAG
    }

    pub fn new() -> (r: Self)
        ensures
            r.wf(),
            r.prev_view() == Seq::<int>::empty(),
    {
        let r = DustBlock { prev: Vec::new() };
        proof {
            assert(r.prev_view() =~= Seq::<int>::empty());
        }
        r
    }

    pub fn prev_len(&self) -> (n: usize)
        ensures
            n as int == self.prev_view().len(),
    {
        self.prev.len()
    }

    /// A sample of the retained previous block: the reference the curve
    /// warp for position `i` reads.
    pub fn prev_at(&self, i: usize) -> (v: i64)
        requires
            self.wf(),
            (i as int) < self.prev_view().len(),
        ensures
            v as int == self.prev_view()[i as int],
            -MAX_MAG <= v <= MAX_MAG,
    {
        self.prev[i]
    }

    /// Process one block with caller-supplied warps, one per sample. The
    /// first block ever seen passes through unchanged (warm-up: there is no
    /// previous block to read); afterwards sample `i` is replaced by the
    /// sample `offset` positions forward from position `i` of the previous
    /// block. The current block is retained for the next call.
    pub fn process_block(&mut self, cur: &Vec<i64>, warps: &Vec<u64>, amount: u64) -> (out: Vec<
        i64,
    >)
        requires
            old(self).wf(),
            cur@.len() > 0,
            warps@.len() == cur@.len(),
            forall|i: int| 0 <= i < cur@.len() ==> -MAX_MAG <= #[trigger] cur@[i] <= MAX_MAG,
            amount <= MAX_CAPACITY as u64,
            cur@.len() + MAX_CAPACITY <= usize::MAX as int,
        ensures
            final(self).wf(),
            final(self).prev_view() == seq_int(cur@),
            out@.len() == cur@.len(),
            (old(self).prev_view().len() == 0 ==> out@ == cur@),
            (old(self).prev_view().len() > 0 ==> forall|i: int|
                0 <= i < cur@.len() ==> #[trigger] out@[i] as int == block_lookup(
                    old(self).prev_view(),
                    seq_int(cur@),
                    i,
                    spec_offset(warps@[i] as int, amount as int, false),
                )),
            forall|i: int| 0 <= i < out@.len() ==> -MAX_MAG <= #[trigger] out@[i] <= MAX_MAG,
    {
        let out = if self.prev.len() == 0 {
            copy_samples(cur)
        } else {
            let mut o: Vec<i64> = Vec::new();
            let n = cur.len();
            let mut i: usize = 0;
            while i < n
                invariant
                    self.wf(),
                    self.prev_view() == old(self).prev_view(),
                    self.prev@.len() > 0,
                    n as int == cur@.len(),
                    warps@.len() == cur@.len(),
                    cur@.len() + MAX_CAPACITY <= usize::MAX as int,
                    amount <= MAX_CAPACITY as u64,
                    forall|k: int| 0 <= k < cur@.len() ==> -MAX_MAG <= #[trigger] cur@[k] <= MAX_MAG,
                    0 <= i <= n,
                    o@.len() == i as int,
                    forall|k: int|
                        0 <= k < i as int ==> #[trigger] o@[k] as int == block_lookup(
                            self.prev_view(),
                            seq_int(cur@),
                            k,
                            spec_offset(warps@[k] as int, amount as int, false),
                        ),
                    forall|k: int| 0 <= k < o@.len() ==> -MAX_MAG <= #[trigger] o@[k] <= MAX_MAG,
                decreases n - i,
            {
                let off = clamp_offset(warps[i], amount, false);
                let j = i + (off as usize);
                let v = if j < self.prev.len() {
                    self.prev[j]
                } else {
                    let k = j - self.prev.len();
                    if k < n {
                        cur[k]
                    } else {
                        cur[n - 1]
                    }
                };
                o.push(v);
                i = i + 1;
            }
            o
        };
        self.prev = copy_samples(cur);
        proof {
            assert(self.prev_view() =~= seq_int(cur@));
            if old(self).prev_view().len() == 0 {
                assert(out@ =~= cur@);
            }
        }
        out
    }
}

} // verus!
