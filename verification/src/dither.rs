//! Fractional-carry ("dither") rounding of a non-integer target offset.
//!
//! The target `amount` arrives in fixed point. Plain rounding truncates to
//! `amount / SCALE` every sample; with dithering enabled the fractional part
//! is added to a running carry, and whenever the carry crosses one whole unit
//! it is spent on raising the offset by one for that sample only. A single
//! step is exactly the Euclidean division of `carry + amount` by `SCALE`,
//! which is what makes the long-run average of the emitted offsets track the
//! requested amount.

use vstd::prelude::*;

verus! {

use crate::SCALE;
use crate::abs_val;
use vstd::arithmetic::div_mod::lemma_fundamental_div_mod;
use vstd::arithmetic::div_mod::lemma_fundamental_div_mod_converse;
use vstd::arithmetic::div_mod::lemma_mod_division_less_than_divisor;
use vstd::arithmetic::div_mod::lemma_div_pos_is_pos;

/// Integer offset emitted for one sample.
pub open spec fn dither_offset(carry: int, amount: int, dither: bool) -> int {
    if dither {
        (carry + amount) / (SCALE as int)
    } else {
        amount / (SCALE as int)
    }
}

/// Carry left for the next sample.
pub open spec fn dither_carry(carry: int, amount: int, dither: bool) -> int {
    if dither {
        (carry + amount) % (SCALE as int)
    } else {
        carry
    }
}

pub struct DitherAccumulator {
    carry: u64,
}

impl DitherAccumulator {
    /// Running fractional remainder, in fixed point.
    pub closed spec fn carry(&self) -> int {
        self.carry as int
    }

    pub closed spec fn wf(&self) -> bool {
        0 <= self.carry < SCALE as u64
    }

    pub proof fn lemma_wf_facts(&self)
        requires
            self.wf(),
        ensures
            0 <= self.carry() < SCALE as int,
    {
    }

    pub fn new() -> (r: Self)
        ensures
            r.wf(),
            r.carry() == 0,
    {
        DitherAccumulator { carry: 0 }
    }

    /// Round `amount` down to a whole offset; with `dither` the fractional
    /// part accumulates and every crossing of one whole unit raises the
    /// offset by one for this sample only.
    pub fn next_offset(&mut self, amount: i64, dither: bool) -> (off: u64)
        requires
            old(self).wf(),
            0 <= amount,
        ensures
            final(self).wf(),
            off as int == dither_offset(old(self).carry(), amount as int, dither),
            final(self).carry() == dither_carry(old(self).carry(), amount as int, dither),
    {
        let au = amount as u64;
        let s = SCALE as u64;
        let q = au / s;
        let r = au % s;
        if dither {
            let t = self.carry + r;
            proof {
                lemma_fundamental_div_mod(au as int, s as int);
                if t >= s {
                    lemma_fundamental_div_mod_converse(
                        old(self).carry() + au as int,
                        s as int,
                        q as int + 1,
                        t as int - s as int,
                    );
                } else {
                    lemma_fundamental_div_mod_converse(
                        old(self).carry() + au as int,
                        s as int,
                        q as int,
                        t as int,
                    );
                }
            }
            if t >= s {
                self.carry = t - s;
                q + 1
            } else {
                self.carry = t;
                q
            }
        } else {
            q
        }
    }
}

/// Total of the offsets emitted by a dithered run over `amounts`.
pub open spec fn run_total(carry: int, amounts: Seq<int>) -> int
    decreases amounts.len(),
{
    if amounts.len() == 0 {
        0
    } else {
        dither_offset(carry, amounts[0], true) + run_total(
            dither_carry(carry, amounts[0], true),
            amounts.drop_first(),
        )
    }
}

/// Carry left after a dithered run over `amounts`.
pub open spec fn run_carry(carry: int, amounts: Seq<int>) -> int
    decreases amounts.len(),
{
    if amounts.len() == 0 {
        carry
    } else {
        run_carry(dither_carry(carry, amounts[0], true), amounts.drop_first())
    }
}

pub open spec fn seq_sum(s: Seq<int>) -> int
    decreases s.len(),
{
    if s.len() == 0 {
        0
    } else {
        s[0] + seq_sum(s.drop_first())
    }
}

/// Law: dithered rounding conserves the running total. Over any run,
/// `SCALE` times the sum of the emitted offsets plus the final carry equals
/// the sum of the requested amounts plus the initial carry, and the carry
/// always stays in `[0, SCALE)`. Hence over `n` samples the average emitted
/// offset differs from the average requested amount by less than `SCALE / n`.
pub proof fn lemma_dither_conservation(carry: int, amounts: Seq<int>)
    requires
        0 <= carry < SCALE as int,
        forall|i: int| 0 <= i < amounts.len() ==> 0 <= #[trigger] amounts[i],
    ensures
        (SCALE as int) * run_total(carry, amounts) + run_carry(carry, amounts) == seq_sum(amounts)
            + carry,
        0 <= run_carry(carry, amounts) < SCALE as int,
    decreases amounts.len(),
{
    if amounts.len() == 0 {
    } else {
        let a = amounts[0];
        let c2 = dither_carry(carry, a, true);
        lemma_fundamental_div_mod(carry + a, SCALE as int);
        lemma_mod_division_less_than_divisor(carry + a, SCALE as int);
        lemma_div_pos_is_pos(carry + a, SCALE as int);
        assert(forall|i: int|
            0 <= i < amounts.drop_first().len() ==> 0 <= #[trigger] amounts.drop_first()[i]);
        lemma_dither_conservation(c2, amounts.drop_first());
    }
}

/// A run of `n` equal amounts.
pub open spec fn constant_amounts(amount: int, n: int) -> Seq<int> {
    Seq::new(n as nat, |i: int| amount)
}

proof fn lemma_seq_sum_constant(amount: int, n: int)
    requires
        0 <= n,
    ensures
        seq_sum(constant_amounts(amount, n)) == n * amount,
    decreases n,
{
    let s = constant_amounts(amount, n);
    if n > 0 {
        lemma_seq_sum_constant(amount, n - 1);
        assert(s.drop_first() =~= constant_amounts(amount, n - 1));
        assert(s[0] == amount);
        assert(seq_sum(s) == amount + seq_sum(constant_amounts(amount, n - 1)));
        assert(amount + (n - 1) * amount == n * amount) by (nonlinear_arith);
    } else {
        assert(seq_sum(s) == 0);
        assert(n * amount == 0) by (nonlinear_arith)
            requires
                n == 0,
        ;
    }
}

/// Law: over a run of `n` samples with a constant dithered amount and a
/// fresh carry, `SCALE` times the total emitted offset lands within one
/// `SCALE` of `n * amount` — the average offset converges to the requested
/// amount with error below `1 / n`.
pub proof fn lemma_dither_average(amount: int, n: int)
    requires
        0 <= amount,
        0 <= n,
    ensures
        abs_val(
            (SCALE as int) * run_total(0, constant_amounts(amount, n)) - n * amount,
        ) < SCALE as int,
{
    let xs = constant_amounts(amount, n);
    lemma_dither_conservation(0, xs);
    lemma_seq_sum_constant(amount, n);
}

} // verus!
