//! Which sampling stages a request asks for.

use vstd::arithmetic::power2::{lemma2_to64, lemma_pow2_adds, lemma_pow2_strictly_increases, pow2};
use vstd::prelude::*;

use crate::domain::entity::{ChatRequest, Real32};

verus! {

// ---------------------------------------------------------------------------
// 32-bit numbers
// ---------------------------------------------------------------------------

/// The bits of the number one.
pub const ONE_BITS: u32 = 0x3f80_0000;

/// The number one.
pub open spec fn one() -> Real32 {
    Real32 { bits: ONE_BITS }
}

/// The number zero.
pub open spec fn zero() -> Real32 {
    Real32 { bits: 0 }
}

/// The distance from one, in units of 2^-149, up to which a factor counts as
/// one: the 32-bit number nearest to a millionth, 8796093 / 2^43.
pub open spec fn tolerance() -> int {
    8796093 * (pow2(106) as int)
}

impl Real32 {
    /// The sign bit.
    pub open spec fn negative(self) -> bool {
        self.bits >= 0x8000_0000
    }

    /// The bits without the sign.
    pub open spec fn unsigned_bits(self) -> int {
        self.bits as int % 0x8000_0000
    }

    /// Not a number.
    pub open spec fn is_nan(self) -> bool {
        self.unsigned_bits() > 0x7f80_0000
    }

    /// Plus or minus infinity.
    pub open spec fn is_infinite(self) -> bool {
        self.unsigned_bits() == 0x7f80_0000
    }

    /// The value of a finite number, in units of 2^-149.
    pub open spec fn value(self) -> int {
        if self.negative() {
            -magnitude(self.unsigned_bits())
        } else {
            magnitude(self.unsigned_bits())
        }
    }

    /// The number is greater than zero.
    pub open spec fn is_positive(self) -> bool {
        !self.is_nan() && !self.negative() && (self.is_infinite() || self.value() > 0)
    }

    /// The number is zero or less than zero.
    pub open spec fn is_at_most_zero(self) -> bool {
        !self.is_nan() && if self.is_infinite() {
            self.negative()
        } else {
            self.value() <= 0
        }
    }

    /// The number differs from one by more than the tolerance.
    pub open spec fn differs_from_one(self) -> bool {
        !self.is_nan() && (self.is_infinite() || self.value() - one().value() > tolerance()
            || one().value() - self.value() > tolerance())
    }

    /// Whether the number is greater than zero.
    pub fn above_zero(&self) -> (r: bool)
        ensures
            r == self.is_positive(),
    {
        proof {
            if !self.negative() && self.unsigned_bits() <= 0x7f80_0000 && self.bits != 0 {
                lemma_magnitude_grows(0, self.unsigned_bits());
            }
        }
        0 < self.bits && self.bits <= 0x7f80_0000
    }

    /// Whether the number is zero or less than zero.
    pub fn not_above_zero(&self) -> (r: bool)
        ensures
            r == self.is_at_most_zero(),
    {
        proof {
            let u = self.unsigned_bits();
            if 0 < u <= 0x7f80_0000 {
                lemma_magnitude_grows(0, u);
            }
        }
        self.bits == 0 || (0x8000_0000 <= self.bits && self.bits <= 0xff80_0000)
    }

    /// Whether the number differs from one by more than the tolerance.
    pub fn far_from_one(&self) -> (r: bool)
        ensures
            r == self.differs_from_one(),
    {
        proof {
            lemma_far_from_one(*self);
        }
        self.bits <= 0x3f80_0000 - 17 || (0x3f80_0000 + 9 <= self.bits && self.bits <= 0x7f80_0000)
            || (0x8000_0000 <= self.bits && self.bits <= 0xff80_0000)
    }
}

/// The value of the finite number whose bits, without the sign, are `u`: the
/// lower 23 bits are the fraction, those above them the exponent.
pub open spec fn magnitude(u: int) -> int {
    let exponent = u / 0x80_0000;
    let fraction = u % 0x80_0000;
    if exponent == 0 {
        fraction
    } else {
        (0x80_0000 + fraction) * pow2((exponent - 1) as nat)
    }
}

/// Of two numbers the one with the greater bits is greater.
proof fn lemma_magnitude_grows(a: int, b: int)
    requires
        0 <= a < b,
    ensures
        magnitude(a) < magnitude(b),
{
    let ea = a / 0x80_0000;
    let fa = a % 0x80_0000;
    let eb = b / 0x80_0000;
    let fb = b % 0x80_0000;
    lemma2_to64();
    if ea == 0 {
        if eb > 0 {
            let p = pow2((eb - 1) as nat);
            if eb > 1 {
                lemma_pow2_strictly_increases(0, (eb - 1) as nat);
            }
            assert((0x80_0000 + fb) * p >= 0x80_0000) by (nonlinear_arith)
                requires
                    p >= 1,
                    fb >= 0,
            ;
        }
    } else {
        let p = pow2((ea - 1) as nat);
        let q = pow2((eb - 1) as nat);
        lemma_pow2_strictly_increases(0, ea as nat);
        if ea > 1 {
            lemma_pow2_strictly_increases(0, (ea - 1) as nat);
        }
        if ea == eb {
            assert((0x80_0000 + fa) * p < (0x80_0000 + fb) * p) by (nonlinear_arith)
                requires
                    fa < fb,
                    p >= 1,
            ;
        } else {
            lemma_pow2_adds((ea - 1) as nat, 1);
            if ea < eb - 1 {
                lemma_pow2_strictly_increases(ea as nat, (eb - 1) as nat);
            }
            assert(q >= 2 * p);
            assert((0x80_0000 + fa) * p < (0x80_0000 + fb) * q) by (nonlinear_arith)
                requires
                    0 <= fa < 0x80_0000,
                    fb >= 0,
                    p >= 1,
                    q >= 2 * p,
            ;
        }
    }
}

proof fn lemma_far_from_one(x: Real32)
    ensures
        x.differs_from_one() == (x.bits <= 0x3f80_0000 - 17 || 0x3f80_0000 + 9 <= x.bits
            <= 0x7f80_0000 || 0x8000_0000 <= x.bits <= 0xff80_0000),
{
    let one: int = 0x3f80_0000;
    let u = x.unsigned_bits();
    let p = pow2(106);
    lemma2_to64();
    lemma_pow2_adds(106, 19);
    lemma_pow2_adds(106, 20);
    lemma_pow2_strictly_increases(0, 106);
    assert(pow2(125) == 0x8_0000 * p);
    assert(pow2(126) == 0x10_0000 * p);
    assert(magnitude(one) == 0x80_0000 * (0x10_0000 * p));
    assert(magnitude(one - 17) == 0xff_ffef * (0x8_0000 * p));
    assert(magnitude(one - 16) == 0xff_fff0 * (0x8_0000 * p));
    assert(magnitude(one + 8) == 0x80_0008 * (0x10_0000 * p));
    assert(magnitude(one + 9) == 0x80_0009 * (0x10_0000 * p));
    assert(magnitude(0) == 0);
    if u > 0 {
        lemma_magnitude_grows(0, u);
    }
    if u < one - 17 {
        lemma_magnitude_grows(u, one - 17);
    }
    if one - 16 < u {
        lemma_magnitude_grows(one - 16, u);
    }
    if u < one + 8 {
        lemma_magnitude_grows(u, one + 8);
    }
    if one + 9 < u {
        lemma_magnitude_grows(one + 9, u);
    }
}

// ---------------------------------------------------------------------------
// The plan
// ---------------------------------------------------------------------------

/// Parameters for building a sampler.
pub struct SamplerParams {
    pub temperature: Option<Real32>,
    pub top_p: Option<Real32>,
    pub top_k: Option<u32>,
    pub min_p: Option<Real32>,
    pub repeat_penalty: Option<Real32>,
    pub frequency_penalty: Option<Real32>,
    pub presence_penalty: Option<Real32>,
    pub seed: Option<u32>,
}

/// One stage of a sampler chain.
#[derive(Debug, Clone, Copy, PartialEq, Eq, Structural)]
pub enum SamplerStage {
    /// Penalties on the last tokens: how many tokens, and the repeat,
    /// frequency and presence penalties.
    Penalties(i32, Real32, Real32, Real32),
    /// The `k` likeliest tokens.
    TopK(i32),
    /// The likeliest tokens up to a cumulative probability; at least so many.
    TopP(Real32, usize),
    /// The tokens above a relative probability; at least so many.
    MinP(Real32, usize),
    /// The likeliest token.
    Greedy,
    /// Scaling by a temperature.
    Temp(Real32),
    /// A token drawn by its probability, with a seed.
    Dist(u32),
}

/// A number, or the default where none is given.
pub open spec fn real_or(x: Option<Real32>, default: Real32) -> Real32 {
    match x {
        Some(r) => r,
        None => default,
    }
}

/// An unsigned number read as a signed one: the upper half is negative.
pub open spec fn as_signed(k: u32) -> int {
    if k < 0x8000_0000 {
        k as int
    } else {
        k - 0x1_0000_0000
    }
}

/// The penalties that are asked for: none where the repeat penalty is one and
/// no other is positive.
pub open spec fn penalty_stages(params: SamplerParams) -> Seq<SamplerStage> {
    let repeat = real_or(params.repeat_penalty, one());
    let freq = real_or(params.frequency_penalty, zero());
    let present = real_or(params.presence_penalty, zero());
    if repeat.differs_from_one() || freq.is_positive() || present.is_positive() {
        seq![SamplerStage::Penalties(64, repeat, freq, present)]
    } else {
        seq![]
    }
}

/// The filters that are asked for.
pub open spec fn filter_stages(params: SamplerParams) -> Seq<SamplerStage> {
    let k = match params.top_k {
        Some(k) => seq![SamplerStage::TopK(as_signed(k) as i32)],
        None => seq![],
    };
    let p = match params.top_p {
        Some(p) => seq![SamplerStage::TopP(p, 1)],
        None => seq![],
    };
    let m = match params.min_p {
        Some(p) => seq![SamplerStage::MinP(p, 1)],
        None => seq![],
    };
    k + p + m
}

/// How the token is chosen: the likeliest one where the temperature is zero,
/// less, or not given; else by chance, at a temperature that is not one.
pub open spec fn choice_stages(params: SamplerParams) -> Seq<SamplerStage> {
    let temp = real_or(params.temperature, zero());
    let seed = match params.seed {
        Some(s) => s,
        None => 0,
    };
    if temp.is_at_most_zero() {
        seq![SamplerStage::Greedy]
    } else if temp.differs_from_one() {
        seq![SamplerStage::Temp(temp), SamplerStage::Dist(seed)]
    } else {
        seq![SamplerStage::Dist(seed)]
    }
}

/// The stages that a request asks for, in order.
pub open spec fn sampler_plan(params: SamplerParams) -> Seq<SamplerStage> {
    penalty_stages(params) + filter_stages(params) + choice_stages(params)
}

impl SamplerParams {
    /// The parameters of a request.
    pub fn from_request(req: &ChatRequest) -> (params: Self)
        ensures
            params == (SamplerParams {
                temperature: req.temperature,
                top_p: req.top_p,
                top_k: req.top_k,
                min_p: req.min_p,
                repeat_penalty: req.repeat_penalty,
                frequency_penalty: req.frequency_penalty,
                presence_penalty: req.presence_penalty,
                seed: req.seed,
            }),
    {
        SamplerParams {
            temperature: req.temperature,
            top_p: req.top_p,
            top_k: req.top_k,
            min_p: req.min_p,
            repeat_penalty: req.repeat_penalty,
            frequency_penalty: req.frequency_penalty,
            presence_penalty: req.presence_penalty,
            seed: req.seed,
        }
    }
}

fn get_or(x: Option<Real32>, default: Real32) -> (r: Real32)
    ensures
        r == real_or(x, default),
{
    match x {
        Some(r) => r,
        None => default,
    }
}

/// Build the chain of sampling stages from [`SamplerParams`].
pub fn build_sampler(params: &SamplerParams) -> (stages: Vec<SamplerStage>)
    ensures
        stages@ == sampler_plan(*params),
{
    let mut stages: Vec<SamplerStage> = Vec::new();

    let repeat = get_or(params.repeat_penalty, Real32 { bits: ONE_BITS });
    let freq = get_or(params.frequency_penalty, Real32 { bits: 0 });
    let present = get_or(params.presence_penalty, Real32 { bits: 0 });
    if repeat.far_from_one() || freq.above_zero() || present.above_zero() {
        stages.push(SamplerStage::Penalties(64, repeat, freq, present));
    }
    assert(stages@ =~= penalty_stages(*params));

    if let Some(k) = params.top_k {
        let signed: i32 = if k < 0x8000_0000 {
            k as i32
        } else {
            (k as i64 - 0x1_0000_0000) as i32
        };
        stages.push(SamplerStage::TopK(signed));
    }
    if let Some(p) = params.top_p {
        stages.push(SamplerStage::TopP(p, 1));
    }
    if let Some(p) = params.min_p {
        stages.push(SamplerStage::MinP(p, 1));
    }
    assert(stages@ =~= penalty_stages(*params) + filter_stages(*params));

    let temp = get_or(params.temperature, Real32 { bits: 0 });
    if temp.not_above_zero() {
        stages.push(SamplerStage::Greedy);
    } else {
        if temp.far_from_one() {
            stages.push(SamplerStage::Temp(temp));
        }
        let seed: u32 = match params.seed {
            Some(s) => s,
            None => 0,
        };
        stages.push(SamplerStage::Dist(seed));
    }
    assert(stages@ =~= sampler_plan(*params));
    stages
}

/// A stage that chooses the token.
pub open spec fn chooses(stage: SamplerStage) -> bool {
    stage is Greedy || stage is Dist
}

/// Every plan chooses a token in its last stage and in no other, and where the
/// temperature is not above zero it leaves nothing to chance.
pub proof fn law_plan_chooses_last(params: SamplerParams)
    ensures
        sampler_plan(params).len() > 0,
        forall|i: int|
            0 <= i < sampler_plan(params).len() ==> (chooses(#[trigger] sampler_plan(params)[i])
                <==> i == sampler_plan(params).len() - 1),
        real_or(params.temperature, zero()).is_at_most_zero() <==> sampler_plan(params).last()
            is Greedy,
{
}

/// How the bits of a number tell its sign and its distance from one: zero has
/// the bits 0 or the sign bit alone, a negative number has the sign bit, and the
/// bits from 0x3f7f_fff0 to 0x3f80_0008 stand for numbers within a millionth of
/// one. What is not a number is neither positive, nor negative, nor far from
/// one.
pub proof fn law_bits_tell_number(x: Real32)
    ensures
        x.is_positive() <==> 0 < x.bits <= 0x7f80_0000,
        x.is_at_most_zero() <==> x.bits == 0 || 0x8000_0000 <= x.bits <= 0xff80_0000,
        x.differs_from_one() <==> x.is_at_most_zero() || (x.is_positive() && !(0x3f7f_fff0
            <= x.bits <= 0x3f80_0008)),
{
    let u = x.unsigned_bits();
    if 0 < u <= 0x7f80_0000 {
        lemma_magnitude_grows(0, u);
    }
    lemma_far_from_one(x);
}

/// The number that is given, or the number of the bits where none is.
pub open spec fn given_or(x: Option<Real32>, bits: u32) -> Real32 {
    match x {
        Some(r) => r,
        None => Real32 { bits },
    }
}

/// A penalty of the request is in effect: the repeat penalty is not one, or
/// another is positive.
pub open spec fn penalised(params: SamplerParams) -> bool {
    ||| params.repeat_penalty matches Some(r) && r.differs_from_one()
    ||| params.frequency_penalty matches Some(f) && f.is_positive()
    ||| params.presence_penalty matches Some(p) && p.is_positive()
}

/// Where a penalty is in effect, the plan begins with a stage that carries the
/// three penalties of the request, over the last 64 tokens; a repeat penalty
/// that is not given is one there, and another is zero. Else no stage carries
/// penalties.
pub proof fn law_penalties_are_carried(params: SamplerParams)
    ensures
        penalised(params) ==> sampler_plan(params).len() > 0 && sampler_plan(params)[0]
            == SamplerStage::Penalties(
            64,
            given_or(params.repeat_penalty, 0x3f80_0000),
            given_or(params.frequency_penalty, 0),
            given_or(params.presence_penalty, 0),
        ),
        forall|i: int|
            0 <= i < sampler_plan(params).len() && (#[trigger] sampler_plan(params)[i]) is Penalties
                ==> i == 0 && penalised(params),
{
    law_bits_tell_number(one());
    law_bits_tell_number(zero());
}

/// Each filter of the request stands in its stage with its number and keeps at
/// least one token; a filter that is not given has no stage.
pub proof fn law_filters_are_carried(params: SamplerParams)
    ensures
        ({
            let plan = sampler_plan(params);
            &&& params.top_k matches Some(k) ==> exists|i: int|
                0 <= i < plan.len() && (#[trigger] plan[i] matches SamplerStage::TopK(n) && (n == k
                    || n == k - 0x1_0000_0000))
            &&& forall|i: int|
                0 <= i < plan.len() ==> (#[trigger] plan[i] matches SamplerStage::TopK(n)
                    ==> params.top_k matches Some(k) && (n == k || n == k - 0x1_0000_0000))
            &&& params.top_p matches Some(p) ==> plan.contains(SamplerStage::TopP(p, 1))
            &&& forall|i: int|
                0 <= i < plan.len() ==> (#[trigger] plan[i] matches SamplerStage::TopP(p, n)
                    ==> params.top_p == Some(p) && n == 1)
            &&& params.min_p matches Some(p) ==> plan.contains(SamplerStage::MinP(p, 1))
            &&& forall|i: int|
                0 <= i < plan.len() ==> (#[trigger] plan[i] matches SamplerStage::MinP(p, n)
                    ==> params.min_p == Some(p) && n == 1)
        }),
{
    let plan = sampler_plan(params);
    let penalties = penalty_stages(params);
    let a: int = penalties.len() as int;
    let b: int = if params.top_k is Some {
        a + 1
    } else {
        a
    };
    let c: int = if params.top_p is Some {
        b + 1
    } else {
        b
    };
    if let Some(k) = params.top_k {
        assert(plan[a] == SamplerStage::TopK(as_signed(k) as i32));
    }
    if let Some(p) = params.top_p {
        assert(plan[b] == SamplerStage::TopP(p, 1));
    }
    if let Some(p) = params.min_p {
        assert(plan[c] == SamplerStage::MinP(p, 1));
    }
}

/// A token is drawn by chance exactly where a temperature that is not zero or
/// less is given; it is drawn with the seed of the request, or zero, and at that
/// temperature. Only at a temperature of one is there no scaling.
pub proof fn law_temperature_and_seed_are_carried(params: SamplerParams)
    ensures
        ({
            let plan = sampler_plan(params);
            let by_chance = params.temperature matches Some(t) && !t.is_at_most_zero();
            &&& plan.last() == if by_chance {
                SamplerStage::Dist(
                    match params.seed {
                        Some(s) => s,
                        None => 0,
                    },
                )
            } else {
                SamplerStage::Greedy
            }
            &&& by_chance && params.temperature->0.differs_from_one() ==> plan.len() >= 2
                && plan[plan.len() - 2] == SamplerStage::Temp(params.temperature->0)
            &&& forall|i: int|
                0 <= i < plan.len() ==> (#[trigger] plan[i] matches SamplerStage::Temp(t)
                    ==> by_chance && params.temperature == Some(t) && t.differs_from_one())
        }),
{
    law_bits_tell_number(zero());
}

/// The place of a stage in a chain.
pub open spec fn rank(stage: SamplerStage) -> int {
    match stage {
        SamplerStage::Penalties(..) => 0,
        SamplerStage::TopK(_) => 1,
        SamplerStage::TopP(..) => 2,
        SamplerStage::MinP(..) => 3,
        SamplerStage::Temp(_) => 4,
        SamplerStage::Dist(_) => 5,
        SamplerStage::Greedy => 5,
    }
}

/// The stages of a plan come in order, none twice: penalties, `top_k`, `top_p`,
/// `min_p`, the temperature, and the choice.
pub proof fn law_stages_are_in_order(params: SamplerParams)
    ensures
        forall|i: int, j: int|
            0 <= i < j < sampler_plan(params).len() ==> rank(#[trigger] sampler_plan(params)[i])
                < rank(#[trigger] sampler_plan(params)[j]),
{
}

} // verus!
