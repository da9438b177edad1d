//! The harmonic bank: five resonant second-order filters, each tuned to a
//! multiple of the fundamental, that colour the sound of the string.

use vstd::prelude::*;
use crate::fixed::{clamp, clamped, magnitude, scale, scaled, COEFF_LIMIT, ONE, SAMPLE_LIMIT};

verus! {

/// The number of filters in the bank.
pub const HARMONICS: usize = 5;

/// The multiple of the fundamental that the filter at `index` is tuned to:
/// the second harmonic comes first, the sixth last.
pub open spec fn harmonic_number(index: int) -> int {
    index + 2
}

/// The mix weight of the filter at `index`, in tenths: 1, 1/2, 1/2, 3/10 and
/// 1/5 for the second to the sixth harmonic.
pub open spec fn weight_tenths(index: int) -> int {
    if index == 0 {
        10
    } else if index == 1 || index == 2 {
        5
    } else if index == 3 {
        3
    } else {
        2
    }
}

/// The largest fundamental, in millihertz, whose harmonics can be counted.
pub const FUNDAMENTAL_LIMIT: u64 = 1_000_000_000_000_000;

/// The frequency that the filter at `index` is tuned to, in millihertz: the
/// fundamental times the number of the harmonic.
pub fn harmonic_millihertz(fundamental: u64, index: usize) -> (f: u64)
    requires
        fundamental <= FUNDAMENTAL_LIMIT,
        index < HARMONICS,
    ensures
        f == harmonic_number(index as int) * fundamental,
{
    let number: u64 = index as u64 + 2;
    assert(number * fundamental <= 6 * FUNDAMENTAL_LIMIT) by (nonlinear_arith)
        requires
            number <= 6,
            fundamental <= FUNDAMENTAL_LIMIT,
    ;
    number * fundamental
}

/// The coefficients of a second-order recursive filter, each in units of
/// `1 / ONE`: three for the input and its two predecessors, two for the two
/// preceding outputs.
#[derive(Clone, Copy, Debug, PartialEq, Eq, Structural)]
pub struct Coefficients {
    pub b0: i64,
    pub b1: i64,
    pub b2: i64,
    pub a1: i64,
    pub a2: i64,
}

impl Coefficients {
    /// Whether no coefficient exceeds the limit.
    pub open spec fn wf(self) -> bool {
        &&& magnitude(self.b0 as int) <= COEFF_LIMIT
        &&& magnitude(self.b1 as int) <= COEFF_LIMIT
        &&& magnitude(self.b2 as int) <= COEFF_LIMIT
        &&& magnitude(self.a1 as int) <= COEFF_LIMIT
        &&& magnitude(self.a2 as int) <= COEFF_LIMIT
    }

    /// Executable form of [`Coefficients::wf`].
    pub fn is_wf(&self) -> (ok: bool)
        ensures
            ok == self.wf(),
    {
        within(self.b0) && within(self.b1) && within(self.b2) && within(self.a1) && within(
            self.a2,
        )
    }
}

/// Whether a coefficient does not exceed the limit.
fn within(c: i64) -> (ok: bool)
    ensures
        ok == (magnitude(c as int) <= COEFF_LIMIT),
{
    -(COEFF_LIMIT as i64) <= c && c <= COEFF_LIMIT as i64
}

/// A filter with its memory: the two preceding inputs and outputs.
#[derive(Clone, Copy, Debug, PartialEq, Eq, Structural)]
pub struct Resonator {
    pub coefficients: Coefficients,
    pub x1: i64,
    pub x2: i64,
    pub y1: i64,
    pub y2: i64,
}

/// The output of a filter for the input `x`: the weighted sum of the input,
/// its two predecessors and the two preceding outputs, brought back to
/// sample units and limited to the sample range.
pub open spec fn response(r: Resonator, x: int) -> int {
    let c = r.coefficients;
    clamped(
        scaled(c.b0 * x + c.b1 * r.x1 + c.b2 * r.x2 - c.a1 * r.y1 - c.a2 * r.y2, 1, ONE as int),
        SAMPLE_LIMIT as int,
    )
}

impl Resonator {
    /// Whether the coefficients and the memory are within their limits.
    pub open spec fn wf(self) -> bool {
        &&& self.coefficients.wf()
        &&& magnitude(self.x1 as int) <= SAMPLE_LIMIT
        &&& magnitude(self.x2 as int) <= SAMPLE_LIMIT
        &&& magnitude(self.y1 as int) <= SAMPLE_LIMIT
        &&& magnitude(self.y2 as int) <= SAMPLE_LIMIT
    }

    /// The filter after the input `x`.
    pub open spec fn stepped(self, x: int) -> Resonator
        recommends
            magnitude(x) <= SAMPLE_LIMIT,
    {
        Resonator {
            coefficients: self.coefficients,
            x1: x as i64,
            x2: self.x1,
            y1: response(self, x) as i64,
            y2: self.y1,
        }
    }

    /// A filter with an empty memory.
    pub fn new(coefficients: Coefficients) -> (r: Resonator)
        ensures
            r == (Resonator { coefficients, x1: 0, x2: 0, y1: 0, y2: 0 }),
            coefficients.wf() ==> r.wf(),
    {
        Resonator { coefficients, x1: 0, x2: 0, y1: 0, y2: 0 }
    }

    /// Feeds one sample to the filter and returns its output.
    pub fn tick(&mut self, x: i64) -> (y: i64)
        requires
            old(self).wf(),
            magnitude(x as int) <= SAMPLE_LIMIT,
        ensures
            y == response(*old(self), x as int),
            *final(self) == old(self).stepped(x as int),
            final(self).wf(),
            magnitude(y as int) <= SAMPLE_LIMIT,
    {
        let c = self.coefficients;
        proof {
            lemma_product_bound(c.b0 as int, x as int);
            lemma_product_bound(c.b1 as int, self.x1 as int);
            lemma_product_bound(c.b2 as int, self.x2 as int);
            lemma_product_bound(c.a1 as int, self.y1 as int);
            lemma_product_bound(c.a2 as int, self.y2 as int);
        }
        let acc: i64 = c.b0 * x + c.b1 * self.x1 + c.b2 * self.x2 - c.a1 * self.y1 - c.a2
            * self.y2;
        let y = clamp(scale(acc, 1, ONE));
        self.x2 = self.x1;
        self.x1 = x;
        self.y2 = self.y1;
        self.y1 = y;
        y
    }
}

/// The product of a coefficient and a sample is bounded by the product of
/// their limits.
pub proof fn lemma_product_bound(c: int, x: int)
    requires
        magnitude(c) <= COEFF_LIMIT,
        magnitude(x) <= SAMPLE_LIMIT,
    ensures
        -(COEFF_LIMIT * SAMPLE_LIMIT) <= c * x <= COEFF_LIMIT * SAMPLE_LIMIT,
        COEFF_LIMIT * SAMPLE_LIMIT == 0x1000_0000_0000_0000,
{
    assert(-(1_048_576 * 1_099_511_627_776) <= c * x <= 1_048_576 * 1_099_511_627_776)
        by (nonlinear_arith)
        requires
            -1_048_576 <= c <= 1_048_576,
            -1_099_511_627_776 <= x <= 1_099_511_627_776,
    ;
}

/// The outputs of the first `count` filters of a bank for the input `x`,
/// each weighted, summed.
pub open spec fn mixed(filters: Seq<Resonator>, x: int, count: int) -> int
    decreases count,
{
    if count <= 0 {
        0
    } else {
        mixed(filters, x, count - 1) + scaled(
            response(filters[count - 1], x),
            weight_tenths(count - 1),
            10,
        )
    }
}

/// Every filter of a bank after the input `x`.
pub open spec fn all_stepped(filters: Seq<Resonator>, x: int) -> Seq<Resonator> {
    Seq::new(filters.len(), |i: int| filters[i].stepped(x))
}

/// The weighted sum of `count` filter outputs is bounded.
pub proof fn lemma_mixed_bound(filters: Seq<Resonator>, x: int, count: int)
    requires
        0 <= count <= filters.len(),
    ensures
        magnitude(mixed(filters, x, count)) <= count * SAMPLE_LIMIT,
    decreases count,
{
    if count > 0 {
        lemma_mixed_bound(filters, x, count - 1);
        let y = response(filters[count - 1], x);
        crate::fixed::lemma_scaled_bounds(y, weight_tenths(count - 1), 10);
    }
}

/// The five filters.
pub struct HarmonicBank {
    filters: Vec<Resonator>,
}

impl HarmonicBank {
    /// Whether the bank holds its five filters, each well formed.
    pub closed spec fn wf(&self) -> bool {
        &&& self.filters.len() == HARMONICS
        &&& forall|i: int| 0 <= i < self.filters.len() ==> (#[trigger] self.filters[i]).wf()
    }

    /// The filters, the one for the second harmonic first.
    pub closed spec fn view(&self) -> Seq<Resonator> {
        self.filters@
    }

    /// A well-formed bank holds five well-formed filters.
    pub proof fn lemma_wf(&self)
        requires
            self.wf(),
        ensures
            self@.len() == HARMONICS,
            forall|i: int| 0 <= i < HARMONICS ==> (#[trigger] self@[i]).wf(),
    {
    }

    /// A bank of filters with empty memories. The coefficients of the
    /// filter for the second harmonic come first. Coefficients beyond the
    /// limit are refused.
    pub fn new(coefficients: [Coefficients; 5]) -> (made: Option<HarmonicBank>)
        ensures
            made is Some <==> (forall|i: int| 0 <= i < 5 ==> (#[trigger] coefficients@[i]).wf()),
            made matches Some(bank) ==> {
                &&& bank.wf()
                &&& bank@ == Seq::new(
                    5,
                    |i: int|
                        (Resonator { coefficients: coefficients@[i], x1: 0, x2: 0, y1: 0, y2: 0 }),
                )
            },
    {
        let mut filters: Vec<Resonator> = Vec::new();
        let mut i: usize = 0;
        while i < 5
            invariant
                i <= 5,
                filters.len() == i,
                forall|j: int| 0 <= j < i ==> (#[trigger] coefficients@[j]).wf(),
                forall|j: int|
                    0 <= j < i ==> #[trigger] filters[j] == (Resonator {
                        coefficients: coefficients@[j],
                        x1: 0,
                        x2: 0,
                        y1: 0,
                        y2: 0,
                    }),
            decreases 5 - i,
        {
            let c = coefficients[i];
            if !c.is_wf() {
                return None;
            }
            filters.push(Resonator::new(c));
            i += 1;
        }
        let bank = HarmonicBank { filters };
        assert(bank@ =~= Seq::new(
            5,
            |i: int| (Resonator { coefficients: coefficients@[i], x1: 0, x2: 0, y1: 0, y2: 0 }),
        ));
        Some(bank)
    }

    /// Feeds one sample to every filter and returns the weighted sum of
    /// their outputs.
    pub fn tick(&mut self, x: i64) -> (sum: i64)
        requires
            old(self).wf(),
            magnitude(x as int) <= SAMPLE_LIMIT,
        ensures
            final(self).wf(),
            sum == mixed(old(self)@, x as int, 5),
            final(self)@ == all_stepped(old(self)@, x as int),
            magnitude(sum as int) <= 5 * SAMPLE_LIMIT,
    {
        let mut sum: i64 = 0;
        let mut i: usize = 0;
        while i < 5
            invariant
                i <= 5,
                self.filters.len() == 5,
                old(self).wf(),
                magnitude(x as int) <= SAMPLE_LIMIT,
                sum == mixed(old(self)@, x as int, i as int),
                magnitude(sum as int) <= i * SAMPLE_LIMIT,
                forall|j: int| 0 <= j < i ==> #[trigger] self.filters[j] == old(self)@[j].stepped(x as int),
                forall|j: int| i <= j < 5 ==> #[trigger] self.filters[j] == old(self)@[j],
                forall|j: int| 0 <= j < 5 ==> (#[trigger] self.filters[j]).wf(),
            decreases 5 - i,
        {
            let mut r = self.filters[i];
            let y = r.tick(x);
            self.filters.set(i, r);
            let (num, den) = weight(i);
            proof {
                crate::fixed::lemma_scaled_bounds(y as int, num as int, den as int);
                lemma_mixed_bound(old(self)@, x as int, i as int + 1);
            }
            sum = sum + scale(y, num, den);
            i += 1;
        }
        assert(self@ =~= all_stepped(old(self)@, x as int));
        sum
    }
}

/// The mix weight of the filter at `index`, as a ratio.
pub fn weight(index: usize) -> (w: (u64, u64))
    ensures
        w.0 == weight_tenths(index as int),
        w.1 == 10,
{
    if index == 0 {
        (10, 10)
    } else if index == 1 || index == 2 {
        (5, 10)
    } else if index == 3 {
        (3, 10)
    } else {
        (2, 10)
    }
}

} // verus!
