//! The physical string and the length of the delay line that stands for it.
//!
//! A wave runs along a string of tension `t` and linear density `d` at the
//! speed `sqrt(t / d)`, so it takes `2 l / sqrt(t / d)` to run the length `l`
//! forth and back. The delay line holds that time in samples, rounded to the
//! nearest whole number. All of it is computed in whole numbers: the square
//! of the round-trip time is a ratio of products of the inputs.

use vstd::prelude::*;
use crate::waveguide::ConfigError;

verus! {

/// The largest length, in millimetres.
pub const LENGTH_LIMIT: u32 = 1_048_575;

/// The largest linear density, in milligrams per metre.
pub const DENSITY_LIMIT: u32 = 16_777_215;

/// The largest sample rate, in samples per second.
pub const RATE_LIMIT: u32 = 1_048_575;

/// A string under tension.
#[derive(Clone, Copy, Debug, PartialEq, Eq, Structural)]
pub struct StringSpec {
    /// Tension, in millinewtons.
    pub tension: u32,
    /// Linear density, in milligrams per metre.
    pub density: u32,
    /// Length, in millimetres.
    pub length: u32,
}

impl StringSpec {
    /// Whether the string can be measured: it is under tension, and its
    /// density and length are within the limits.
    pub open spec fn wf(self) -> bool {
        &&& self.tension > 0
        &&& self.density <= DENSITY_LIMIT
        &&& self.length <= LENGTH_LIMIT
    }

    /// The numerator of the squared round trip, counted in samples at `rate`:
    /// `4 l^2 d rate^2`.
    pub open spec fn trip_squared_num(self, rate: int) -> int {
        4 * self.length as int * self.length as int * self.density as int * rate * rate
    }

    /// The denominator of the squared round trip: the tension, with the
    /// factor that brings millimetres, milligrams and millinewtons to one
    /// system of units.
    pub open spec fn trip_squared_den(self) -> int {
        1_000_000_000 * self.tension as int
    }

    /// Whether `n` is the round trip in samples at `rate`, rounded to the
    /// nearest whole number, a half rounding up.
    pub open spec fn round_trip_is(self, rate: int, n: int) -> bool {
        nearest_to_root(n, self.trip_squared_num(rate), self.trip_squared_den())
    }

    /// The numerator of the squared fundamental frequency, in hertz squared.
    pub open spec fn fundamental_squared_num(self) -> int {
        1_000_000_000 * self.tension as int
    }

    /// The denominator of the squared fundamental frequency: `4 l^2 d`.
    pub open spec fn fundamental_squared_den(self) -> int {
        4 * self.length as int * self.length as int * self.density as int
    }

    /// Whether `f` is the fundamental frequency in millihertz, rounded down.
    pub open spec fn fundamental_is(self, f: int) -> bool {
        &&& f >= 0
        &&& f * f * self.fundamental_squared_den() <= 1_000_000 * self.fundamental_squared_num()
        &&& 1_000_000 * self.fundamental_squared_num() < (f + 1) * (f + 1)
            * self.fundamental_squared_den()
    }
}

/// The fundamental frequency is one over the round-trip time: the product of
/// their squares, the round trip counted in seconds, is one.
pub proof fn lemma_fundamental_is_reciprocal(string: StringSpec)
    ensures
        string.trip_squared_num(1) * string.fundamental_squared_num() == string.trip_squared_den()
            * string.fundamental_squared_den(),
{
    let a = string.fundamental_squared_den();
    let b = string.fundamental_squared_num();
    assert(string.trip_squared_num(1) == a) by (nonlinear_arith)
        requires
            string.trip_squared_num(1) == 4 * string.length as int * string.length as int
                * string.density as int * 1 * 1,
            a == 4 * string.length as int * string.length as int * string.density as int,
    ;
    assert(a * b == b * a) by (nonlinear_arith);
}

/// At most one whole number is a square root rounded down.
pub proof fn lemma_fundamental_unique(string: StringSpec, f: int, g: int)
    requires
        string.fundamental_squared_den() > 0,
        string.fundamental_is(f),
        string.fundamental_is(g),
    ensures
        f == g,
{
    let d = string.fundamental_squared_den();
    if f < g {
        assert((f + 1) * (f + 1) * d <= g * g * d) by (nonlinear_arith)
            requires
                0 <= f < g,
                d > 0,
        ;
    }
    if g < f {
        assert((g + 1) * (g + 1) * d <= f * f * d) by (nonlinear_arith)
            requires
                0 <= g < f,
                d > 0,
        ;
    }
}

/// Whether `n` is the whole number nearest to the square root of `a / b`, a
/// half rounding up: `n - 1/2 <= sqrt(a / b) < n + 1/2`.
pub open spec fn nearest_to_root(n: int, a: int, b: int) -> bool {
    &&& n >= 0
    &&& (n == 0 || (2 * n - 1) * (2 * n - 1) * b <= 4 * a)
    &&& 4 * a < (2 * n + 1) * (2 * n + 1) * b
}

/// At most one whole number is nearest to a square root.
pub proof fn lemma_nearest_unique(n: int, m: int, a: int, b: int)
    requires
        b > 0,
        nearest_to_root(n, a, b),
        nearest_to_root(m, a, b),
    ensures
        n == m,
{
    if n < m {
        assert((2 * n + 1) * (2 * n + 1) * b <= (2 * m - 1) * (2 * m - 1) * b)
            by (nonlinear_arith)
            requires
                0 <= n < m,
                b > 0,
        ;
    }
    if m < n {
        assert((2 * m + 1) * (2 * m + 1) * b <= (2 * n - 1) * (2 * n - 1) * b)
            by (nonlinear_arith)
            requires
                0 <= m < n,
                b > 0,
        ;
    }
}

/// The largest magnitude whose square root [`root`] takes.
pub const ROOT_LIMIT: u128 = 0x1000_0000_0000_0000_0000_0000_0000;

/// The whole part of the square root of `q`.
pub fn root(q: u128) -> (r: u128)
    requires
        q < ROOT_LIMIT,
    ensures
        r * r <= q < (r + 1) * (r + 1),
        r < 0x40_0000_0000_0000,
{
    let mut lo: u128 = 0;
    let mut hi: u128 = 0x40_0000_0000_0000;
    assert(0x40_0000_0000_0000u128 * 0x40_0000_0000_0000u128 == ROOT_LIMIT);
    while hi - lo > 1
        invariant
            lo < hi <= 0x40_0000_0000_0000,
            lo * lo <= q < hi * hi,
        decreases hi - lo,
    {
        let mid: u128 = lo + (hi - lo) / 2;
        assert(mid * mid < 0x40_0000_0000_0000 * 0x40_0000_0000_0000) by (nonlinear_arith)
            requires
                0 <= mid < 0x40_0000_0000_0000,
        ;
        if mid * mid <= q {
            lo = mid;
        } else {
            hi = mid;
        }
    }
    lo
}

/// The length of the delay line that stands for `string` at `rate` samples
/// per second: the round-trip time of a wave, in samples, rounded to the
/// nearest whole number.
///
/// A string that is not well formed and a rate beyond the limit are refused
/// as out of range; a string so short that its delay line would hold no
/// sample is refused as of zero length.
pub fn delay_length(string: StringSpec, rate: u32) -> (made: Result<u64, ConfigError>)
    ensures
        !string.wf() || rate > RATE_LIMIT ==> made == Err::<u64, ConfigError>(
            ConfigError::OutOfRange,
        ),
        string.wf() && rate <= RATE_LIMIT ==> match made {
            Ok(n) => n > 0 && string.round_trip_is(rate as int, n as int),
            Err(e) => e == ConfigError::ZeroLength && string.round_trip_is(rate as int, 0),
        },
{
    if string.tension == 0 || string.density > DENSITY_LIMIT || string.length > LENGTH_LIMIT
        || rate > RATE_LIMIT {
        return Err(ConfigError::OutOfRange);
    }
    let l: u128 = string.length as u128;
    let d: u128 = string.density as u128;
    let s: u128 = rate as u128;
    let t: u128 = string.tension as u128;
    assert(l * l <= 0x100_0000_0000 && s * s <= 0x100_0000_0000) by (nonlinear_arith)
        requires
            l <= 1_048_575,
            s <= 1_048_575,
    ;
    let ll: u128 = l * l;
    let ss: u128 = s * s;
    assert(ll * d <= 0x1_0000_0000_0000_0000) by (nonlinear_arith)
        requires
            ll <= 0x100_0000_0000,
            d <= 16_777_215,
    ;
    let lld: u128 = ll * d;
    assert(lld * ss <= 0x1_0000_0000_0000_0000 * 0x100_0000_0000) by (nonlinear_arith)
        requires
            lld <= 0x1_0000_0000_0000_0000,
            ss <= 0x100_0000_0000,
    ;
    assert(0x1_0000_0000_0000_0000u128 * 0x100_0000_0000u128
        == 0x100_0000_0000_0000_0000_0000_0000u128);
    let a4: u128 = 16 * (lld * ss);
    let b: u128 = 1_000_000_000 * t;
    proof {
        assert(a4 == 4 * string.trip_squared_num(rate as int)) by (nonlinear_arith)
            requires
                a4 == 16 * ((l * l * d) * (s * s)),
                l == string.length,
                d == string.density,
                s == rate,
                string.trip_squared_num(rate as int) == 4 * string.length as int
                    * string.length as int * string.density as int * (rate as int) * (rate as int),
        ;
    }
    let q: u128 = a4 / b;
    assert(q * b <= a4 < (q + 1) * b && q <= a4) by (nonlinear_arith)
        requires
            q == a4 / b,
            b >= 1_000_000_000,
            0 <= a4,
    ;
    assert(q < ROOT_LIMIT) by (nonlinear_arith)
        requires
            q * b <= a4,
            b >= 1_000_000_000,
            a4 <= 16 * 0x100_0000_0000_0000_0000_0000_0000,
            ROOT_LIMIT == 0x1000_0000_0000_0000_0000_0000_0000,
            0 <= q,
    ;
    let m: u128 = root(q);
    assert(m * m * b <= a4 < (m + 1) * (m + 1) * b) by (nonlinear_arith)
        requires
            m * m <= q < (m + 1) * (m + 1),
            q * b <= a4 < (q + 1) * b,
            b > 0,
    ;
    let n: u128 = (m + 1) / 2;
    proof {
        let ni = n as int;
        let mi = m as int;
        let bi = b as int;
        if mi == 2 * ni {
            if ni >= 1 {
                assert((2 * ni - 1) * (2 * ni - 1) * bi <= mi * mi * bi) by (nonlinear_arith)
                    requires
                        mi == 2 * ni,
                        ni >= 1,
                        bi > 0,
                ;
            }
        } else {
            assert(mi == 2 * ni - 1);
            assert((mi + 1) * (mi + 1) * bi <= (2 * ni + 1) * (2 * ni + 1) * bi)
                by (nonlinear_arith)
                requires
                    mi == 2 * ni - 1,
                    ni >= 1,
                    bi > 0,
            ;
        }
        assert(string.round_trip_is(rate as int, ni));
    }
    if n == 0 {
        Err(ConfigError::ZeroLength)
    } else {
        Ok(n as u64)
    }
}

/// The fundamental frequency of `string` in millihertz, rounded down: one
/// over the round-trip time of a wave.
///
/// A string that is not well formed, and one without length or without mass,
/// which has no fundamental, are refused as out of range.
pub fn fundamental_millihertz(string: StringSpec) -> (made: Result<u64, ConfigError>)
    ensures
        made is Ok <==> string.wf() && string.length > 0 && string.density > 0,
        made matches Ok(f) ==> string.fundamental_is(f as int) && f < 1_000_000_000_000_000,
        made matches Err(e) ==> e == ConfigError::OutOfRange,
{
    if string.tension == 0 || string.density > DENSITY_LIMIT || string.length > LENGTH_LIMIT
        || string.length == 0 || string.density == 0 {
        return Err(ConfigError::OutOfRange);
    }
    let l: u128 = string.length as u128;
    let d: u128 = string.density as u128;
    let t: u128 = string.tension as u128;
    assert(1 <= l * l <= 0x100_0000_0000) by (nonlinear_arith)
        requires
            1 <= l <= 1_048_575,
    ;
    let ll: u128 = l * l;
    assert(1 <= ll * d <= 0x1_0000_0000_0000_0000) by (nonlinear_arith)
        requires
            1 <= ll <= 0x100_0000_0000,
            1 <= d <= 16_777_215,
    ;
    let den: u128 = 4 * (ll * d);
    let num: u128 = 1_000_000_000_000_000 * t;
    proof {
        assert(den == string.fundamental_squared_den()) by (nonlinear_arith)
            requires
                den == 4 * ((l * l) * d),
                l == string.length,
                d == string.density,
                string.fundamental_squared_den() == 4 * string.length as int * string.length as int
                    * string.density as int,
        ;
    }
    let q: u128 = num / den;
    assert(q * den <= num < (q + 1) * den && q <= num) by (nonlinear_arith)
        requires
            q == num / den,
            den >= 1,
            0 <= num,
    ;
    let f: u128 = root(q);
    assert(f * f * den <= num < (f + 1) * (f + 1) * den) by (nonlinear_arith)
        requires
            f * f <= q < (f + 1) * (f + 1),
            q * den <= num < (q + 1) * den,
            den > 0,
    ;
    assert(f < 1_000_000_000_000_000) by (nonlinear_arith)
        requires
            f * f <= q,
            q <= num,
            num == 1_000_000_000_000_000 * t,
            t <= 0xffff_ffff,
            0 <= f,
    ;
    Ok(f as u64)
}

} // verus!
