use vstd::prelude::*;

use vstd::arithmetic::div_mod::{
    lemma_div_multiples_vanish_quotient,
    lemma_fundamental_div_mod,
    lemma_fundamental_div_mod_converse,
};

use crate::maths::Level;

verus! {

/// A color by its red, green and blue channels.
#[derive(Clone, Copy, Debug, PartialEq, Eq, Structural)]
pub struct Rgb {
    pub r: u8,
    pub g: u8,
    pub b: u8,
}

/// `a * (1 - f / den) + c * (f / den)`, rounded to the nearest integer
/// (halves up).
pub open spec fn mix_channel(a: u8, c: u8, f: int, den: int) -> int {
    (2 * (a * (den - f) + c * f) + den) / (2 * den)
}

/// Each channel of `x` and `y` mixed at fraction `f / den` of the way from
/// `x` to `y`.
pub open spec fn mix(x: Rgb, y: Rgb, f: int, den: int) -> Rgb {
    Rgb {
        r: mix_channel(x.r, y.r, f, den) as u8,
        g: mix_channel(x.g, y.g, f, den) as u8,
        b: mix_channel(x.b, y.b, f, den) as u8,
    }
}

/// The color of `t` on the piecewise-linear map through `stops`, which stand
/// evenly spaced at `0, 1/(n-1), ..., 1`. With `p = t * (n - 1)`, `t` lies in
/// the segment from stop `floor(p)` to the next, at fraction `p - floor(p)`.
/// A value of 1 or more takes the last stop.
pub open spec fn color_at(stops: Seq<Rgb>, t: Level) -> Rgb {
    if t.num >= t.den {
        stops.last()
    } else {
        let p = t.num * (stops.len() - 1);
        mix(stops[p / t.den as int], stops[p / t.den as int + 1], p % t.den as int, t.den as int)
    }
}

/// One channel mixed at fraction `f / den`, rounded.
fn mix_u8(a: u8, c: u8, f: u128, den: u128) -> (r: u8)
    requires
        0 < den <= u64::MAX,
        f < den,
    ensures
        r == mix_channel(a, c, f as int, den as int),
{
    let ghost (ai, ci, fi, di) = (a as int, c as int, f as int, den as int);
    assert(ai * (di - fi) + ci * fi <= 255 * di && ai * (di - fi) <= 255 * di && ci * fi <= 255
        * di && ai * (di - fi) >= 0 && ci * fi >= 0) by (nonlinear_arith)
        requires
            0 <= ai <= 255,
            0 <= ci <= 255,
            0 <= fi < di,
    ;
    let w = (a as u128) * (den - f) + (c as u128) * f;
    let q = (2 * w + den) / (2 * den);
    proof {
        let wi = w as int;
        let di = den as int;
        lemma_fundamental_div_mod(2 * wi + di, 2 * di);
        let qi = (2 * wi + di) / (2 * di);
        if qi >= 256 {
            assert(2 * di * qi >= 2 * di * 256) by (nonlinear_arith)
                requires
                    qi >= 256,
                    di > 0,
            ;
        }
    }
    q as u8
}

/// A piecewise-linear color lookup table through at least two evenly spaced
/// control colors.
#[derive(Debug)]
pub struct ColorMap {
    pub stops: Vec<Rgb>,
}

impl ColorMap {
    pub open spec fn wf(&self) -> bool {
        self.stops@.len() >= 2
    }

    /// A map through `stops`; none when there are fewer than two.
    pub fn new(stops: Vec<Rgb>) -> (r: Option<ColorMap>)
        ensures
            stops@.len() < 2 <==> r is None,
            r is Some ==> r->Some_0.stops@ == stops@ && r->Some_0.wf(),
    {
        if stops.len() < 2 {
            None
        } else {
            Some(ColorMap { stops })
        }
    }

    /// Black, red, yellow, white.
    pub fn warm() -> (r: ColorMap)
        ensures
            r.wf(),
            r.stops@ == seq![
                Rgb { r: 0, g: 0, b: 0 },
                Rgb { r: 255, g: 0, b: 0 },
                Rgb { r: 255, g: 255, b: 0 },
                Rgb { r: 255, g: 255, b: 255 },
            ],
    {
        let stops = vec![
            Rgb { r: 0, g: 0, b: 0 },
            Rgb { r: 255, g: 0, b: 0 },
            Rgb { r: 255, g: 255, b: 0 },
            Rgb { r: 255, g: 255, b: 255 },
        ];
        ColorMap { stops }
    }

    /// Black, blue, cyan, white.
    pub fn cold() -> (r: ColorMap)
        ensures
            r.wf(),
            r.stops@ == seq![
                Rgb { r: 0, g: 0, b: 0 },
                Rgb { r: 0, g: 0, b: 255 },
                Rgb { r: 0, g: 255, b: 255 },
                Rgb { r: 255, g: 255, b: 255 },
            ],
    {
        let stops = vec![
            Rgb { r: 0, g: 0, b: 0 },
            Rgb { r: 0, g: 0, b: 255 },
            Rgb { r: 0, g: 255, b: 255 },
            Rgb { r: 255, g: 255, b: 255 },
        ];
        ColorMap { stops }
    }

    /// The color of `t` on this map; values of 1 or more take the last stop.
    pub fn color_of(&self, t: Level) -> (r: Rgb)
        requires
            self.wf(),
            t.den > 0,
        ensures
            r == color_at(self.stops@, t),
    {
        let n = self.stops.len();
        if t.num >= t.den {
            return self.stops[n - 1];
        }
        let m = (n - 1) as u128;
        let den = t.den as u128;
        assert((t.num as int) * (m as int) < (t.den as int) * (m as int)) by (nonlinear_arith)
            requires
                t.num < t.den,
                m >= 1,
        ;
        assert((t.num as int) * (m as int) <= u128::MAX) by (nonlinear_arith)
            requires
                t.num <= u64::MAX,
                m <= u64::MAX,
        ;
        let p = (t.num as u128) * m;
        let i = p / den;
        let f = p % den;
        proof {
            lemma_fundamental_div_mod(p as int, den as int);
            if i >= m {
                assert(den * i >= den * m) by (nonlinear_arith)
                    requires
                        i >= m,
                        den > 0,
                ;
            }
        }
        let x = self.stops[i as usize];
        let y = self.stops[i as usize + 1];
        Rgb { r: mix_u8(x.r, y.r, f, den), g: mix_u8(x.g, y.g, f, den), b: mix_u8(x.b, y.b, f, den) }
    }
}

/// Mixing at fraction `f / den` is mixing at `(f * k) / (den * k)`.
proof fn lemma_mix_channel_scale(a: u8, c: u8, f: int, den: int, k: int)
    requires
        0 <= f <= den,
        0 < den,
        0 < k,
    ensures
        mix_channel(a, c, f * k, den * k) == mix_channel(a, c, f, den),
{
    let x = 2 * (a * (den - f) + c * f) + den;
    assert(2 * (a * (den * k - f * k) + c * (f * k)) + den * k == k * x) by (nonlinear_arith)
        requires
            x == 2 * (a * (den - f) + c * f) + den,
    ;
    assert(2 * (den * k) == k * (2 * den)) by (nonlinear_arith);
    assert(x >= 0) by (nonlinear_arith)
        requires
            0 <= f <= den,
            x == 2 * (a * (den - f) + c * f) + den,
            a >= 0,
            c >= 0,
    ;
    lemma_div_multiples_vanish_quotient(k, x, 2 * den);
}

/// The ends of the map are its first and last control colors exactly.
pub proof fn lemma_colormap_ends(stops: Seq<Rgb>, den: u64)
    requires
        stops.len() >= 2,
        den > 0,
    ensures
        color_at(stops, Level { num: 0, den }) == stops[0],
        color_at(stops, Level { num: den, den }) == stops.last(),
{
    let d = den as int;
    lemma_fundamental_div_mod_converse(0, d, 0, 0);
    assert(0 * d == 0 && 1 * d == d) by (nonlinear_arith);
    let s = stops[0];
    let t = stops[1];
    lemma_mix_channel_scale(s.r, t.r, 0, 1, d);
    lemma_mix_channel_scale(s.g, t.g, 0, 1, d);
    lemma_mix_channel_scale(s.b, t.b, 0, 1, d);
}

/// On a map of four control colors the midpoint is the mix of the second
/// and third colors at fraction one half.
pub proof fn lemma_colormap_midpoint(stops: Seq<Rgb>, half: u64)
    requires
        stops.len() == 4,
        0 < half,
        2 * half <= u64::MAX,
    ensures
        color_at(stops, Level { num: half, den: (2 * half) as u64 }) == mix(
            stops[1],
            stops[2],
            1,
            2,
        ),
{
    let h = half as int;
    assert(h * 3 == 2 * h * 1 + h) by (nonlinear_arith);
    lemma_fundamental_div_mod_converse(h * 3, 2 * h, 1, h);
    let (x, y) = (stops[1], stops[2]);
    lemma_mix_channel_scale(x.r, y.r, 1, 2, h);
    lemma_mix_channel_scale(x.g, y.g, 1, 2, h);
    lemma_mix_channel_scale(x.b, y.b, 1, 2, h);
    assert(1 * h == h) by (nonlinear_arith);
}

} // verus!
