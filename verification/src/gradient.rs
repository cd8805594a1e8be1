use vstd::prelude::*;

use crate::color::Rgb;

verus! {

/// One channel of the interpolated color at step `k` of a gradient with
/// `steps` steps from channel value `s` to channel value `e`.
///
/// The interpolation parameter for step `k` is `(k + 1) / steps`: the first
/// element already moves one step away from the start color, and the last
/// element (at `k == steps - 1`) is exactly the end color. The exact rational
/// value is truncated to an integer.
pub open spec fn chan_at(s: u8, e: u8, steps: u32, k: int) -> int {
    ((e as int) * (k + 1) + (s as int) * (steps - 1 - k)) / (steps as int)
}

/// The color at step `k` of the gradient from `start` to `end`.
pub open spec fn color_at(start: Rgb, end: Rgb, steps: u32, k: int) -> Rgb {
    Rgb {
        r: chan_at(start.r, end.r, steps, k) as u8,
        g: chan_at(start.g, end.g, steps, k) as u8,
        b: chan_at(start.b, end.b, steps, k) as u8,
    }
}

/// The whole gradient from `start` to `end` as a sequence of `steps` colors.
pub open spec fn grad_seq(start: Rgb, end: Rgb, steps: u32) -> Seq<Rgb> {
    Seq::new(steps as nat, |k: int| color_at(start, end, steps, k))
}

/// The channel value at any step lies between the two endpoint values.
proof fn lemma_chan_at_bounds(s: u8, e: u8, steps: u32, k: int)
    requires
        0 <= k < steps,
    ensures
        chan_at(s, e, steps, k) <= if s <= e {
            e as int
        } else {
            s as int
        },
        chan_at(s, e, steps, k) >= if s <= e {
            s as int
        } else {
            e as int
        },
{
    let si = s as int;
    let ei = e as int;
    let n = steps as int;
    let hi = if si <= ei {
        ei
    } else {
        si
    };
    let lo = if si <= ei {
        si
    } else {
        ei
    };
    let num = ei * (k + 1) + si * (n - 1 - k);
    assert(lo * n <= num <= hi * n) by (nonlinear_arith)
        requires
            0 <= k < n,
            lo <= si <= hi,
            lo <= ei <= hi,
            num == ei * (k + 1) + si * (n - 1 - k),
    ;
    vstd::arithmetic::div_mod::lemma_div_is_ordered(lo * n, num, n);
    vstd::arithmetic::div_mod::lemma_div_is_ordered(num, hi * n, n);
    vstd::arithmetic::div_mod::lemma_div_multiples_vanish(lo, n);
    vstd::arithmetic::div_mod::lemma_div_multiples_vanish(hi, n);
}

/// Computes one interpolated channel value.
fn chan(s: u8, e: u8, steps: u32, k: u32) -> (c: u8)
    requires
        k < steps,
    ensures
        c as int == chan_at(s, e, steps, k as int),
{
    proof {
        let si = s as int;
        let ei = e as int;
        let n = steps as int;
        let ki = k as int;
        assert(ei * (ki + 1) <= 255 * 0x1_0000_0000 && si * (n - 1 - ki) <= 255 * 0x1_0000_0000
            && ei * (ki + 1) + si * (n - 1 - ki) <= 255 * n) by (nonlinear_arith)
            requires
                0 <= ki < n <= 0xffff_ffff,
                0 <= si <= 255,
                0 <= ei <= 255,
        ;
        lemma_chan_at_bounds(s, e, steps, ki);
    }
    let num: u64 = (e as u64) * ((k as u64) + 1) + (s as u64) * ((steps as u64) - 1 - (k as u64));
    let c64: u64 = num / (steps as u64);
    c64 as u8
}

/// Builds the gradient between `start` and `end` with one interpolated color
/// per step; `steps == 0` yields an empty sequence.
pub fn get_grad(start: &Rgb, end: &Rgb, steps: u32) -> (grad: Vec<Rgb>)
    ensures
        grad@ == grad_seq(*start, *end, steps),
        grad@.len() == steps,
{
    let mut grad: Vec<Rgb> = Vec::new();
    let mut k: u32 = 0;
    while k < steps
        invariant
            k <= steps,
            grad@.len() == k,
            forall|j: int| 0 <= j < k ==> grad@[j] == color_at(*start, *end, steps, j),
        decreases steps - k,
    {
        let c = Rgb {
            r: chan(start.r, end.r, steps, k),
            g: chan(start.g, end.g, steps, k),
            b: chan(start.b, end.b, steps, k),
        };
        proof {
            lemma_chan_at_bounds(start.r, end.r, steps, k as int);
            lemma_chan_at_bounds(start.g, end.g, steps, k as int);
            lemma_chan_at_bounds(start.b, end.b, steps, k as int);
        }
        grad.push(c);
        k = k + 1;
    }
    proof {
        assert(grad@ =~= grad_seq(*start, *end, steps));
    }
    grad
}

/// A precomputed gradient: the interpolated colors together with the
/// endpoint colors they were built from.
pub struct Gradient {
    colors: Vec<Rgb>,
    start: Rgb,
    end: Rgb,
    steps: u32,
}

impl Gradient {
    /// The interpolated colors, one per step.
    pub closed spec fn colors(self) -> Seq<Rgb> {
        self.colors@
    }

    /// The start endpoint the gradient was built from.
    pub closed spec fn start_color(self) -> Rgb {
        self.start
    }

    /// The end endpoint, also the fallback for out-of-range ranks.
    pub closed spec fn end_color(self) -> Rgb {
        self.end
    }

    #[verifier::type_invariant]
    pub closed spec fn wf(self) -> bool {
        self.colors@ == grad_seq(self.start, self.end, self.steps)
    }

    /// The color a rank resolves to: the element at that position, or the
    /// end color when the rank lies outside the gradient.
    pub open spec fn at_spec(self, rank: int) -> Rgb {
        if 0 <= rank < self.colors().len() {
            self.colors()[rank]
        } else {
            self.end_color()
        }
    }

    /// Builds the gradient between `start` and `end` over `steps` steps.
    pub fn build(start: Rgb, end: Rgb, steps: u32) -> (g: Gradient)
        ensures
            g.colors() == grad_seq(start, end, steps),
            g.colors().len() == steps,
            g.start_color() == start,
            g.end_color() == end,
    {
        let colors = get_grad(&start, &end, steps);
        Gradient { colors, start, end, steps }
    }

    /// The number of steps the gradient was built with.
    pub fn len(&self) -> (n: usize)
        ensures
            n == self.colors().len(),
    {
        self.colors.len()
    }

    /// Resolves a rank to its color, falling back to the end color when the
    /// rank is outside the gradient.
    pub fn at(&self, rank: usize) -> (c: Rgb)
        ensures
            c == self.at_spec(rank as int),
    {
        if rank < self.colors.len() {
            self.colors[rank]
        } else {
            self.end
        }
    }
}

/// Whether channel value `b` is at least as far as `a` along the way from
/// channel `s` to channel `e`, with both between the endpoint values.
pub open spec fn chan_toward(s: u8, e: u8, a: int, b: int) -> bool {
    if s <= e {
        s as int <= a <= b <= e as int
    } else {
        e as int <= b <= a <= s as int
    }
}

/// A later step's channel value never moves back toward the start.
proof fn lemma_chan_monotone(s: u8, e: u8, steps: u32, i: int, j: int)
    requires
        0 <= i <= j < steps,
    ensures
        chan_toward(s, e, chan_at(s, e, steps, i), chan_at(s, e, steps, j)),
{
    let si = s as int;
    let ei = e as int;
    let n = steps as int;
    let ni = ei * (i + 1) + si * (n - 1 - i);
    let nj = ei * (j + 1) + si * (n - 1 - j);
    assert((si <= ei ==> ni <= nj) && (ei <= si ==> nj <= ni)) by (nonlinear_arith)
        requires
            0 <= i <= j < n,
            ni == ei * (i + 1) + si * (n - 1 - i),
            nj == ei * (j + 1) + si * (n - 1 - j),
    ;
    if s <= e {
        vstd::arithmetic::div_mod::lemma_div_is_ordered(ni, nj, n);
    } else {
        vstd::arithmetic::div_mod::lemma_div_is_ordered(nj, ni, n);
    }
    lemma_chan_at_bounds(s, e, steps, i);
    lemma_chan_at_bounds(s, e, steps, j);
}

/// The channel value of the last step is exactly the end channel value.
proof fn lemma_chan_last(s: u8, e: u8, steps: u32)
    requires
        steps > 0,
    ensures
        chan_at(s, e, steps, steps - 1) == e as int,
{
    let n = steps as int;
    let si = s as int;
    let ei = e as int;
    assert(ei * ((n - 1) + 1) + si * (n - 1 - (n - 1)) == n * ei) by (nonlinear_arith);
    vstd::arithmetic::div_mod::lemma_div_multiples_vanish(ei, n);
    assert(chan_at(s, e, steps, n - 1) == (n * ei) / n);
}

/// A gradient with at least one step interpolates monotonically toward the
/// end color: at any later step every channel is at least as far from the
/// start value, all channels stay between the endpoint values, and the last
/// step is exactly the end color.
pub proof fn lemma_gradient_monotone(start: Rgb, end: Rgb, steps: u32, i: int, j: int)
    requires
        0 <= i <= j < steps,
    ensures
        grad_seq(start, end, steps).len() == steps,
        chan_toward(
            start.r,
            end.r,
            grad_seq(start, end, steps)[i].r as int,
            grad_seq(start, end, steps)[j].r as int,
        ),
        chan_toward(
            start.g,
            end.g,
            grad_seq(start, end, steps)[i].g as int,
            grad_seq(start, end, steps)[j].g as int,
        ),
        chan_toward(
            start.b,
            end.b,
            grad_seq(start, end, steps)[i].b as int,
            grad_seq(start, end, steps)[j].b as int,
        ),
        grad_seq(start, end, steps)[steps - 1] == end,
{
    lemma_chan_monotone(start.r, end.r, steps, i, j);
    lemma_chan_monotone(start.g, end.g, steps, i, j);
    lemma_chan_monotone(start.b, end.b, steps, i, j);
    lemma_chan_at_bounds(start.r, end.r, steps, i);
    lemma_chan_at_bounds(start.g, end.g, steps, i);
    lemma_chan_at_bounds(start.b, end.b, steps, i);
    lemma_chan_at_bounds(start.r, end.r, steps, j);
    lemma_chan_at_bounds(start.g, end.g, steps, j);
    lemma_chan_at_bounds(start.b, end.b, steps, j);
    lemma_chan_last(start.r, end.r, steps);
    lemma_chan_last(start.g, end.g, steps);
    lemma_chan_last(start.b, end.b, steps);
}

/// A zero-step gradient is the empty sequence, and a gradient with no colors
/// resolves every rank to the end color.
pub proof fn lemma_empty_gradient(g: Gradient, rank: int)
    requires
        g.colors().len() == 0,
    ensures
        grad_seq(g.start_color(), g.end_color(), 0).len() == 0,
        g.at_spec(rank) == g.end_color(),
{
}

} // verus!
