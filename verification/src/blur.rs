//! Stack blur of a single-channel pixel buffer.
//!
//! Every output pixel is a weighted sum of its neighbours along a line: the
//! neighbour at distance `k` (with `k <= radius`) weighs `radius + 1 - k`; the
//! sum is normalised by a multiply and a shift taken from [`MUL_TABLE`] and
//! [`SHG_TABLE`]. Lines are clamped at their ends. The image is first blurred
//! row by row, then column by column.

use vstd::prelude::*;
use vstd::arithmetic::div_mod::{lemma_small_mod, lemma_mod_self_0, lemma_fundamental_div_mod_converse, lemma_div_by_multiple};

verus! {

/// Multipliers that normalise the weighted sum, indexed by radius.
pub const MUL_TABLE: [u32; 255] = [
    512, 512, 456, 512, 328, 456, 335, 512, 405, 328, 271, 456, 388, 335, 292, 512, 454, 405,
    364, 328, 298, 271, 496, 456, 420, 388, 360, 335, 312, 292, 273, 512, 482, 454, 428, 405,
    383, 364, 345, 328, 312, 298, 284, 271, 259, 496, 475, 456, 437, 420, 404, 388, 374, 360,
    347, 335, 323, 312, 302, 292, 282, 273, 265, 512, 497, 482, 468, 454, 441, 428, 417, 405,
    394, 383, 373, 364, 354, 345, 337, 328, 320, 312, 305, 298, 291, 284, 278, 271, 265, 259,
    507, 496, 485, 475, 465, 456, 446, 437, 428, 420, 412, 404, 396, 388, 381, 374, 367, 360,
    354, 347, 341, 335, 329, 323, 318, 312, 307, 302, 297, 292, 287, 282, 278, 273, 269, 265,
    261, 512, 505, 497, 489, 482, 475, 468, 461, 454, 447, 441, 435, 428, 422, 417, 411, 405,
    399, 394, 389, 383, 378, 373, 368, 364, 359, 354, 350, 345, 341, 337, 332, 328, 324, 320,
    316, 312, 309, 305, 301, 298, 294, 291, 287, 284, 281, 278, 274, 271, 268, 265, 262, 259,
    257, 507, 501, 496, 491, 485, 480, 475, 470, 465, 460, 456, 451, 446, 442, 437, 433, 428,
    424, 420, 416, 412, 408, 404, 400, 396, 392, 388, 385, 381, 377, 374, 370, 367, 363, 360,
    357, 354, 350, 347, 344, 341, 338, 335, 332, 329, 326, 323, 320, 318, 315, 312, 310, 307,
    304, 302, 299, 297, 294, 292, 289, 287, 285, 282, 280, 278, 275, 273, 271, 269, 267, 265,
    263, 261, 259,
];

/// Right shifts that pair with [`MUL_TABLE`].
pub const SHG_TABLE: [u32; 255] = [
    9, 11, 12, 13, 13, 14, 14, 15, 15, 15, 15, 16, 16, 16, 16, 17, 17, 17, 17, 17, 17, 17, 18,
    18, 18, 18, 18, 18, 18, 18, 18, 19, 19, 19, 19, 19, 19, 19, 19, 19, 19, 19, 19, 19, 19, 20,
    20, 20, 20, 20, 20, 20, 20, 20, 20, 20, 20, 20, 20, 20, 20, 20, 20, 21, 21, 21, 21, 21, 21,
    21, 21, 21, 21, 21, 21, 21, 21, 21, 21, 21, 21, 21, 21, 21, 21, 21, 21, 21, 21, 21, 22, 22,
    22, 22, 22, 22, 22, 22, 22, 22, 22, 22, 22, 22, 22, 22, 22, 22, 22, 22, 22, 22, 22, 22, 22,
    22, 22, 22, 22, 22, 22, 22, 22, 22, 22, 22, 22, 23, 23, 23, 23, 23, 23, 23, 23, 23, 23, 23,
    23, 23, 23, 23, 23, 23, 23, 23, 23, 23, 23, 23, 23, 23, 23, 23, 23, 23, 23, 23, 23, 23, 23,
    23, 23, 23, 23, 23, 23, 23, 23, 23, 23, 23, 23, 23, 23, 23, 23, 23, 23, 23, 23, 24, 24, 24,
    24, 24, 24, 24, 24, 24, 24, 24, 24, 24, 24, 24, 24, 24, 24, 24, 24, 24, 24, 24, 24, 24, 24,
    24, 24, 24, 24, 24, 24, 24, 24, 24, 24, 24, 24, 24, 24, 24, 24, 24, 24, 24, 24, 24, 24, 24,
    24, 24, 24, 24, 24, 24, 24, 24, 24, 24, 24, 24, 24, 24, 24, 24, 24, 24, 24, 24, 24, 24, 24,
    24, 24,
];

/// Sum of `f(i)` for `a <= i < b`.
pub open spec fn range_sum(f: spec_fn(int) -> int, a: int, b: int) -> int
    decreases b - a,
{
    if b <= a {
        0
    } else {
        range_sum(f, a, b - 1) + f(b - 1)
    }
}

/// Weight of the neighbour at signed distance `k` in a stack of the given radius.
pub open spec fn tap(k: int, radius: int) -> int {
    radius + 1 - if k < 0 { -k } else { k }
}

/// The stack blur sum around `center`: `sum over |k| <= radius of (radius + 1 - |k|) * f(center + k)`.
pub open spec fn kernel_sum(f: spec_fn(int) -> int, center: int, radius: int) -> int {
    range_sum(|i: int| tap(i - center, radius) * f(i), center - radius, center + radius + 1)
}

/// The normalised output byte for a kernel sum.
pub open spec fn blurred(sum: int, radius: int) -> u8 {
    (((sum * MUL_TABLE@[radius] as int) as u64) >> (SHG_TABLE@[radius] as u64)) as u8
}

/// Index `i` clamped into `0..n`.
pub open spec fn clamp(i: int, n: int) -> int {
    if i < 0 {
        0
    } else if i >= n {
        n - 1
    } else {
        i
    }
}

proof fn lemma_tables(r: int)
    requires
        0 <= r < 255,
    ensures
        SHG_TABLE@[r] <= 24,
        MUL_TABLE@[r] <= 512,
{
}

proof fn lemma_range_sum_split(f: spec_fn(int) -> int, a: int, m: int, b: int)
    requires
        a <= m <= b,
    ensures
        range_sum(f, a, b) == range_sum(f, a, m) + range_sum(f, m, b),
    decreases b - m,
{
    if b > m {
        lemma_range_sum_split(f, a, m, b - 1);
    }
}

proof fn lemma_range_sum_congruent(f: spec_fn(int) -> int, g: spec_fn(int) -> int, a: int, b: int)
    requires
        forall|i: int| a <= i < b ==> #[trigger] f(i) == g(i),
    ensures
        range_sum(f, a, b) == range_sum(g, a, b),
    decreases b - a,
{
    if b > a {
        lemma_range_sum_congruent(f, g, a, b - 1);
    }
}

proof fn lemma_range_sum_sub(
    f: spec_fn(int) -> int,
    g: spec_fn(int) -> int,
    h: spec_fn(int) -> int,
    a: int,
    b: int,
)
    requires
        forall|i: int| a <= i < b ==> #[trigger] h(i) == f(i) - g(i),
    ensures
        range_sum(h, a, b) == range_sum(f, a, b) - range_sum(g, a, b),
    decreases b - a,
{
    if b > a {
        lemma_range_sum_sub(f, g, h, a, b - 1);
    }
}

proof fn lemma_range_sum_bounds(f: spec_fn(int) -> int, a: int, b: int, lo: int, hi: int)
    requires
        a <= b,
        forall|i: int| a <= i < b ==> lo <= #[trigger] f(i) <= hi,
    ensures
        lo * (b - a) <= range_sum(f, a, b) <= hi * (b - a),
    decreases b - a,
{
    if b > a {
        lemma_range_sum_bounds(f, a, b - 1, lo, hi);
        assert(lo <= f(b - 1) <= hi);
        assert(lo * (b - a) == lo * (b - 1 - a) + lo) by (nonlinear_arith);
        assert(hi * (b - a) == hi * (b - 1 - a) + hi) by (nonlinear_arith);
    } else {
        assert(lo * (b - a) == 0 && hi * (b - a) == 0) by (nonlinear_arith)
            requires b == a;
    }
}

proof fn lemma_range_sum_mono(f: spec_fn(int) -> int, g: spec_fn(int) -> int, a: int, b: int)
    requires
        forall|i: int| a <= i < b ==> #[trigger] f(i) <= g(i),
    ensures
        range_sum(f, a, b) <= range_sum(g, a, b),
    decreases b - a,
{
    if b > a {
        lemma_range_sum_mono(f, g, a, b - 1);
    }
}

/// Moving the centre by one removes the left half (centre included) once and
/// adds the right half, now including the element that enters the stack.
proof fn lemma_kernel_shift(f: spec_fn(int) -> int, c: int, r: int)
    requires
        r >= 0,
    ensures
        kernel_sum(f, c + 1, r) == kernel_sum(f, c, r) - range_sum(f, c - r, c + 1)
            + range_sum(f, c + 1, c + r + 2),
{
    let g0 = |i: int| tap(i - c, r) * f(i);
    let g1 = |i: int| tap(i - (c + 1), r) * f(i);
    let d = |i: int| g1(i) - g0(i);
    assert(kernel_sum(f, c, r) == range_sum(g0, c - r, c + r + 1));
    assert(kernel_sum(f, c + 1, r) == range_sum(g1, c - r + 1, c + r + 2));
    // extend both sums over [c - r, c + r + 2) with a zero-weight term
    lemma_range_sum_split(g0, c - r, c + r + 1, c + r + 2);
    assert(range_sum(g0, c + r + 1, c + r + 1) == 0);
    assert(tap(c + r + 1 - c, r) * f(c + r + 1) == 0) by (nonlinear_arith)
        requires tap(c + r + 1 - c, r) == 0;
    assert(range_sum(g0, c + r + 1, c + r + 2) == g0(c + r + 1));
    assert(tap(c + r + 1 - c, r) == 0);
    lemma_range_sum_split(g1, c - r, c - r + 1, c + r + 2);
    assert(range_sum(g1, c - r, c - r) == 0);
    assert(range_sum(g1, c - r, c - r + 1) == g1(c - r));
    assert(tap(c - r - (c + 1), r) == 0);
    assert(tap(c - r - (c + 1), r) * f(c - r) == 0) by (nonlinear_arith)
        requires tap(c - r - (c + 1), r) == 0;
    lemma_range_sum_sub(g1, g0, d, c - r, c + r + 2);
    lemma_range_sum_split(d, c - r, c + 1, c + r + 2);
    let neg = |i: int| 0 - f(i);
    let zero = |i: int| 0int;
    assert forall|i: int| c - r <= i < c + 1 implies #[trigger] d(i) == neg(i) by {
        assert(tap(i - (c + 1), r) == tap(i - c, r) - 1);
        assert(tap(i - (c + 1), r) * f(i) == tap(i - c, r) * f(i) - f(i)) by (nonlinear_arith)
            requires tap(i - (c + 1), r) == tap(i - c, r) - 1;
    }
    lemma_range_sum_congruent(d, neg, c - r, c + 1);
    lemma_range_sum_sub(zero, f, neg, c - r, c + 1);
    lemma_range_sum_bounds(zero, c - r, c + 1, 0, 0);
    assert forall|i: int| c + 1 <= i < c + r + 2 implies #[trigger] d(i) == f(i) by {
        assert(tap(i - (c + 1), r) == tap(i - c, r) + 1);
        assert(tap(i - (c + 1), r) * f(i) == tap(i - c, r) * f(i) + f(i)) by (nonlinear_arith)
            requires tap(i - (c + 1), r) == tap(i - c, r) + 1;
    }
    lemma_range_sum_congruent(d, f, c + 1, c + r + 2);
    assert(range_sum(g0, c - r, c + r + 2) == kernel_sum(f, c, r));
    assert(range_sum(g1, c - r, c + r + 2) == kernel_sum(f, c + 1, r));
    assert(range_sum(neg, c - r, c + 1) == 0 - range_sum(f, c - r, c + 1));
}

/// Bounds of the kernel sum over bytes.
proof fn lemma_kernel_bounds(f: spec_fn(int) -> int, c: int, r: int)
    requires
        0 <= r < 255,
        forall|i: int| c - r <= i <= c + r ==> 0 <= #[trigger] f(i) <= 255,
    ensures
        range_sum(f, c - r, c + 1) <= kernel_sum(f, c, r) <= 255 * 255 * 509,
        0 <= range_sum(f, c - r, c + 1) <= 255 * 255,
        0 <= range_sum(f, c + 1, c + r + 2 - 1) <= 255 * 255,
{
    let g = |i: int| tap(i - c, r) * f(i);
    lemma_range_sum_split(g, c - r, c + 1, c + r + 1);
    assert forall|i: int| c - r <= i < c + 1 implies f(i) <= #[trigger] g(i) by {
        assert(tap(i - c, r) >= 1);
        assert(f(i) <= tap(i - c, r) * f(i)) by (nonlinear_arith)
            requires tap(i - c, r) >= 1, f(i) >= 0;
    }
    lemma_range_sum_mono(f, g, c - r, c + 1);
    assert forall|i: int| c + 1 <= i < c + r + 1 implies 0 <= #[trigger] g(i) <= 255 * 255 by {
        assert(0 <= tap(i - c, r) <= 255);
        assert(0 <= tap(i - c, r) * f(i) <= 255 * 255) by (nonlinear_arith)
            requires 0 <= tap(i - c, r) <= 255, 0 <= f(i) <= 255;
    }
    lemma_range_sum_bounds(g, c + 1, c + r + 1, 0, 65025);
    assert forall|i: int| c - r <= i < c + r + 1 implies 0 <= #[trigger] g(i) <= 255 * 255 by {
        assert(0 <= tap(i - c, r) <= 255);
        assert(0 <= tap(i - c, r) * f(i) <= 255 * 255) by (nonlinear_arith)
            requires 0 <= tap(i - c, r) <= 255, 0 <= f(i) <= 255;
    }
    lemma_range_sum_bounds(g, c - r, c + r + 1, 0, 65025);
    assert(255 * 255 * (2 * r + 1) <= 255 * 255 * 509) by (nonlinear_arith)
        requires r < 255;
    lemma_range_sum_bounds(f, c - r, c + 1, 0, 255);
    lemma_range_sum_bounds(f, c + 1, c + r + 1, 0, 255);
    assert(255 * (r + 1) <= 255 * 255) by (nonlinear_arith)
        requires r < 255;
    assert(255 * r <= 255 * 255) by (nonlinear_arith)
        requires r < 255;
}

/// `1 + 2 + ... + n`.
pub open spec fn triangular(n: int) -> int
    decreases n,
{
    if n <= 0 {
        0
    } else {
        triangular(n - 1) + n
    }
}

proof fn lemma_triangular(n: int)
    requires
        n >= 0,
    ensures
        2 * triangular(n) == n * (n + 1),
        (n * (n + 1)) / 2 == triangular(n),
    decreases n,
{
    if n > 0 {
        lemma_triangular(n - 1);
        assert(n * (n + 1) == (n - 1) * n + 2 * n) by (nonlinear_arith);
    }
    lemma_div_by_multiple(triangular(n), 2);
    assert(triangular(n) * 2 == n * (n + 1));
}

/// The left half of the first stack of a line holds copies of the first byte.
proof fn lemma_left_half_constant(f: spec_fn(int) -> int, p: int, r: int, m: int)
    requires
        r >= 0,
        -r <= m <= 1,
        forall|i: int| -r <= i <= 0 ==> #[trigger] f(i) == p,
    ensures
        range_sum(|j: int| tap(j - 0, r) * f(j), -r, m) == p * triangular(m + r),
    decreases m + r,
{
    let g = |j: int| tap(j - 0, r) * f(j);
    if m > -r {
        lemma_left_half_constant(f, p, r, m - 1);
        assert(f(m - 1) == p);
        assert(tap(m - 1 - 0, r) == m + r);
        assert(g(m - 1) == (m + r) * p) by (nonlinear_arith)
            requires g(m - 1) == tap(m - 1 - 0, r) * f(m - 1), tap(m - 1 - 0, r) == m + r, f(m - 1) == p;
        assert(p * triangular(m + r) == p * triangular(m - 1 + r) + (m + r) * p) by (nonlinear_arith)
            requires triangular(m + r) == triangular(m - 1 + r) + (m + r);
    } else {
        assert(p * triangular(m + r) == 0) by (nonlinear_arith)
            requires triangular(m + r) == 0;
    }
}

/// Position `k` of the ring relative to its start `s`.
pub open spec fn rot(k: int, s: int, n: int) -> int {
    if k >= s {
        k - s
    } else {
        k + n - s
    }
}

/// The ring of `2 * radius + 1` bytes that slides along a line, with its
/// running sums. `window` holds every byte that entered the ring so far, the
/// first one for position `-radius` of the line; `center` is the position of
/// the pixel the ring is centred on.
struct BlurStack {
    slots: Vec<u64>,
    radius: usize,
    mul: u64,
    shg: u64,
    sum: u64,
    sum_out: u64,
    sum_in: u64,
    stack_in: usize,
    stack_out: usize,
    window: Ghost<Seq<int>>,
    center: Ghost<int>,
}

impl BlurStack {
    /// The bytes of the line as seen by the ring, by position.
    spec fn line(self) -> spec_fn(int) -> int {
        let w = self.window@;
        let r = self.radius as int;
        |i: int| w[i + r]
    }

    spec fn ready(self) -> bool {
        &&& 1 <= self.radius < 255
        &&& self.slots@.len() == 2 * self.radius + 1
        &&& self.mul == MUL_TABLE@[self.radius as int]
        &&& self.shg == SHG_TABLE@[self.radius as int]
    }

    spec fn wf(self) -> bool {
        let r = self.radius as int;
        let n = 2 * r + 1;
        let c = self.center@;
        let f = self.line();
        &&& self.ready()
        &&& c >= 0
        &&& self.window@.len() == c + n
        &&& forall|t: int| 0 <= t < self.window@.len() ==> 0 <= #[trigger] self.window@[t] <= 255
        &&& self.stack_in < n
        &&& self.stack_out < n
        &&& rot(self.stack_out as int, self.stack_in as int, n) == r + 1
        &&& forall|k: int| 0 <= k < n ==> #[trigger] self.slots@[k] == self.window@[c + rot(k, self.stack_in as int, n)]
        &&& self.sum == kernel_sum(f, c, r)
        &&& self.sum_out == range_sum(f, c - r, c + 1)
        &&& self.sum_in == range_sum(f, c + 1, c + r + 1)
    }

    fn new(radius: usize) -> (res: BlurStack)
        requires
            1 <= radius < 255,
        ensures
            res.ready(),
            res.radius == radius,
    {
        let div = 2 * radius + 1;
        let mut slots: Vec<u64> = Vec::new();
        let mut i: usize = 0;
        while i < div
            invariant
                i <= div,
                slots@.len() == i,
            decreases div - i,
        {
            slots.push(0);
            i = i + 1;
        }
        BlurStack {
            slots,
            radius,
            mul: MUL_TABLE[radius] as u64,
            shg: SHG_TABLE[radius] as u64,
            sum: 0,
            sum_out: 0,
            sum_in: 0,
            stack_in: 0,
            stack_out: 0,
            window: Ghost(Seq::empty()),
            center: Ghost(0),
        }
    }

    /// Loads the ring for the first pixel of a line: the first byte fills the
    /// left half (centre included), `ahead[i - 1]` stands at distance `i`.
    fn restart(&mut self, first: u8, ahead: &Vec<u8>)
        requires
            old(self).ready(),
            ahead@.len() == old(self).radius,
        ensures
            final(self).wf(),
            final(self).radius == old(self).radius,
            final(self).center@ == 0,
            forall|i: int| -final(self).radius <= i <= 0 ==> #[trigger] final(self).line()(i) == first as int,
            forall|i: int| 1 <= i <= final(self).radius ==> #[trigger] final(self).line()(i) == ahead@[i - 1] as int,
    {
        let r = self.radius;
        let rp1 = r + 1;
        let ghost ri = r as int;
        let ghost win = Seq::new(rp1 as nat, |t: int| first as int) + ahead@.map_values(|v: u8| v as int);
        let ghost f = |i: int| win[i + ri];
        assert forall|i: int| -ri <= i <= 0 implies #[trigger] f(i) == first as int by {}
        assert forall|i: int| 1 <= i <= ri implies #[trigger] f(i) == ahead@[i - 1] as int by {}
        proof {
            lemma_triangular(ri + 1);
            lemma_left_half_constant(f, first as int, ri, 1);
            lemma_range_sum_bounds(f, -ri, 1, first as int, first as int);
            assert((rp1 * (rp1 + 1)) as int / 2 == triangular(ri + 1));
            assert(first as int * triangular(ri + 1) <= 255 * triangular(ri + 1)) by (nonlinear_arith)
                requires first <= 255, triangular(ri + 1) >= 0;
            assert(triangular(ri + 1) <= 65025) by (nonlinear_arith)
                requires 2 * triangular(ri + 1) == (ri + 1) * (ri + 2), ri < 255;
        }
        let ghost g = |j: int| tap(j - 0, ri) * f(j);
        let sum_factor = ((rp1 * (rp1 + 1)) / 2) as u64;
        let pr = first as u64;
        proof {
            assert(sum_factor == triangular(ri + 1));
            assert(sum_factor * pr == pr * triangular(ri + 1) && sum_factor * pr <= 255 * 65025) by (nonlinear_arith)
                requires sum_factor == triangular(ri + 1), pr <= 255, triangular(ri + 1) <= 65025;
            assert(rp1 * pr <= 255 * 255) by (nonlinear_arith)
                requires rp1 <= 255, pr <= 255;
            assert(range_sum(g, 1, 1) == 0);
            assert(range_sum(f, 1, 1) == 0);
        }
        self.sum_out = rp1 as u64 * pr;
        self.sum = sum_factor * pr;
        let mut i: usize = 0;
        while i < rp1
            invariant
                i <= rp1,
                rp1 == self.radius + 1,
                self.ready(),
                self.radius == r,
                forall|k: int| 0 <= k < i ==> #[trigger] self.slots@[k] == pr,
                self.sum == sum_factor * pr,
                self.sum_out == rp1 * pr,
            decreases rp1 - i,
        {
            self.slots.set(i, pr);
            i = i + 1;
        }
        self.sum_in = 0;
        let mut i: usize = 1;
        while i < rp1
            invariant
                1 <= i <= rp1,
                rp1 == r + 1,
                ri == r,
                self.ready(),
                self.radius == r,
                ahead@.len() == r,
                forall|k: int| 0 <= k < rp1 ==> #[trigger] self.slots@[k] == pr,
                forall|k: int| rp1 <= k < rp1 + i - 1 ==> #[trigger] self.slots@[k] == ahead@[k - rp1],
                self.sum == pr * triangular(ri + 1) + range_sum(g, 1, i as int),
                self.sum_in == range_sum(f, 1, i as int),
                forall|j: int| 1 <= j <= ri ==> #[trigger] f(j) == ahead@[j - 1] as int,
                g == (|j: int| tap(j - 0, ri) * f(j)),
                pr == first,
                pr * triangular(ri + 1) <= 255 * 65025,
                self.sum_out == rp1 * pr,
            decreases rp1 - i,
        {
            let val = ahead[i - 1] as u64;
            proof {
                assert(f(i as int) == val);
                assert(tap(i - 0, ri) == rp1 - i);
                assert(g(i as int) == val * (rp1 - i)) by (nonlinear_arith)
                    requires g(i as int) == tap(i - 0, ri) * f(i as int), tap(i - 0, ri) == rp1 - i, f(i as int) == val;
                assert forall|j: int| 1 <= j < i implies 0 <= #[trigger] g(j) <= 65025 by {
                    assert(0 <= tap(j - 0, ri) <= 255);
                    assert(0 <= f(j) <= 255);
                    assert(0 <= tap(j - 0, ri) * f(j) <= 65025) by (nonlinear_arith)
                        requires 0 <= tap(j - 0, ri) <= 255, 0 <= f(j) <= 255;
                }
                assert forall|j: int| 1 <= j < i implies 0 <= #[trigger] f(j) <= 255 by {}
                lemma_range_sum_bounds(g, 1, i as int, 0, 65025);
                lemma_range_sum_bounds(f, 1, i as int, 0, 255);
                assert(65025 * (i - 1) <= 65025 * 255) by (nonlinear_arith)
                    requires i <= 255;
                assert(255 * (i - 1) <= 255 * 255) by (nonlinear_arith)
                    requires i <= 255;
                assert(val * (rp1 - i) <= 65025) by (nonlinear_arith)
                    requires val <= 255, rp1 - i <= 255;
            }
            self.slots.set(i - 1 + rp1, val);
            self.sum = self.sum + val * (rp1 - i) as u64;
            self.sum_in = self.sum_in + val;
            i = i + 1;
        }
        self.stack_in = 0;
        self.stack_out = rp1;
        self.window = Ghost(win);
        self.center = Ghost(0);
        proof {
            assert(self.line() == f);
            assert(rp1 * pr == first as int * (1 - (-ri))) by (nonlinear_arith)
                requires rp1 == ri + 1, pr == first;
            assert(self.sum_out == range_sum(f, 0 - ri, 1int));
            assert forall|t: int| 0 <= t < win.len() implies 0 <= #[trigger] win[t] <= 255 by {
                if t >= rp1 {
                    assert(win[t] == ahead@[t - rp1] as int);
                }
            }
            lemma_range_sum_split(g, -ri, 1, ri + 1);
            assert(kernel_sum(f, 0, ri) == range_sum(g, -ri, ri + 1));
            assert forall|k: int| 0 <= k < 2 * ri + 1 implies #[trigger] self.slots@[k] == self.window@[0 + rot(k, 0, 2 * ri + 1)] by {
                if k < rp1 {
                } else {
                    assert(win[k] == ahead@[k - rp1] as int);
                }
            }
        }
    }

    /// The output byte for the pixel the ring is centred on.
    fn output(&self) -> (res: u8)
        requires
            self.wf(),
        ensures
            res == blurred(kernel_sum(self.line(), self.center@, self.radius as int), self.radius as int),
    {
        proof {
            let f = self.line();
            let c = self.center@;
            let r = self.radius as int;
            assert forall|i: int| c - r <= i <= c + r implies 0 <= #[trigger] f(i) <= 255 by {
                assert(0 <= self.window@[i + r] <= 255);
            }
            lemma_kernel_bounds(f, c, r);
            lemma_tables(r);
            assert(self.sum * self.mul <= 255 * 255 * 509 * 512) by (nonlinear_arith)
                requires self.sum <= 255 * 255 * 509, self.mul <= 512;
        }
        ((self.sum * self.mul) >> self.shg) as u8
    }

    /// Slides the ring one position along the line; `val` enters at distance
    /// `radius + 1` of the old centre.
    #[verifier::rlimit(60)]
    fn advance(&mut self, val: u8)
        requires
            old(self).wf(),
        ensures
            final(self).wf(),
            final(self).radius == old(self).radius,
            final(self).center@ == old(self).center@ + 1,
            final(self).window@ == old(self).window@.push(val as int),
    {
        let ghost c = self.center@;
        let ghost r = self.radius as int;
        let ghost n = 2 * r + 1;
        let ghost s = self.stack_in as int;
        let ghost so = self.stack_out as int;
        let ghost f = self.line();
        let ghost w0 = self.window@;
        let ghost w1 = w0.push(val as int);
        let ghost f1 = |i: int| w1[i + r];
        let div = 2 * self.radius + 1;
        proof {
            assert forall|i: int| c - r <= i <= c + r implies 0 <= #[trigger] f(i) <= 255 by {
                assert(0 <= w0[i + r] <= 255);
            }
            lemma_kernel_bounds(f, c, r);
            lemma_range_sum_split(f, c - r, c - r + 1, c + 1);
            assert(range_sum(f, c - r, c - r) == 0);
            lemma_range_sum_bounds(f, c - r + 1, c + 1, 0, 255);
            assert(self.slots@[s] == w0[c]);
            assert(f(c - r) == w0[c]);
            assert(0 <= f(c + 1) <= 255);
        }
        self.sum = self.sum - self.sum_out;
        self.sum_out = self.sum_out - self.slots[self.stack_in];
        self.slots.set(self.stack_in, val as u64);
        self.sum_in = self.sum_in + val as u64;
        self.sum = self.sum + self.sum_in;
        proof {
            if self.stack_in + 1 < div {
                lemma_small_mod((self.stack_in + 1) as nat, div as nat);
            } else {
                lemma_mod_self_0(div as int);
            }
        }
        self.stack_in = (self.stack_in + 1) % div;
        let ghost s1 = self.stack_in as int;
        assert(so != s);
        assert(rot(so, s1, n) == r);
        assert(self.slots@[so] == w0[c + r + 1]);
        assert(f(c + 1) == w0[c + 1 + r]);
        let pr = self.slots[self.stack_out];
        self.sum_out = self.sum_out + pr;
        proof {
            lemma_range_sum_split(f, c + 1, c + 2, c + r + 1);
            assert(range_sum(f, c + 1, c + 1) == 0);
            lemma_range_sum_bounds(f, c + 2, c + r + 1, 0, 255);
        }
        self.sum_in = self.sum_in - pr;
        proof {
            if self.stack_out + 1 < div {
                lemma_small_mod((self.stack_out + 1) as nat, div as nat);
            } else {
                lemma_mod_self_0(div as int);
            }
        }
        self.stack_out = (self.stack_out + 1) % div;
        self.window = Ghost(w1);
        self.center = Ghost(c + 1);
        proof {
            assert(self.line() == f1);
            assert forall|i: int| c - r <= i <= c + r implies #[trigger] f1(i) == f(i) by {}
            assert(f1(c + r + 1) == val);
            // the old sums seen through the longer window
            let g0 = |i: int| tap(i - c, r) * f(i);
            let g1 = |i: int| tap(i - c, r) * f1(i);
            assert forall|i: int| c - r <= i < c + r + 1 implies #[trigger] g1(i) == g0(i) by {}
            lemma_range_sum_congruent(g1, g0, c - r, c + r + 1);
            lemma_range_sum_congruent(f1, f, c - r, c + 1);
            lemma_range_sum_congruent(f1, f, c + 1, c + r + 1);
            lemma_range_sum_congruent(f1, f, c + 2, c + r + 1);
            lemma_kernel_shift(f1, c, r);
            lemma_range_sum_split(f1, c - r, c - r + 1, c + 1);
            assert(range_sum(f1, c - r, c - r) == 0);
            lemma_range_sum_split(f1, c - r + 1, c + 1, c + 2);
            assert(range_sum(f1, c + 1, c + 1) == 0);
            lemma_range_sum_split(f1, c + 1, c + 2, c + r + 2);
            lemma_range_sum_split(f1, c + 2, c + r + 1, c + r + 2);
            assert(range_sum(f1, c + r + 1, c + r + 1) == 0);
            assert forall|t: int| 0 <= t < w1.len() implies 0 <= #[trigger] w1[t] <= 255 by {
                if t < w0.len() {
                    assert(0 <= w0[t] <= 255);
                }
            }
            assert forall|k: int| 0 <= k < n implies #[trigger] self.slots@[k] == w1[c + 1 + rot(k, s1, n)] by {
                if k == s {
                } else {
                    assert(self.slots@[k] == w0[c + rot(k, s, n)]);
                }
            }
        }
    }
}

/// The row through `base`, clamped at both ends.
pub open spec fn row_line(p: Seq<u8>, base: int, width: int) -> spec_fn(int) -> int {
    |i: int| p[base + clamp(i, width)] as int
}

/// The row from which the column pass takes position `j` of a column. The
/// positions ahead of the first pixel come from row 1 even when the image is a
/// single row high; that row then lies past the image in the buffer.
pub open spec fn column_row(j: int, height: int) -> int {
    if j <= 0 {
        0
    } else if height == 1 {
        1
    } else if j >= height - 1 {
        height - 1
    } else {
        j
    }
}

/// Column `x` as the column pass reads it.
pub open spec fn column_line(p: Seq<u8>, x: int, width: int, height: int) -> spec_fn(int) -> int {
    |j: int| p[column_row(j, height) * width + x] as int
}

/// The buffer after the row pass: each pixel of the image replaced by the blur
/// of its row; bytes past the image unchanged.
pub open spec fn rows_blurred(p: Seq<u8>, width: int, height: int, radius: int) -> Seq<u8> {
    Seq::new(
        p.len(),
        |k: int|
            if k < width * height {
                blurred(kernel_sum(row_line(p, (k / width) * width, width), k % width, radius), radius)
            } else {
                p[k]
            },
    )
}

/// The buffer after the column pass over `p`.
pub open spec fn columns_blurred(p: Seq<u8>, width: int, height: int, radius: int) -> Seq<u8> {
    Seq::new(
        p.len(),
        |k: int|
            if k < width * height {
                blurred(kernel_sum(column_line(p, k % width, width, height), k / width, radius), radius)
            } else {
                p[k]
            },
    )
}

/// Row `y` as the row pass reads it when it writes row `y` at
/// `offset + y * width`, `written` holding the bytes it wrote so far (from
/// `offset` on, in order). The byte the row starts from and those ahead of it
/// are read at the write position before anything is written there; each later
/// one is read at `y * width` just after the byte before it was written, so it
/// is a written byte where the pass already wrote, else the input's.
pub open spec fn offset_row_line(p: Seq<u8>, written: Seq<u8>, offset: int, width: int, y: int, radius: int) -> spec_fn(int) -> int {
    |i: int|
        if i <= radius {
            p[offset + y * width + clamp(i, width)] as int
        } else {
            let q = y * width + clamp(i, width);
            if offset <= q && q - offset <= y * width + i - radius - 1 {
                written[q - offset] as int
            } else {
                p[q] as int
            }
        }
}

/// The first `n` bytes that the row pass writes over `p`, in order: byte `k`
/// is the blur of column `k % width` of row `k / width`, as read then.
pub open spec fn row_pass_written(p: Seq<u8>, offset: int, width: int, radius: int, n: nat) -> Seq<u8>
    decreases n,
{
    if n == 0 {
        Seq::empty()
    } else {
        let w0 = row_pass_written(p, offset, width, radius, (n - 1) as nat);
        let k = n - 1;
        w0.push(blurred(kernel_sum(offset_row_line(p, w0, offset, width, k / width, radius), k % width, radius), radius))
    }
}

/// The buffer after the row pass over `p`: the bytes from `offset` on
/// replaced by those the pass writes, one per pixel of the image.
pub open spec fn rows_pass_result(p: Seq<u8>, offset: int, width: int, height: int, radius: int) -> Seq<u8> {
    let written = row_pass_written(p, offset, width, radius, (width * height) as nat);
    Seq::new(p.len(), |j: int| if offset <= j < offset + width * height { written[j - offset] } else { p[j] })
}

/// Column `x` of `p` as the column pass reads it, given the byte it starts
/// from: that byte at every position up to the first, the column's own bytes
/// from the second position on.
pub open spec fn column_line_from(p: Seq<u8>, first: int, x: int, width: int, height: int) -> spec_fn(int) -> int {
    |j: int| if j <= 0 { first } else { p[column_row(j, height) * width + x] as int }
}

/// The buffer after the column pass over `p` has done columns `0..x`. Column
/// `c` starts from the byte at `offset + c` as the buffer stands when the
/// column comes up; its other bytes are those of `p`.
pub open spec fn column_pass_state(p: Seq<u8>, offset: int, width: int, height: int, radius: int, x: nat) -> Seq<u8>
    decreases x,
{
    if x == 0 {
        p
    } else {
        let s = column_pass_state(p, offset, width, height, radius, (x - 1) as nat);
        let c = x - 1;
        let first = s[offset + c] as int;
        Seq::new(
            s.len(),
            |k: int|
                if 0 <= k < width * height && k % width == c {
                    blurred(kernel_sum(column_line_from(p, first, c, width, height), k / width, radius), radius)
                } else {
                    s[k]
                },
        )
    }
}

proof fn lemma_cell(y: int, x: int, width: int)
    requires
        0 <= x < width,
        0 <= y,
    ensures
        (y * width + x) / width == y,
        (y * width + x) % width == x,
        ((y * width + x) / width) * width == y * width,
{
    lemma_fundamental_div_mod_converse(y * width + x, width, y, x);
}

proof fn lemma_next_row(y: int, width: int, height: int)
    requires
        0 <= y < height,
        1 <= width,
    ensures
        y * width + width == (y + 1) * width,
        (y + 1) * width <= width * height,
        0 <= y * width,
{
    assert(y * width + width == (y + 1) * width) by (nonlinear_arith);
    assert((y + 1) * width <= width * height) by (nonlinear_arith)
        requires y + 1 <= height, 1 <= width;
    assert(0 <= y * width) by (nonlinear_arith)
        requires 0 <= y, 1 <= width;
}

/// Weighted sums over two lines agree where the lines agree.
proof fn lemma_kernel_congruent(f: spec_fn(int) -> int, g: spec_fn(int) -> int, c: int, r: int)
    requires
        forall|i: int| c - r <= i <= c + r ==> #[trigger] f(i) == g(i),
    ensures
        kernel_sum(f, c, r) == kernel_sum(g, c, r),
{
    let gf = |i: int| tap(i - c, r) * f(i);
    let gg = |i: int| tap(i - c, r) * g(i);
    assert forall|i: int| c - r <= i < c + r + 1 implies #[trigger] gf(i) == gg(i) by {
        assert(f(i) == g(i));
    }
    lemma_range_sum_congruent(gf, gg, c - r, c + r + 1);
}

/// The row pass: blurs rows `0..height`, read at `y * width`, written at
/// `offset + y * width`.
fn blur_rows(pixels: &mut [u8], stack: &mut BlurStack, offset: usize, width: usize, height: usize)
    requires
        old(stack).ready(),
        1 <= width,
        1 <= height,
        offset + width * height <= old(pixels)@.len(),
    ensures
        final(stack).ready(),
        final(stack).radius == old(stack).radius,
        final(pixels)@.len() == old(pixels)@.len(),
        forall|k: int|
            0 <= k < old(pixels)@.len() && !(offset <= k < offset + width * height)
                ==> #[trigger] final(pixels)@[k] == old(pixels)@[k],
        offset == 0 ==> final(pixels)@ == rows_blurred(old(pixels)@, width as int, height as int, old(stack).radius as int),
        final(pixels)@ == rows_pass_result(old(pixels)@, offset as int, width as int, height as int, old(stack).radius as int),
{
    let ghost p0 = pixels@;
    let ghost ri = stack.radius as int;
    let ghost wi = width as int;
    let ghost hi = height as int;
    let radius = stack.radius;
    let len = pixels.len();
    let width_minus_1 = width - 1;
    let mut yw: usize = 0;
    let mut yi: usize = offset;
    let mut y: usize = 0;
    proof {
        assert(0 <= width * height) by (nonlinear_arith)
            requires 1 <= width, 1 <= height;
    }
    while y < height
        invariant
            y <= height,
            yw == y * width,
            yi == offset + y * width,
            y * width <= width * height,
            offset + width * height <= p0.len(),
            pixels@.len() == p0.len(),
            len == p0.len(),
            stack.ready(),
            stack.radius == radius,
            ri == radius,
            wi == width,
            hi == height,
            width_minus_1 == width - 1,
            1 <= width,
            forall|k: int|
                0 <= k < p0.len() && !(offset <= k < offset + y * width) ==> #[trigger] pixels@[k] == p0[k],
            offset == 0 ==> forall|k: int| 0 <= k < y * width ==> #[trigger] pixels@[k] == rows_blurred(p0, wi, hi, ri)[k],
            forall|j: int| 0 <= j < p0.len() ==> #[trigger] pixels@[j] == (if offset <= j < offset + y * width {
                row_pass_written(p0, offset as int, wi, ri, (y * width) as nat)[j - offset]
            } else {
                p0[j]
            }),
            row_pass_written(p0, offset as int, wi, ri, (y * width) as nat).len() == y * width,
        decreases height - y,
    {
        proof {
            lemma_next_row(y as int, wi, hi);
        }
        let ghost row_start = pixels@;
        let first = pixels[yi];
        let mut ahead: Vec<u8> = Vec::new();
        let mut i: usize = 1;
        while i <= radius
            invariant
                1 <= i <= radius + 1,
                radius < 255,
                ahead@.len() == i - 1,
                yi + width <= pixels@.len(),
                len == pixels@.len(),
                pixels@ == row_start,
                width_minus_1 == width - 1,
                forall|j: int| 1 <= j < i ==> #[trigger] ahead@[j - 1] == pixels@[yi + clamp(j, width as int)],
            decreases radius + 1 - i,
        {
            let p = yi + if width_minus_1 < i { width_minus_1 } else { i };
            ahead.push(pixels[p]);
            i = i + 1;
        }
        stack.restart(first, &ahead);
        let ghost line = row_line(p0, yw as int, wi);
        let ghost mut written = row_pass_written(p0, offset as int, wi, ri, (y * width) as nat);
        proof {
            let ol = offset_row_line(p0, written, offset as int, wi, y as int, ri);
            assert forall|i: int| -ri <= i <= 0 + ri && i <= wi - 1 + ri implies #[trigger] stack.line()(i) == ol(i) by {
                if i >= 1 {
                    assert(stack.line()(i) == ahead@[i - 1] as int);
                    assert(ahead@[i - 1] == row_start[yi + clamp(i, width as int)]);
                } else {
                    assert(clamp(i, wi) == 0);
                }
            }
        }
        let mut x: usize = 0;
        while x < width
            invariant
                x <= width,
                yw == y * width,
                yi == offset + y * width + x,
                y < height,
                (y + 1) * width <= width * height,
                y * width + width == (y + 1) * width,
                offset + width * height <= p0.len(),
                pixels@.len() == p0.len(),
                len == p0.len(),
                stack.wf(),
                stack.radius == radius,
                stack.center@ == x,
                ri == radius,
                wi == width,
                hi == height,
                width_minus_1 == width - 1,
                1 <= width,
                line == row_line(p0, yw as int, wi),
                forall|k: int|
                    0 <= k < p0.len() && !(offset <= k < offset + y * width + x) ==> #[trigger] pixels@[k] == p0[k],
                offset == 0 ==> forall|k: int| 0 <= k < y * width + x ==> #[trigger] pixels@[k] == rows_blurred(p0, wi, hi, ri)[k],
                offset == 0 ==> forall|i: int| -ri <= i <= x + ri && i <= wi - 1 + ri ==> #[trigger] stack.line()(i) == line(i),
                written == row_pass_written(p0, offset as int, wi, ri, (y * width + x) as nat),
                written.len() == y * width + x,
                forall|j: int| 0 <= j < p0.len() ==> #[trigger] pixels@[j] == (if offset <= j < offset + y * width + x {
                    written[j - offset]
                } else {
                    p0[j]
                }),
                forall|i: int| -ri <= i <= x + ri && i <= wi - 1 + ri ==> #[trigger] stack.line()(i) == offset_row_line(p0, written, offset as int, wi, y as int, ri)(i),
            decreases width - x,
        {
            let out = stack.output();
            proof {
                if offset == 0 {
                    lemma_kernel_congruent(stack.line(), line, x as int, ri);
                    lemma_cell(y as int, x as int, wi);
                    assert(rows_blurred(p0, wi, hi, ri)[y * width + x] == blurred(kernel_sum(line, x as int, ri), ri));
                }
                let ol = offset_row_line(p0, written, offset as int, wi, y as int, ri);
                lemma_kernel_congruent(stack.line(), ol, x as int, ri);
                lemma_cell(y as int, x as int, wi);
                let k = y * width + x;
                assert(row_pass_written(p0, offset as int, wi, ri, (k + 1) as nat) == written.push(
                    blurred(kernel_sum(ol, x as int, ri), ri),
                ));
                let old_written = written;
                written = written.push(out);
                let nl = offset_row_line(p0, written, offset as int, wi, y as int, ri);
                assert forall|i: int| -ri <= i <= x + ri && i <= wi - 1 + ri implies #[trigger] stack.line()(i) == nl(i) by {
                    assert(ol(i) == nl(i));
                }
            }
            pixels[yi] = out;
            let p = yw + if width_minus_1 - x <= radius { width_minus_1 } else { x + radius + 1 };
            let val = pixels[p];
            proof {
                if offset == 0 && x < width_minus_1 {
                    assert(p > yi);
                    assert(pixels@[p as int] == p0[p as int]);
                    assert(line(x + ri + 1) == p0[yw + clamp(x + ri + 1, wi)]);
                }
            }
            proof {
                let nl = offset_row_line(p0, written, offset as int, wi, y as int, ri);
                if x < width_minus_1 || x + ri + 1 <= wi - 1 + ri {
                    assert(nl(x + ri + 1) == val as int);
                }
            }
            let ghost before = stack.line();
            stack.advance(val);
            proof {
                assert forall|i: int| -ri <= i <= x + ri implies #[trigger] stack.line()(i) == before(i) by {}
            }
            yi = yi + 1;
            x = x + 1;
        }
        yw = yw + width;
        y = y + 1;
    }
    proof {
        assert(y * width == width * height) by (nonlinear_arith)
            requires y == height;
        assert(pixels@ =~= rows_pass_result(p0, offset as int, wi, hi, ri));
        if offset == 0 {
            let rb = rows_blurred(p0, wi, hi, ri);
            assert forall|k: int| 0 <= k < p0.len() implies #[trigger] pixels@[k] == rb[k] by {
                if k >= y * width {
                    assert(pixels@[k] == p0[k]);
                }
            }
            assert(pixels@ =~= rb);
        }
    }
}

/// Index of the pixel in row `y`, column `x`.
pub open spec fn cell(y: int, x: int, width: int) -> int {
    y * width + x
}

proof fn lemma_cell_bounds(y: int, x: int, width: int, height: int)
    requires
        0 <= y < height,
        0 <= x < width,
    ensures
        0 <= cell(y, x, width) < width * height,
        cell(y, x, width) / width == y,
        cell(y, x, width) % width == x,
{
    lemma_fundamental_div_mod_converse(y * width + x, width, y, x);
    assert(y * width + x < width * height) by (nonlinear_arith)
        requires 0 <= y < height, 0 <= x < width;
    assert(0 <= y * width) by (nonlinear_arith)
        requires 0 <= y, 0 <= x < width;
}

proof fn lemma_cell_of(k: int, width: int, height: int)
    requires
        0 <= k < width * height,
        1 <= width,
    ensures
        0 <= k / width < height,
        0 <= k % width < width,
        cell(k / width, k % width, width) == k,
{
    vstd::arithmetic::div_mod::lemma_fundamental_div_mod(k, width);
    vstd::arithmetic::div_mod::lemma_mod_pos_bound(k, width);
    vstd::arithmetic::div_mod::lemma_div_pos_is_pos(k, width);
    let q = k / width;
    let m = k % width;
    assert(q < height) by (nonlinear_arith)
        requires k == width * q + m, 0 <= m, k < width * height, 1 <= width;
    assert(cell(q, m, width) == k) by (nonlinear_arith)
        requires k == width * q + m;
}

/// The column pass: blurs columns `0..width` in place; the first byte of
/// column `x` is read at `offset + x`.
fn blur_columns(pixels: &mut [u8], stack: &mut BlurStack, offset: usize, width: usize, height: usize)
    requires
        old(stack).ready(),
        1 <= width,
        1 <= height,
        offset + width * height <= old(pixels)@.len(),
        height == 1 ==> 2 * width <= old(pixels)@.len(),
    ensures
        final(stack).ready(),
        final(stack).radius == old(stack).radius,
        final(pixels)@.len() == old(pixels)@.len(),
        forall|k: int|
            width * height <= k < old(pixels)@.len() ==> #[trigger] final(pixels)@[k] == old(pixels)@[k],
        offset == 0 ==> final(pixels)@ == columns_blurred(old(pixels)@, width as int, height as int, old(stack).radius as int),
        final(pixels)@ == column_pass_state(old(pixels)@, offset as int, width as int, height as int, old(stack).radius as int, width as nat),
{
    let ghost p0 = pixels@;
    let ghost ri = stack.radius as int;
    let ghost wi = width as int;
    let ghost hi = height as int;
    let ghost cb = columns_blurred(p0, wi, hi, ri);
    let radius = stack.radius;
    let len = pixels.len();
    let height_minus_1 = height - 1;
    let radius_plus_1 = radius + 1;
    proof {
        lemma_cell_bounds(hi - 1, 0, wi, hi);
        assert(width <= width * height) by (nonlinear_arith)
            requires 1 <= width, 1 <= height;
    }
    let mut x: usize = 0;
    while x < width
        invariant
            x <= width,
            1 <= width,
            1 <= height,
            width <= width * height,
            offset + width * height <= p0.len(),
            height == 1 ==> 2 * width <= p0.len(),
            pixels@.len() == p0.len(),
            len == p0.len(),
            stack.ready(),
            stack.radius == radius,
            radius_plus_1 == radius + 1,
            height_minus_1 == height - 1,
            ri == radius,
            wi == width,
            hi == height,
            cb == columns_blurred(p0, wi, hi, ri),
            forall|k: int| width * height <= k < p0.len() ==> #[trigger] pixels@[k] == p0[k],
            forall|yy: int, xx: int| 0 <= yy < hi && x <= xx < wi ==> #[trigger] pixels@[cell(yy, xx, wi)] == p0[cell(yy, xx, wi)],
            offset == 0 ==> forall|yy: int, xx: int| 0 <= yy < hi && 0 <= xx < x ==> #[trigger] pixels@[cell(yy, xx, wi)] == cb[cell(yy, xx, wi)],
            pixels@ == column_pass_state(p0, offset as int, wi, hi, ri, x as nat),
        decreases width - x,
    {
        let ghost col_start = pixels@;
        let ghost line = column_line(p0, x as int, wi, hi);
        let first = pixels[offset + x];
        let ghost lf = column_line_from(p0, first as int, x as int, wi, hi);
        let ghost target = column_pass_state(p0, offset as int, wi, hi, ri, (x + 1) as nat);
        proof {
            assert(target == Seq::new(
                col_start.len(),
                |k: int|
                    if 0 <= k < wi * hi && k % wi == x {
                        blurred(kernel_sum(lf, k / wi, ri), ri)
                    } else {
                        col_start[k]
                    },
            ));
        }
        proof {
            if offset == 0 {
                lemma_cell_bounds(0, x as int, wi, hi);
                assert(pixels@[cell(0, x as int, wi)] == p0[cell(0, x as int, wi)]);
                assert(line(0) == p0[cell(0, x as int, wi)]);
            }
        }
        let mut ahead: Vec<u8> = Vec::new();
        let mut yp: usize = width;
        let mut i: usize = 1;
        while i <= radius
            invariant
                1 <= i <= radius + 1,
                radius < 255,
                ahead@.len() == i - 1,
                x < width,
                1 <= width,
                1 <= height,
                height_minus_1 == height - 1,
                pixels@ == col_start,
                pixels@.len() == p0.len(),
                len == p0.len(),
                offset + width * height <= p0.len(),
                height == 1 ==> 2 * width <= p0.len(),
                wi == width,
                hi == height,
                line == column_line(p0, x as int, wi, hi),
                yp == (if height == 1 { 1 } else if i <= height - 1 { i as int } else { height - 1 }) * width,
                forall|k: int| width * height <= k < p0.len() ==> #[trigger] pixels@[k] == p0[k],
                forall|yy: int, xx: int| 0 <= yy < hi && x <= xx < wi ==> #[trigger] pixels@[cell(yy, xx, wi)] == p0[cell(yy, xx, wi)],
                forall|j: int| 1 <= j < i ==> #[trigger] ahead@[j - 1] == line(j),
            decreases radius + 1 - i,
        {
            let ghost row = if height == 1 { 1 } else if i <= height - 1 { i as int } else { height - 1 };
            proof {
                if height == 1 {
                    assert(yp == width);
                    assert(yp + x < p0.len());
                    assert(pixels@[yp + x] == p0[yp + x]);
                } else {
                    lemma_cell_bounds(row, x as int, wi, hi);
                    assert(yp + x == cell(row, x as int, wi));
                    assert(pixels@[cell(row, x as int, wi)] == p0[cell(row, x as int, wi)]);
                }
                assert(column_row(i as int, hi) == row);
            }
            let yi = yp + x;
            ahead.push(pixels[yi]);
            if i < height_minus_1 {
                proof {
                    assert(yp + width == (i + 1) * width) by (nonlinear_arith)
                        requires yp == i * width;
                    lemma_cell_bounds(i + 1, 0, wi, hi);
                }
                yp = yp + width;
            }
            i = i + 1;
        }
        stack.restart(first, &ahead);
        proof {
            assert forall|j: int| -ri <= j <= 0 + ri && j <= hi - 1 + ri implies #[trigger] stack.line()(j) == lf(j) by {
                if j >= 1 {
                    assert(stack.line()(j) == ahead@[j - 1] as int);
                }
            }
        }
        let mut y: usize = 0;
        while y < height
            invariant
                y <= height,
                x < width,
                1 <= width,
                1 <= height,
                offset + width * height <= p0.len(),
                pixels@.len() == p0.len(),
                len == p0.len(),
                stack.wf(),
                stack.radius == radius,
                stack.center@ == y,
                radius_plus_1 == radius + 1,
                height_minus_1 == height - 1,
                ri == radius,
                wi == width,
                hi == height,
                cb == columns_blurred(p0, wi, hi, ri),
                line == column_line(p0, x as int, wi, hi),
                forall|k: int| width * height <= k < p0.len() ==> #[trigger] pixels@[k] == p0[k],
                forall|yy: int, xx: int| 0 <= yy < hi && x < xx < wi ==> #[trigger] pixels@[cell(yy, xx, wi)] == p0[cell(yy, xx, wi)],
                forall|yy: int| y <= yy < hi ==> #[trigger] pixels@[cell(yy, x as int, wi)] == p0[cell(yy, x as int, wi)],
                offset == 0 ==> forall|yy: int, xx: int| 0 <= yy < hi && 0 <= xx < x ==> #[trigger] pixels@[cell(yy, xx, wi)] == cb[cell(yy, xx, wi)],
                offset == 0 ==> forall|yy: int| 0 <= yy < y ==> #[trigger] pixels@[cell(yy, x as int, wi)] == cb[cell(yy, x as int, wi)],
                offset == 0 ==> forall|j: int| -ri <= j <= y + ri && j <= hi - 1 + ri ==> #[trigger] stack.line()(j) == line(j),
                forall|j: int| -ri <= j <= y + ri && j <= hi - 1 + ri ==> #[trigger] stack.line()(j) == lf(j),
                lf == column_line_from(p0, first as int, x as int, wi, hi),
                col_start == column_pass_state(p0, offset as int, wi, hi, ri, x as nat),
                target == column_pass_state(p0, offset as int, wi, hi, ri, (x + 1) as nat),
                target.len() == col_start.len(),
                col_start.len() == p0.len(),
                forall|k: int| 0 <= k < wi * hi && k % wi == x ==> #[trigger] target[k] == blurred(kernel_sum(lf, k / wi, ri), ri),
                forall|k: int| 0 <= k < p0.len() && !(0 <= k < wi * hi && k % wi == x) ==> #[trigger] target[k] == col_start[k],
                forall|k: int| 0 <= k < p0.len() && !(0 <= k < wi * hi && k % wi == x && k / wi < y) ==> #[trigger] pixels@[k] == col_start[k],
                forall|yy: int| 0 <= yy < y ==> #[trigger] pixels@[cell(yy, x as int, wi)] == target[cell(yy, x as int, wi)],
            decreases height - y,
        {
            proof {
                lemma_cell_bounds(y as int, x as int, wi, hi);
            }
            let yi = x + y * width;
            let out = stack.output();
            proof {
                if offset == 0 {
                    lemma_kernel_congruent(stack.line(), line, y as int, ri);
                    assert(cb[cell(y as int, x as int, wi)] == blurred(kernel_sum(line, y as int, ri), ri));
                }
                lemma_kernel_congruent(stack.line(), lf, y as int, ri);
                assert(target[cell(y as int, x as int, wi)] == blurred(kernel_sum(lf, y as int, ri), ri));
            }
            let ghost before_write = pixels@;
            pixels[yi] = out;
            proof {
                assert forall|yy: int, xx: int| 0 <= yy < hi && 0 <= xx < wi && (yy != y || xx != x)
                    implies #[trigger] pixels@[cell(yy, xx, wi)] == before_write[cell(yy, xx, wi)] by {
                    lemma_cell_bounds(yy, xx, wi, hi);
                    lemma_cell_bounds(y as int, x as int, wi, hi);
                }
            }
            let row = if height_minus_1 - y <= radius { height_minus_1 } else { y + radius_plus_1 };
            proof {
                lemma_cell_bounds(row as int, x as int, wi, hi);
            }
            let p = x + row * width;
            let val = pixels[p];
            proof {
                if y < height_minus_1 {
                    assert(row > y);
                    assert(p == cell(row as int, x as int, wi));
                    assert(pixels@[cell(row as int, x as int, wi)] == p0[cell(row as int, x as int, wi)]);
                    assert(column_row(y + ri + 1, hi) == row);
                    assert(lf(y + ri + 1) == val as int);
                }
            }
            let ghost before = stack.line();
            stack.advance(val);
            proof {
                assert forall|j: int| -ri <= j <= y + ri implies #[trigger] stack.line()(j) == before(j) by {}
            }
            proof {
                assert forall|k: int| 0 <= k < p0.len() && !(0 <= k < wi * hi && k % wi == x && k / wi < y + 1)
                    implies #[trigger] pixels@[k] == col_start[k] by {
                    if 0 <= k < wi * hi {
                        lemma_cell_of(k, wi, hi);
                        lemma_cell_bounds(y as int, x as int, wi, hi);
                    }
                }
            }
            y = y + 1;
        }
        proof {
            assert forall|k: int| 0 <= k < p0.len() implies #[trigger] pixels@[k] == target[k] by {
                if 0 <= k < wi * hi && k % wi == x {
                    lemma_cell_of(k, wi, hi);
                    assert(pixels@[cell(k / wi, x as int, wi)] == target[cell(k / wi, x as int, wi)]);
                }
            }
            assert(pixels@ =~= target);
        }
        x = x + 1;
    }
    proof {
        if offset == 0 {
            assert forall|k: int| 0 <= k < p0.len() implies #[trigger] pixels@[k] == cb[k] by {
                if k < width * height {
                    lemma_cell_of(k, wi, hi);
                    assert(pixels@[cell(k / wi, k % wi, wi)] == cb[cell(k / wi, k % wi, wi)]);
                }
            }
            assert(pixels@ =~= cb);
        }
    }
}

/// Stack-blurs an image of `height` rows of `width` one-byte pixels, stored
/// row after row in `pixels`, with the given radius: first every row, then
/// every column.
///
/// The rows are written from index `top_y * width + top_x` on; the first
/// pixels of a row are read there and the rest from index `y * width`, so
/// with offsets the row pass may read what it wrote (`rows_pass_result`). The
/// columns are written from index 0 on; the first pixel of each column is read
/// at the same offset, the rest of the column from index 0 on
/// (`column_pass_state`). With both offsets zero the result is the blur of the
/// image at the start of the buffer.
pub fn blur_image_data(
    pixels: &mut [u8],
    top_x: usize,
    top_y: usize,
    width: usize,
    height: usize,
    radius: usize,
)
    requires
        1 <= width,
        1 <= height,
        1 <= radius < 255,
        top_y * width + top_x + width * height <= old(pixels)@.len(),
        height == 1 ==> 2 * width <= old(pixels)@.len(),
    ensures
        final(pixels)@.len() == old(pixels)@.len(),
        forall|k: int|
            0 <= k < old(pixels)@.len() && width * height <= k && !(top_y * width + top_x <= k
                < top_y * width + top_x + width * height) ==> #[trigger] final(pixels)@[k] == old(pixels)@[k],
        top_x == 0 && top_y == 0 ==> final(pixels)@ == columns_blurred(
            rows_blurred(old(pixels)@, width as int, height as int, radius as int),
            width as int,
            height as int,
            radius as int,
        ),
        final(pixels)@ == column_pass_state(
            rows_pass_result(old(pixels)@, top_y * width + top_x, width as int, height as int, radius as int),
            top_y * width + top_x,
            width as int,
            height as int,
            radius as int,
            width as nat,
        ),
{
    let len = pixels.len();
    proof {
        assert(0 <= width * height) by (nonlinear_arith)
            requires 1 <= width, 1 <= height;
        assert(0 <= top_y * width) by (nonlinear_arith)
            requires 1 <= width;
    }
    let offset = top_y * width + top_x;
    let mut stack = BlurStack::new(radius);
    blur_rows(pixels, &mut stack, offset, width, height);
    blur_columns(pixels, &mut stack, offset, width, height);
}

} // verus!
