use vstd::prelude::*;

verus! {

/// Largest value of a `u32`, as a spec integer.
pub open spec fn u32_max() -> nat {
    0xFFFF_FFFF
}

/// `w` is the ceiling of the square root of `num / den`: the least natural
/// number whose square, times `den`, reaches `num`.
pub open spec fn is_ceil_root(w: nat, num: nat, den: nat) -> bool {
    w * w * den >= num && (w == 0 || ((w - 1) * (w - 1) * den) < num)
}

/// The ceiling of the square root of `num / den`.
pub open spec fn ceil_root(num: nat, den: nat) -> nat {
    choose|w: nat| is_ceil_root(w, num, den)
}

/// The image size, in pixels, for `n` pixels at aspect ratio `x : y`:
/// width `ceil(sqrt(n * x / y))` and height `ceil(sqrt(n * y / x))`.
/// There is none when `n`, `x` or `y` is zero, for then one side would be
/// zero or unbounded.
pub open spec fn size_for(n: nat, x: nat, y: nat) -> Option<(nat, nat)> {
    if n == 0 || x == 0 || y == 0 {
        None
    } else {
        Some((ceil_root(n * x, y), ceil_root(n * y, x)))
    }
}

proof fn lemma_square_mono(a: nat, b: nat, d: nat)
    requires
        a <= b,
    ensures
        a * a * d <= b * b * d,
{
    assert(a * a <= b * b) by (nonlinear_arith)
        requires
            a <= b,
    ;
    assert(a * a * d <= b * b * d) by (nonlinear_arith)
        requires
            a * a <= b * b,
    ;
}

/// The ceiling root is unique, so `ceil_root` names it.
proof fn lemma_ceil_root_unique(w: nat, num: nat, den: nat)
    requires
        is_ceil_root(w, num, den),
    ensures
        ceil_root(num, den) == w,
{
    let c = ceil_root(num, den);
    assert(is_ceil_root(c, num, den));
    if c < w {
        lemma_square_mono(c, (w - 1) as nat, den);
    } else if w < c {
        lemma_square_mono(w, (c - 1) as nat, den);
    }
}

/// Some natural number below or at `w` is a ceiling root, when `w` itself
/// reaches `num`.
proof fn lemma_root_below(w: nat, num: nat, den: nat)
    requires
        w * w * den >= num,
    ensures
        exists|v: nat| is_ceil_root(v, num, den),
    decreases w,
{
    if w == 0 || ((w - 1) * (w - 1) * den) < num {
        assert(is_ceil_root(w, num, den));
    } else {
        lemma_root_below((w - 1) as nat, num, den);
    }
}

/// Every `num` has a ceiling root over a positive `den`.
proof fn lemma_ceil_root_exists(num: nat, den: nat)
    requires
        den > 0,
    ensures
        is_ceil_root(ceil_root(num, den), num, den),
{
    assert(num * num * den >= num) by (nonlinear_arith)
        requires
            den > 0,
    ;
    lemma_root_below(num, num, den);
}

/// Computes `ceil(sqrt(num / den))` exactly, by bisection.
pub fn ceil_root_of(num: u64, den: u32) -> (w: u32)
    requires
        den > 0,
        num <= u32_max() * u32_max(),
    ensures
        is_ceil_root(w as nat, num as nat, den as nat),
        w as nat == ceil_root(num as nat, den as nat),
{
    let mut lo: u64 = 0;
    let mut hi: u64 = 0xFFFF_FFFF;
    proof {
        lemma_square_mono(1, hi as nat, den as nat);
        assert(hi * hi * den >= hi * hi) by (nonlinear_arith)
            requires
                den >= 1,
        ;
    }
    while lo < hi
        invariant
            lo <= hi <= u32_max(),
            (hi * hi * den) as nat >= num,
            lo == 0 || (((lo - 1) * (lo - 1) * den) as nat) < num,
        decreases hi - lo,
    {
        let mid: u64 = lo + (hi - lo) / 2;
        proof {
            lemma_square_mono(mid as nat, u32_max(), den as nat);
            lemma_square_mono(den as nat, u32_max(), 1);
            assert(u32_max() * u32_max() * den <= u32_max() * u32_max() * u32_max()) by (
            nonlinear_arith)
                requires
                    den <= u32_max(),
            ;
            assert(mid * mid * den <= u32_max() * u32_max() * u32_max());
            assert(u32_max() * u32_max() * u32_max() < 0x1_0000_0000_0000_0000_0000_0000_0000_0000);
            assert(mid * mid <= u32_max() * u32_max()) by (nonlinear_arith)
                requires
                    mid <= u32_max(),
            ;
        }
        let sq: u128 = (mid as u128) * (mid as u128) * (den as u128);
        if sq >= num as u128 {
            hi = mid;
        } else {
            lo = mid + 1;
        }
    }
    let w = hi as u32;
    proof {
        lemma_ceil_root_unique(w as nat, num as nat, den as nat);
    }
    w
}

/// The two sides of an image whose ceiling roots are taken as in `size_for`
/// hold at least `n` pixels between them.
proof fn lemma_size_covers(n: nat, x: nat, y: nat, w: nat, h: nat)
    requires
        x > 0,
        y > 0,
        w * w * y >= n * x,
        h * h * x >= n * y,
    ensures
        w * h >= n,
{
    assert((w * w * y) * (h * h * x) >= (n * x) * (n * y)) by (nonlinear_arith)
        requires
            w * w * y >= n * x,
            h * h * x >= n * y,
    ;
    assert((w * h) * (w * h) * (x * y) >= (n * n) * (x * y)) by (nonlinear_arith)
        requires
            (w * w * y) * (h * h * x) >= (n * x) * (n * y),
    ;
    assert(x * y > 0) by (nonlinear_arith)
        requires
            x > 0,
            y > 0,
    ;
    assert((w * h) * (w * h) >= n * n) by (nonlinear_arith)
        requires
            (w * h) * (w * h) * (x * y) >= (n * n) * (x * y),
            x * y > 0,
    ;
    if w * h < n {
        assert((w * h) * (w * h) < n * n) by (nonlinear_arith)
            requires
                w * h < n,
        ;
    }
}

/// The width and height of the image that holds `n` pixels at aspect ratio
/// `x : y`; `None` when `n`, `x` or `y` is zero.
///
/// The sides are exact ceiling square roots of the rationals `n * x / y` and
/// `n * y / x`. Sizing through `f64` square roots can differ from them in
/// rare rounding cases, where `n * x / y` lies right next to a perfect
/// square; for a square ratio the two always agree.
pub fn dimensions(n: u32, x: u32, y: u32) -> (r: Option<(u32, u32)>)
    ensures
        r is None <==> size_for(n as nat, x as nat, y as nat) is None,
        r matches Some((w, h)) ==> size_for(n as nat, x as nat, y as nat) == Some(
            (w as nat, h as nat),
        ),
        r matches Some((w, h)) ==> w >= 1 && h >= 1 && w * h >= n,
{
    if n == 0 || x == 0 || y == 0 {
        return None;
    }
    proof {
        lemma_square_mono(n as nat, u32_max(), 1);
        lemma_square_mono(x as nat, u32_max(), 1);
        lemma_square_mono(y as nat, u32_max(), 1);
        assert(n * x <= u32_max() * u32_max()) by (nonlinear_arith)
            requires
                n <= u32_max(),
                x <= u32_max(),
        ;
        assert(n * y <= u32_max() * u32_max()) by (nonlinear_arith)
            requires
                n <= u32_max(),
                y <= u32_max(),
        ;
    }
    let w = ceil_root_of(n as u64 * x as u64, y);
    let h = ceil_root_of(n as u64 * y as u64, x);
    proof {
        lemma_size_covers(n as nat, x as nat, y as nat, w as nat, h as nat);
        assert(w as nat * h as nat >= n as nat);
        assert(n * x >= 1) by (nonlinear_arith)
            requires
                n >= 1,
                x >= 1,
        ;
        assert(n * y >= 1) by (nonlinear_arith)
            requires
                n >= 1,
                y >= 1,
        ;
        assert(w >= 1) by (nonlinear_arith)
            requires
                w * w * y >= n * x,
                n * x >= 1,
        ;
        assert(h >= 1) by (nonlinear_arith)
            requires
                h * h * x >= n * y,
                n * y >= 1,
        ;
    }
    Some((w, h))
}

/// The image size chosen for `n` pixels always holds them all.
pub proof fn lemma_size_for_covers(n: nat, x: nat, y: nat)
    ensures
        size_for(n, x, y) matches Some((w, h)) ==> w * h >= n && w >= 1 && h >= 1,
{
    if n > 0 && x > 0 && y > 0 {
        lemma_ceil_root_exists(n * x, y);
        lemma_ceil_root_exists(n * y, x);
        let w = ceil_root(n * x, y);
        let h = ceil_root(n * y, x);
        lemma_size_covers(n, x, y, w, h);
        assert(n * x >= 1 && n * y >= 1) by (nonlinear_arith)
            requires
                n >= 1,
                x >= 1,
                y >= 1,
        ;
        assert(w >= 1) by (nonlinear_arith)
            requires
                w * w * y >= n * x,
                n * x >= 1,
        ;
        assert(h >= 1) by (nonlinear_arith)
            requires
                h * h * x >= n * y,
                n * y >= 1,
        ;
    }
}

/// For a square aspect ratio `x : x` both sides equal `ceil(sqrt(n))`.
pub proof fn lemma_square_aspect(n: nat, x: nat)
    requires
        n > 0,
        x > 0,
    ensures
        size_for(n, x, x) == Some((ceil_root(n, 1), ceil_root(n, 1))),
{
    let w = ceil_root(n * x, x);
    lemma_ceil_root_exists(n * x, x);
    assert(is_ceil_root(w, n * x, x));
    assert(w * w * x >= n * x);
    assert(w * w >= n) by (nonlinear_arith)
        requires
            w * w * x >= n * x,
            x > 0,
    ;
    if w > 0 {
        let v = (w - 1) as nat;
        assert(v * v * x < n * x);
        assert(v * v < n) by (nonlinear_arith)
            requires
                v * v * x < n * x,
                x > 0,
        ;
    }
    assert(is_ceil_root(w, n, 1));
    lemma_ceil_root_unique(w, n, 1);
}

} // verus!
