//! Pixel rows of the bubble's border images.
use vstd::prelude::*;

verus! {

/// Reverses the `w` pixels that start at `row`.
fn flip_row(c: &mut Vec<u32>, row: usize, w: usize)
    requires
        row + w <= old(c)@.len(),
    ensures
        final(c)@.len() == old(c)@.len(),
        forall|x: int| 0 <= x < w ==> #[trigger] final(c)@[row + x] == old(c)@[row + (w - 1 - x)],
        forall|i: int|
            0 <= i < old(c)@.len() && !(row <= i < row + w) ==> #[trigger] final(c)@[i] == old(c)@[i],
{
    let ghost orig = c@;
    let n = c.len();
    let mut x: usize = 0;
    while x < w / 2
        invariant
            n == orig.len(),
            c@.len() == orig.len(),
            row + w <= orig.len(),
            x <= w / 2,
            forall|xx: int|
                0 <= xx < x ==> #[trigger] c@[row + xx] == orig[row + (w - 1 - xx)] && c@[row + (w - 1
                    - xx)] == orig[row + xx],
            forall|xx: int| x <= xx < w - x ==> #[trigger] c@[row + xx] == orig[row + xx],
            forall|i: int|
                0 <= i < orig.len() && !(row <= i < row + w) ==> #[trigger] c@[i] == orig[i],
        decreases w / 2 - x,
    {
        let i1 = row + x;
        let i2 = row + (w - 1 - x);
        let a = c[i1];
        let b = c[i2];
        c[i1] = b;
        c[i2] = a;
        x = x + 1;
    }
    assert forall|xx: int| 0 <= xx < w implies #[trigger] c@[row + xx] == orig[row + (w - 1 - xx)] by {
        if xx < x {
        } else if xx >= w - x {
            let m = w - 1 - xx;
            assert(0 <= m < x);
            assert(c@[row + m] == orig[row + (w - 1 - m)]);
            assert(row + (w - 1 - m) == row + xx);
        } else {
            assert(xx == w - 1 - xx);
        }
    }
}

/// Mirrors each row of a `w` by `h` image in place, left to right.
pub fn flip_x(c: &mut Vec<u32>, w: usize, h: usize)
    requires
        w * h <= old(c)@.len(),
    ensures
        final(c)@.len() == old(c)@.len(),
        forall|y: int, x: int|
            0 <= y < h && 0 <= x < w ==> #[trigger] final(c)@[y * w + x] == old(c)@[y * w + (w - 1
                - x)],
        forall|i: int| w * h <= i < old(c)@.len() ==> #[trigger] final(c)@[i] == old(c)@[i],
{
    let ghost orig = c@;
    let n = c.len();
    let mut y: usize = 0;
    let mut row: usize = 0;
    while y < h
        invariant
            n == orig.len(),
            w * h <= n,
            c@.len() == n,
            y <= h,
            row == y * w,
            forall|yy: int, x: int|
                0 <= yy < y && 0 <= x < w ==> #[trigger] c@[yy * w + x] == orig[yy * w + (w - 1 - x)],
            forall|i: int| row <= i < n ==> #[trigger] c@[i] == orig[i],
        decreases h - y,
    {
        proof {
            assert((y + 1) * w <= h * w) by (nonlinear_arith)
                requires
                    y < h,
            ;
            assert(y * w + w == (y + 1) * w) by (nonlinear_arith);
            assert(h * w == w * h) by (nonlinear_arith);
        }
        let ghost before = c@;
        flip_row(c, row, w);
        proof {
            assert forall|yy: int, x: int|
                0 <= yy < y + 1 && 0 <= x < w implies #[trigger] c@[yy * w + x] == orig[yy * w + (w
                - 1 - x)] by {
                if yy < y {
                    assert(yy * w + w <= y * w) by (nonlinear_arith)
                        requires
                            yy < y,
                    ;
                    assert(before[yy * w + x] == orig[yy * w + (w - 1 - x)]);
                } else {
                    assert(c@[row + x] == before[row + (w - 1 - x)]);
                }
            }
        }
        y = y + 1;
        row = row + w;
    }
    proof {
        assert(y * w == w * h) by (nonlinear_arith)
            requires
                y == h,
        ;
    }
}

} // verus!
