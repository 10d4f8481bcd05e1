use vstd::prelude::*;

verus! {

/// Radial step `i` has passed the boundary of output row `cursor` when
/// `i > (radius / steps) * cursor` over the reals, that is `i * steps > radius * cursor`.
pub open spec fn crosses(i: int, radius: int, steps: int, cursor: int) -> bool {
    i * steps > radius * cursor
}

/// The output-row cursor of a column after the radial steps `0 .. n` were taken.
pub open spec fn cursor_after(radius: int, steps: int, n: nat) -> int
    decreases n,
{
    if n == 0 {
        0
    } else {
        let c = cursor_after(radius, steps, (n - 1) as nat);
        if crosses(n - 1, radius, steps, c) {
            c + 1
        } else {
            c
        }
    }
}

/// Exact test of the row boundary: `i * steps > radius * cursor`.
pub fn crosses_boundary(i: u16, radius: u16, steps: u32, cursor: u32) -> (r: bool)
    ensures
        r == crosses(i as int, radius as int, steps as int, cursor as int),
{
    proof {
        lemma_product_fits(i as int, steps as int);
        lemma_product_fits(radius as int, cursor as int);
    }
    (i as u64) * (steps as u64) > (radius as u64) * (cursor as u64)
}

proof fn lemma_product_fits(a: int, b: int)
    requires
        0 <= a <= u16::MAX,
        0 <= b <= u32::MAX,
    ensures
        0 <= a * b <= u64::MAX,
{
    assert(0 <= a * b <= 0xffff * 0xffff_ffff) by (nonlinear_arith)
        requires
            0 <= a <= 0xffff,
            0 <= b <= 0xffff_ffff,
    ;
}

/// The cursor never moves back, and while steps `0 .. n` stay inside the radius
/// it never passes `steps`.
pub proof fn lemma_cursor_monotone(radius: int, steps: int, n1: nat, n2: nat)
    requires
        0 <= steps,
        n1 <= n2 <= radius,
    ensures
        0 <= cursor_after(radius, steps, n1) <= cursor_after(radius, steps, n2) <= steps,
    decreases n2,
{
    if n2 > 0 {
        let m = (n2 - 1) as nat;
        if n1 <= m {
            lemma_cursor_monotone(radius, steps, n1, m);
        }
        let c = cursor_after(radius, steps, m);
        lemma_cursor_monotone(radius, steps, m, m);
        if c == steps {
            assert(!crosses(m as int, radius, steps, c)) by (nonlinear_arith)
                requires
                    c == steps,
                    0 <= steps,
                    0 <= m < radius,
            ;
        }
    }
}

/// The cursor keeps up with the boundaries when the radius is at least `steps`:
/// after `n >= 1` steps, `cursor * radius >= (n - 1) * steps`.
proof fn lemma_cursor_keeps_up(radius: int, steps: int, n: nat)
    requires
        0 <= steps <= radius,
        1 <= n,
    ensures
        cursor_after(radius, steps, n) * radius >= (n - 1) * steps,
    decreases n,
{
    if n > 1 {
        let m = (n - 1) as nat;
        lemma_cursor_keeps_up(radius, steps, m);
        let c = cursor_after(radius, steps, m);
        if crosses(m as int, radius, steps, c) {
            assert((c + 1) * radius >= m * steps) by (nonlinear_arith)
                requires
                    c * radius >= (m - 1) * steps,
                    steps <= radius,
            ;
        }
    } else {
        assert(cursor_after(radius, steps, 1) == 0) by {
            assert(cursor_after(radius, steps, 0) == 0);
            assert(!crosses(0, radius, steps, 0));
        }
    }
}

/// With a radius longer than `steps`, every rasterized row boundary is crossed
/// by the time the radius is exhausted.
pub proof fn lemma_cursor_reaches_steps(radius: int, steps: int)
    requires
        0 <= steps < radius,
    ensures
        cursor_after(radius, steps, radius as nat) == steps,
{
    lemma_cursor_keeps_up(radius, steps, radius as nat);
    lemma_cursor_monotone(radius, steps, radius as nat, radius as nat);
    let c = cursor_after(radius, steps, radius as nat);
    assert(c >= steps) by (nonlinear_arith)
        requires
            c * radius >= (radius - 1) * steps,
            0 <= steps < radius,
    ;
}

} // verus!
