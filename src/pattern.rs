//! Square boolean patterns: extraction with wrap-around, symmetries and the
//! integer encoding (first cell is the most significant bit).
use vstd::prelude::*;

verus! {

/// The largest pattern side the library accepts: a table has `2^(n*n)` entries.
pub const MAX_PATTERN_SIZE: u8 = 5;

/// `2` raised to `e`.
pub open spec fn two_pow(e: nat) -> nat
    decreases e,
{
    if e == 0 {
        1
    } else {
        2 * two_pow((e - 1) as nat)
    }
}

/// The encoding of a pattern: the first cell is the most significant bit,
/// the last one the least significant.
pub open spec fn encode(p: Seq<bool>) -> nat
    decreases p.len(),
{
    if p.len() == 0 {
        0
    } else {
        2 * encode(p.drop_last()) + if p.last() { 1nat } else { 0nat }
    }
}

/// An encoding of `len` cells is below `2^len`.
pub proof fn lemma_encode_bound(p: Seq<bool>)
    ensures
        encode(p) < two_pow(p.len()),
    decreases p.len(),
{
    if p.len() > 0 {
        lemma_encode_bound(p.drop_last());
    }
}

/// The cell at `(x, y)` of a `w` by `h` bitmap stored row-major, with
/// coordinates taken modulo the dimensions (the bitmap is a torus).
pub open spec fn wrap_cell(cells: Seq<bool>, w: int, h: int, x: int, y: int) -> bool {
    cells[(x % w) + (y % h) * w]
}

/// The `n` by `n` window anchored at `(x, y)`, flattened row-major.
pub open spec fn window(cells: Seq<bool>, w: int, h: int, n: int, x: int, y: int) -> Seq<bool> {
    Seq::new((n * n) as nat, |k: int| wrap_cell(cells, w, h, x + k % n, y + k / n))
}

/// A quarter turn: cell `(x, y)` of the result is cell `(n-1-y, x)` of `p`.
pub open spec fn rotated(p: Seq<bool>, n: int) -> Seq<bool> {
    Seq::new(p.len(), |k: int| p[(n - 1 - k / n) + (k % n) * n])
}

/// A mirror image: cell `(x, y)` of the result is cell `(n-1-x, y)` of `p`.
pub open spec fn reflected(p: Seq<bool>, n: int) -> Seq<bool> {
    Seq::new(p.len(), |k: int| p[(n - 1 - k % n) + (k / n) * n])
}

/// The `j`-th of the eight symmetry images: `0..4` are successive quarter
/// turns of `p`, `4..8` the mirror images of those.
pub open spec fn orientation(p: Seq<bool>, n: int, j: int) -> Seq<bool>
    decreases j,
{
    if j <= 0 {
        p
    } else if j < 4 {
        rotated(orientation(p, n, j - 1), n)
    } else {
        reflected(orientation(p, n, j - 4), n)
    }
}

pub proof fn lemma_split(x: int, y: int, n: int)
    requires
        0 <= x < n,
        0 <= y,
    ensures
        (x + y * n) % n == x,
        (x + y * n) / n == y,
{
    vstd::arithmetic::div_mod::lemma_fundamental_div_mod_converse(x + y * n, n, y, x);
}

pub proof fn lemma_grid_index(a: int, b: int, w: int, h: int)
    requires
        0 <= a < w,
        0 <= b < h,
    ensures
        0 <= a + b * w < w * h,
{
    assert(0 <= a + b * w < w * h) by (nonlinear_arith)
        requires
            0 <= a < w,
            0 <= b < h,
    ;
}

/// The window of a sample anchored at `(x, y)`, with wrap-around.
pub fn sample_pattern(sample: &Vec<bool>, w: u8, h: u8, n: usize, x: usize, y: usize) -> (r: Vec<
    bool>)
    requires
        1 <= n <= 5,
        w >= 1,
        h >= 1,
        sample@.len() == w * h,
        x < w,
        y < h,
    ensures
        r@ == window(sample@, w as int, h as int, n as int, x as int, y as int),
{
    let mut out: Vec<bool> = Vec::new();
    let mut dy: usize = 0;
    while dy < n
        invariant
            1 <= n <= 5,
            w >= 1,
            h >= 1,
            sample@.len() == w * h,
            x < w,
            y < h,
            dy <= n,
            out@.len() == dy * n,
            forall|k: int|
                0 <= k < out@.len() ==> out@[k] == wrap_cell(
                    sample@,
                    w as int,
                    h as int,
                    x + k % (n as int),
                    y + k / (n as int),
                ),
        decreases n - dy,
    {
        let mut dx: usize = 0;
        while dx < n
            invariant
                1 <= n <= 5,
                w >= 1,
                h >= 1,
                sample@.len() == w * h,
                x < w,
                y < h,
                dy < n,
                dx <= n,
                out@.len() == dy * n + dx,
                forall|k: int|
                    0 <= k < out@.len() ==> out@[k] == wrap_cell(
                        sample@,
                        w as int,
                        h as int,
                        x + k % (n as int),
                        y + k / (n as int),
                    ),
            decreases n - dx,
        {
            let cx: usize = (x + dx) % (w as usize);
            let cy: usize = (y + dy) % (h as usize);
            proof {
                lemma_grid_index(cx as int, cy as int, w as int, h as int);
                lemma_split(dx as int, dy as int, n as int);
                assert(cy * w <= 255 * 255) by (nonlinear_arith)
                    requires
                        cy < h <= 255,
                        w <= 255,
                ;
            }
            out.push(sample[cx + cy * (w as usize)]);
            dx = dx + 1;
        }
        assert(dy * n + n == (dy + 1) * n) by (nonlinear_arith);
        dy = dy + 1;
    }
    assert(out@ =~= window(sample@, w as int, h as int, n as int, x as int, y as int));
    out
}

/// Turns a pattern a quarter turn.
pub fn rotate(p: &Vec<bool>, n: usize) -> (r: Vec<bool>)
    requires
        1 <= n <= 5,
        p@.len() == n * n,
    ensures
        r@ == rotated(p@, n as int),
{
    let mut out: Vec<bool> = Vec::new();
    let mut y: usize = 0;
    while y < n
        invariant
            1 <= n <= 5,
            p@.len() == n * n,
            y <= n,
            out@.len() == y * n,
            forall|k: int|
                0 <= k < out@.len() ==> out@[k] == p@[(n - 1 - k / (n as int)) + (k % (n as int))
                    * n],
        decreases n - y,
    {
        let mut x: usize = 0;
        while x < n
            invariant
                1 <= n <= 5,
                p@.len() == n * n,
                y < n,
                x <= n,
                out@.len() == y * n + x,
                forall|k: int|
                    0 <= k < out@.len() ==> out@[k] == p@[(n - 1 - k / (n as int)) + (k % (
                    n as int)) * n],
            decreases n - x,
        {
            proof {
                lemma_grid_index((n - 1 - y) as int, x as int, n as int, n as int);
                lemma_split(x as int, y as int, n as int);
            }
            assert(x * n <= 20) by (nonlinear_arith)
                requires
                    x < n <= 5,
            ;
            out.push(p[(n - 1 - y) + x * n]);
            x = x + 1;
        }
        assert(y * n + n == (y + 1) * n) by (nonlinear_arith);
        y = y + 1;
    }
    assert(out@ =~= rotated(p@, n as int));
    out
}

/// Mirrors a pattern left to right.
pub fn reflect(p: &Vec<bool>, n: usize) -> (r: Vec<bool>)
    requires
        1 <= n <= 5,
        p@.len() == n * n,
    ensures
        r@ == reflected(p@, n as int),
{
    let mut out: Vec<bool> = Vec::new();
    let mut y: usize = 0;
    while y < n
        invariant
            1 <= n <= 5,
            p@.len() == n * n,
            y <= n,
            out@.len() == y * n,
            forall|k: int|
                0 <= k < out@.len() ==> out@[k] == p@[(n - 1 - k % (n as int)) + (k / (n as int))
                    * n],
        decreases n - y,
    {
        let mut x: usize = 0;
        while x < n
            invariant
                1 <= n <= 5,
                p@.len() == n * n,
                y < n,
                x <= n,
                out@.len() == y * n + x,
                forall|k: int|
                    0 <= k < out@.len() ==> out@[k] == p@[(n - 1 - k % (n as int)) + (k / (
                    n as int)) * n],
            decreases n - x,
        {
            proof {
                lemma_grid_index((n - 1 - x) as int, y as int, n as int, n as int);
                lemma_split(x as int, y as int, n as int);
            }
            assert(y * n <= 20) by (nonlinear_arith)
                requires
                    y < n <= 5,
            ;
            out.push(p[(n - 1 - x) + y * n]);
            x = x + 1;
        }
        assert(y * n + n == (y + 1) * n) by (nonlinear_arith);
        y = y + 1;
    }
    assert(out@ =~= reflected(p@, n as int));
    out
}

/// The eight symmetry images of a pattern, in the order of `orientation`.
pub fn orientations(p: Vec<bool>, n: usize) -> (r: Vec<Vec<bool>>)
    requires
        1 <= n <= 5,
        p@.len() == n * n,
    ensures
        r@.len() == 8,
        forall|j: int| 0 <= j < 8 ==> (#[trigger] r@[j])@ == orientation(p@, n as int, j),
        forall|j: int| 0 <= j < 8 ==> (#[trigger] r@[j])@.len() == n * n,
{
    let turn1 = rotate(&p, n);
    let turn2 = rotate(&turn1, n);
    let turn3 = rotate(&turn2, n);
    let mirror0 = reflect(&p, n);
    let mirror1 = reflect(&turn1, n);
    let mirror2 = reflect(&turn2, n);
    let mirror3 = reflect(&turn3, n);
    proof {
        reveal_with_fuel(orientation, 4);
        assert(orientation(p@, n as int, 7) == reflected(orientation(p@, n as int, 3), n as int));
        assert(orientation(p@, n as int, 6) == reflected(orientation(p@, n as int, 2), n as int));
        assert(orientation(p@, n as int, 5) == reflected(orientation(p@, n as int, 1), n as int));
        assert(orientation(p@, n as int, 4) == reflected(orientation(p@, n as int, 0), n as int));
    }
    let r = vec![p, turn1, turn2, turn3, mirror0, mirror1, mirror2, mirror3];
    r
}

/// Encodes a pattern as an integer, first cell most significant.
pub fn index(p: &Vec<bool>) -> (r: usize)
    requires
        p@.len() <= 25,
    ensures
        r == encode(p@),
        r < two_pow(p@.len()),
{
    let mut result: usize = 0;
    let mut i: usize = 0;
    while i < p.len()
        invariant
            i <= p@.len(),
            p@.len() <= 25,
            result == encode(p@.take(i as int)),
            result < two_pow(i as nat),
        decreases p@.len() - i,
    {
        proof {
            lemma_encode_bound(p@.take(i as int));
            assert(p@.take(i as int + 1).drop_last() =~= p@.take(i as int));
            lemma_two_pow_mono(i as nat, 25);
            lemma_two_pow_25();
        }
        let bit: usize = if p[i] { 1 } else { 0 };
        result = 2 * result + bit;
        i = i + 1;
    }
    assert(p@.take(i as int) =~= p@);
    result
}

pub proof fn lemma_two_pow_25()
    ensures
        two_pow(25) == 33554432,
{
    reveal_with_fuel(two_pow, 26);
}

pub proof fn lemma_two_pow_mono(a: nat, b: nat)
    requires
        a <= b,
    ensures
        two_pow(a) <= two_pow(b),
    decreases b,
{
    if a < b {
        lemma_two_pow_mono(a, (b - 1) as nat);
    }
}

} // verus!
