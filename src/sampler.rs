//! The integer part of a single-cell update: which windows a cell touches,
//! and the weights of each before and after the cell is inverted.
use vstd::prelude::*;
use crate::field::{Field, INFINITY_BITS, ONE_BITS};
use crate::pattern::{encode, index, lemma_grid_index, lemma_split, two_pow, window, wrap_cell};

verus! {

/// The cells with the one at index `c` inverted.
pub open spec fn toggled(cells: Seq<bool>, c: int) -> Seq<bool> {
    cells.update(c, !cells[c])
}

/// The side of the square of window anchors whose window holds a given cell.
pub open spec fn span(n: int) -> int {
    2 * n - 1
}

/// The anchor of the `k`-th window that holds cell `(x, y)`: anchors run over
/// `x - (n-1) ..= x + (n-1)` within each row, and rows over the same range
/// about `y`.
pub open spec fn anchor_x(x: int, n: int, k: int) -> int {
    x - (n - 1) + k % span(n)
}

pub open spec fn anchor_y(y: int, n: int, k: int) -> int {
    y - (n - 1) + k / span(n)
}

/// The `k`-th window that holds the cell at index `c` of a field, of the
/// given cells.
pub open spec fn window_around(cells: Seq<bool>, w: int, h: int, n: int, c: int, k: int) -> Seq<
    bool,
> {
    window(cells, w, h, n, anchor_x(c % w, n, k), anchor_y(c / w, n, k))
}

/// The factor that the `k`-th window contributes to the acceptance ratio of a
/// flip of cell `c`: its weight after the flip over its weight now.
pub open spec fn factor(t: Seq<u32>, cells: Seq<bool>, w: int, h: int, n: int, c: int, k: int) -> (
    u32,
    u32,
) {
    (
        t[encode(window_around(toggled(cells, c), w, h, n, c, k)) as int],
        t[encode(window_around(cells, w, h, n, c, k)) as int],
    )
}

/// `(v + fwd - back) mod m`, without leaving the range of `usize`.
pub fn wrap_offset(v: usize, m: usize, fwd: usize, back: usize) -> (r: usize)
    requires
        v < m,
    ensures
        r < m,
        r as int == (v + fwd - back) % (m as int),
{
    let f = fwd % m;
    let b = back % m;
    let t: usize = if f >= m - v {
        f - (m - v)
    } else {
        v + f
    };
    let r: usize = if b <= t {
        t - b
    } else {
        t + (m - b)
    };
    proof {
        let qf = fwd as int / m as int;
        let qb = back as int / m as int;
        vstd::arithmetic::div_mod::lemma_fundamental_div_mod(fwd as int, m as int);
        vstd::arithmetic::div_mod::lemma_fundamental_div_mod(back as int, m as int);
        let cf: int = if f >= m - v {
            1
        } else {
            0
        };
        let cb: int = if b <= t {
            0
        } else {
            1
        };
        assert(t == v + f - cf * m);
        assert(r == t - b + cb * m);
        let q = qf - qb + cf - cb;
        assert(v + fwd - back == q * m + r) by (nonlinear_arith)
            requires
                fwd == m * qf + f,
                back == m * qb + b,
                t == v + f - cf * m,
                r == t - b + cb * m,
                q == qf - qb + cf - cb,
        ;
        vstd::arithmetic::div_mod::lemma_fundamental_div_mod_converse(
            v + fwd - back,
            m as int,
            q,
            r as int,
        );
    }
    r
}

/// The window of the field anchored at `(x - (n-1) + j, y - (n-1) + i)`; when
/// `flipped` holds, the cell `(x, y)` is read inverted.
fn field_window(field: &Field, n: usize, x: usize, y: usize, j: usize, i: usize, flipped: bool) -> (r:
    Vec<bool>)
    requires
        field.wf(),
        1 <= n <= 5,
        x < field.width,
        y < field.height,
        j < 2 * n - 1,
        i < 2 * n - 1,
    ensures
        r@ == window(
            if flipped {
                toggled(field.data@, x + y * field.width)
            } else {
                field.data@
            },
            field.width as int,
            field.height as int,
            n as int,
            x - (n - 1) + j,
            y - (n - 1) + i,
        ),
{
    let ghost c = x + y * field.width;
    let ghost cells = if flipped {
        toggled(field.data@, c)
    } else {
        field.data@
    };
    let ghost target = window(
        cells,
        field.width as int,
        field.height as int,
        n as int,
        x - (n - 1) + j,
        y - (n - 1) + i,
    );
    proof {
        lemma_grid_index(x as int, y as int, field.width as int, field.height as int);
    }
    let mut out: Vec<bool> = Vec::new();
    let mut dy: usize = 0;
    while dy < n
        invariant
            field.wf(),
            1 <= n <= 5,
            x < field.width,
            y < field.height,
            j < 2 * n - 1,
            i < 2 * n - 1,
            0 <= c < field.data@.len(),
            c == x + y * field.width,
            cells == (if flipped {
                toggled(field.data@, c)
            } else {
                field.data@
            }),
            target == window(
                cells,
                field.width as int,
                field.height as int,
                n as int,
                x - (n - 1) + j,
                y - (n - 1) + i,
            ),
            dy <= n,
            out@.len() == dy * n,
            forall|k: int| 0 <= k < out@.len() ==> out@[k] == #[trigger] target[k],
        decreases n - dy,
    {
        let mut dx: usize = 0;
        while dx < n
            invariant
                field.wf(),
                1 <= n <= 5,
                x < field.width,
                y < field.height,
                j < 2 * n - 1,
                i < 2 * n - 1,
                0 <= c < field.data@.len(),
                c == x + y * field.width,
                cells == (if flipped {
                    toggled(field.data@, c)
                } else {
                    field.data@
                }),
                target == window(
                    cells,
                    field.width as int,
                    field.height as int,
                    n as int,
                    x - (n - 1) + j,
                    y - (n - 1) + i,
                ),
                dy < n,
                dx <= n,
                out@.len() == dy * n + dx,
                forall|k: int| 0 <= k < out@.len() ==> out@[k] == #[trigger] target[k],
            decreases n - dx,
        {
            let cx = wrap_offset(x, field.width, j + dx, n - 1);
            let cy = wrap_offset(y, field.height, i + dy, n - 1);
            proof {
                lemma_grid_index(cx as int, cy as int, field.width as int, field.height as int);
                lemma_split(dx as int, dy as int, n as int);
                lemma_grid_index(dx as int, dy as int, n as int, n as int);
                let k: int = dy * n + dx;
                assert(k % (n as int) == dx && k / (n as int) == dy);
                assert(target[k] == wrap_cell(
                    cells,
                    field.width as int,
                    field.height as int,
                    x - (n - 1) + j + dx,
                    y - (n - 1) + i + dy,
                ));
                assert(x - (n - 1) + j + dx == x + (j + dx) - (n - 1));
                assert(y - (n - 1) + i + dy == y + (i + dy) - (n - 1));
                assert(target[k] == cells[cx + cy * field.width]);
                if cx == x && cy == y {
                } else {
                    assert(cx + cy * field.width != c) by {
                        if cx + cy * field.width == c {
                            lemma_split(cx as int, cy as int, field.width as int);
                            lemma_split(x as int, y as int, field.width as int);
                        }
                    }
                }
            }
            let len = field.data.len();
            let v = field.data[cx + cy * field.width];
            let bit = if flipped && cx == x && cy == y {
                !v
            } else {
                v
            };
            out.push(bit);
            dx = dx + 1;
        }
        assert(dy * n + n == (dy + 1) * n) by (nonlinear_arith);
        dy = dy + 1;
    }
    assert(out@ =~= target);
    out
}

/// For every window that holds cell `cell`, in anchor order, the pair
/// (weight of the window with the cell inverted, weight of the window now).
/// The product of the quotients is the acceptance ratio of flipping the cell.
pub fn flip_factors(field: &Field, weights: &Vec<u32>, n: u8, cell: usize) -> (r: Vec<(u32, u32)>)
    requires
        field.wf(),
        1 <= n <= 5,
        weights@.len() == two_pow((n * n) as nat),
        cell < field.data@.len(),
    ensures
        r@.len() == span(n as int) * span(n as int),
        forall|k: int|
            0 <= k < r@.len() ==> #[trigger] r@[k] == factor(
                weights@,
                field.data@,
                field.width as int,
                field.height as int,
                n as int,
                cell as int,
                k,
            ),
{
    let un: usize = n as usize;
    let side: usize = 2 * un - 1;
    assert(field.width > 0) by (nonlinear_arith)
        requires
            cell < field.width * field.height,
    ;
    let x: usize = cell % field.width;
    let y: usize = cell / field.width;
    proof {
        vstd::arithmetic::div_mod::lemma_fundamental_div_mod(cell as int, field.width as int);
        assert(cell == x + y * field.width) by (nonlinear_arith)
            requires
                cell == field.width * y + x,
        ;
        assert(y < field.height) by (nonlinear_arith)
            requires
                y as int == cell as int / (field.width as int),
                cell < field.width * field.height,
                field.width > 0,
        ;
        assert(un * un <= 25) by (nonlinear_arith)
            requires
                1 <= un <= 5,
        ;
    }
    let ghost w = field.width as int;
    let ghost h = field.height as int;
    let ghost gn = n as int;
    let mut out: Vec<(u32, u32)> = Vec::new();
    let mut i: usize = 0;
    while i < side
        invariant
            field.wf(),
            1 <= n <= 5,
            un == n,
            un * un <= 25,
            side == span(n as int),
            w == field.width,
            h == field.height,
            gn == n,
            weights@.len() == two_pow((n * n) as nat),
            cell < field.data@.len(),
            x == cell % field.width,
            y == cell / field.width,
            x < field.width,
            y < field.height,
            cell == x + y * field.width,
            i <= side,
            out@.len() == i * side,
            forall|k: int|
                0 <= k < out@.len() ==> #[trigger] out@[k] == factor(
                    weights@,
                    field.data@,
                    w,
                    h,
                    gn,
                    cell as int,
                    k,
                ),
        decreases side - i,
    {
        let mut j: usize = 0;
        while j < side
            invariant
                field.wf(),
                1 <= n <= 5,
                un == n,
                un * un <= 25,
                side == span(n as int),
                w == field.width,
                h == field.height,
                gn == n,
                weights@.len() == two_pow((n * n) as nat),
                cell < field.data@.len(),
                x == cell % field.width,
                y == cell / field.width,
                x < field.width,
                y < field.height,
                cell == x + y * field.width,
                i < side,
                j <= side,
                out@.len() == i * side + j,
                forall|k: int|
                    0 <= k < out@.len() ==> #[trigger] out@[k] == factor(
                        weights@,
                        field.data@,
                        w,
                        h,
                        gn,
                        cell as int,
                        k,
                    ),
            decreases side - j,
        {
            let now = field_window(field, un, x, y, j, i, false);
            let after = field_window(field, un, x, y, j, i, true);
            let a = index(&after);
            let b = index(&now);
            proof {
                lemma_split(j as int, i as int, side as int);
            }
            out.push((weights[a], weights[b]));
            j = j + 1;
        }
        assert(i * side + side == (i + 1) * side) by (nonlinear_arith);
        i = i + 1;
    }
    out
}

/// Whether a single-precision value, given by its bit pattern, is at least
/// `1.0` (NaNs and negative values are not).
pub open spec fn at_least_one(bits: u32) -> bool {
    ONE_BITS <= bits <= INFINITY_BITS
}

/// Whether a single-precision value, given by its bit pattern, is greater
/// than a draw in `[0, 1)`, given likewise (NaNs and negative values are not).
pub open spec fn exceeds_draw(bits: u32, draw: u32) -> bool {
    draw < bits <= INFINITY_BITS
}

/// The first stage of an update of cell `cell`: with an acceptance ratio of
/// at least one the cell is inverted at once and `true` comes back; else the
/// field is left alone, `false` comes back, and the tempered ratio must be
/// held against a fresh draw (`accept_by_draw`).
pub fn accept_by_ratio(field: &mut Field, cell: usize, ratio_bits: u32) -> (r: bool)
    requires
        old(field).wf(),
        cell < old(field).data@.len(),
    ensures
        r == at_least_one(ratio_bits),
        final(field).wf(),
        final(field).width == old(field).width,
        final(field).height == old(field).height,
        final(field).data@ == if r {
            toggled(old(field).data@, cell as int)
        } else {
            old(field).data@
        },
{
    if ONE_BITS <= ratio_bits && ratio_bits <= INFINITY_BITS {
        field.flip(cell);
        true
    } else {
        false
    }
}

/// The second stage of an update of cell `cell`: the cell is inverted exactly
/// when the tempered ratio exceeds the draw; whether it was comes back.
pub fn accept_by_draw(field: &mut Field, cell: usize, tempered_bits: u32, draw_bits: u32) -> (r:
    bool)
    requires
        old(field).wf(),
        cell < old(field).data@.len(),
    ensures
        r == exceeds_draw(tempered_bits, draw_bits),
        final(field).wf(),
        final(field).width == old(field).width,
        final(field).height == old(field).height,
        final(field).data@ == if r {
            toggled(old(field).data@, cell as int)
        } else {
            old(field).data@
        },
{
    if draw_bits < tempered_bits && tempered_bits <= INFINITY_BITS {
        field.flip(cell);
        true
    } else {
        false
    }
}

} // verus!
