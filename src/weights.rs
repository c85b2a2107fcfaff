//! The weight table: how often each pattern, or one of its symmetry images,
//! occurs in a sample.
//!
//! Weights are kept in tenths: a pattern seen `c > 0` times weighs `10 * c`,
//! an unseen one weighs `1` (a tenth of one occurrence), so that no weight is
//! zero and every ratio of weights is defined.
use vstd::prelude::*;
use crate::pattern::{
    encode, index, lemma_two_pow_25, lemma_two_pow_mono, orientation,
    orientations, sample_pattern, two_pow, window,
};

verus! {

/// The pattern of a sample anchored at the `a`-th cell in row-major order.
pub open spec fn anchor_pattern(s: Seq<bool>, w: int, h: int, n: int, a: int) -> Seq<bool> {
    window(s, w, h, n, a % w, a / w)
}

/// How many of the first `j` symmetry images of the pattern at anchor `a`
/// encode to `p`.
pub open spec fn hits(s: Seq<bool>, w: int, h: int, n: int, a: int, j: int, p: int) -> nat
    decreases j,
{
    if j <= 0 {
        0
    } else {
        hits(s, w, h, n, a, j - 1, p) + if encode(
            orientation(anchor_pattern(s, w, h, n, a), n, j - 1),
        ) == p {
            1nat
        } else {
            0nat
        }
    }
}

/// How often `p` occurs among the eight symmetry images of the patterns at
/// the first `a` anchors.
pub open spec fn occurrences(s: Seq<bool>, w: int, h: int, n: int, a: int, p: int) -> nat
    decreases a,
{
    if a <= 0 {
        0
    } else {
        occurrences(s, w, h, n, a - 1, p) + hits(s, w, h, n, a - 1, 8, p)
    }
}

/// The weight, in tenths, of a pattern that occurs `c` times.
pub open spec fn weight_of(c: nat) -> nat {
    if c == 0 {
        1
    } else {
        10 * c
    }
}

/// The weight, in tenths, of pattern `p` in the table of a `w` by `h` sample.
pub open spec fn table_weight(s: Seq<bool>, w: int, h: int, n: int, p: int) -> nat {
    weight_of(occurrences(s, w, h, n, w * h, p))
}

/// Whether `t` is exactly the weight table of the sample for pattern size `n`.
pub open spec fn is_table_of(t: Seq<u32>, s: Seq<bool>, w: int, h: int, n: int) -> bool {
    &&& t.len() == two_pow((n * n) as nat)
    &&& forall|p: int| 0 <= p < t.len() ==> #[trigger] t[p] as nat == table_weight(s, w, h, n, p)
}

/// Every entry of a weight table is strictly positive.
pub proof fn lemma_table_positive(t: Seq<u32>, s: Seq<bool>, w: int, h: int, n: int)
    requires
        is_table_of(t, s, w, h, n),
    ensures
        forall|p: int| 0 <= p < t.len() ==> #[trigger] t[p] > 0,
{
    assert forall|p: int| 0 <= p < t.len() implies #[trigger] t[p] > 0 by {
        assert(t[p] as nat == table_weight(s, w, h, n, p));
    }
}

/// Building is a function of the sample and the pattern size: two tables
/// built from the same sample for the same size are identical.
pub proof fn lemma_table_deterministic(t1: Seq<u32>, t2: Seq<u32>, s: Seq<bool>, w: int, h: int, n: int)
    requires
        is_table_of(t1, s, w, h, n),
        is_table_of(t2, s, w, h, n),
    ensures
        t1 == t2,
{
    assert forall|p: int| 0 <= p < t1.len() implies #[trigger] t1[p] == t2[p] by {
        assert(t1[p] as nat == table_weight(s, w, h, n, p));
        assert(t2[p] as nat == table_weight(s, w, h, n, p));
    }
    assert(t1 =~= t2);
}

proof fn lemma_hits_bound(s: Seq<bool>, w: int, h: int, n: int, a: int, j: int, p: int)
    ensures
        j >= 0 ==> hits(s, w, h, n, a, j, p) <= j,
    decreases j,
{
    if j > 0 {
        lemma_hits_bound(s, w, h, n, a, j - 1, p);
    }
}

proof fn lemma_occurrences_bound(s: Seq<bool>, w: int, h: int, n: int, a: int, p: int)
    ensures
        a >= 0 ==> occurrences(s, w, h, n, a, p) <= 8 * a,
    decreases a,
{
    if a > 0 {
        lemma_occurrences_bound(s, w, h, n, a - 1, p);
        lemma_hits_bound(s, w, h, n, a - 1, 8, p);
    }
}

/// The number of entries of a table for pattern size `n`.
pub fn table_size(n: u8) -> (r: usize)
    requires
        1 <= n <= 5,
    ensures
        r == two_pow((n * n) as nat),
{
    assert((n as int) * (n as int) <= 25) by (nonlinear_arith)
        requires
            1 <= n <= 5,
    ;
    let e: usize = (n as usize) * (n as usize);
    let mut size: usize = 1;
    let mut i: usize = 0;
    while i < e
        invariant
            e == n * n,
            e <= 25,
            i <= e,
            size == two_pow(i as nat),
        decreases e - i,
    {
        proof {
            lemma_two_pow_mono(i as nat, 25);
            lemma_two_pow_25();
        }
        size = size * 2;
        i = i + 1;
    }
    size
}

/// Builds the weight table of a `sample_width` by `sample_height` sample for
/// `n` by `n` patterns.
pub fn process_weights(sample: &Vec<bool>, sample_width: u8, sample_height: u8, n: u8) -> (r: Vec<
    u32>)
    requires
        1 <= n <= 5,
        sample@.len() == sample_width * sample_height,
    ensures
        is_table_of(r@, sample@, sample_width as int, sample_height as int, n as int),
        forall|p: int| 0 <= p < r@.len() ==> #[trigger] r@[p] > 0,
{
    let ghost s = sample@;
    let ghost w = sample_width as int;
    let ghost h = sample_height as int;
    let ghost gn = n as int;
    let size = table_size(n);
    let nsize: usize = n as usize;
    let mut weights: Vec<u32> = Vec::new();
    while weights.len() < size
        invariant
            size == two_pow((n * n) as nat),
            weights@.len() <= size,
            forall|p: int| 0 <= p < weights@.len() ==> #[trigger] weights@[p] == 0,
        decreases size - weights@.len(),
    {
        weights.push(0);
    }
    assert((sample_width as int) * (sample_height as int) <= 255 * 255) by (nonlinear_arith)
        requires
            sample_width <= 255,
            sample_height <= 255,
    ;
    let total: usize = (sample_width as usize) * (sample_height as usize);
    let mut a: usize = 0;
    while a < total
        invariant
            1 <= n <= 5,
            nsize == n,
            s == sample@,
            w == sample_width,
            h == sample_height,
            gn == n,
            sample@.len() == sample_width * sample_height,
            total == sample_width * sample_height,
            total <= 255 * 255,
            a <= total,
            size == two_pow((n * n) as nat),
            weights@.len() == size,
            forall|p: int|
                0 <= p < weights@.len() ==> #[trigger] weights@[p] as nat == occurrences(
                    s,
                    w,
                    h,
                    gn,
                    a as int,
                    p,
                ),
        decreases total - a,
    {
        let x: usize = a % (sample_width as usize);
        let y: usize = a / (sample_width as usize);
        assert(y < sample_height) by (nonlinear_arith)
            requires
                y as int == a as int / (sample_width as int),
                a < sample_width * sample_height,
                sample_width > 0,
        ;
        let base = sample_pattern(sample, sample_width, sample_height, nsize, x, y);
        let orients = orientations(base, nsize);
        let mut j: usize = 0;
        while j < 8
            invariant
                1 <= n <= 5,
                nsize == n,
                s == sample@,
                w == sample_width,
                h == sample_height,
                gn == n,
                a < total,
                total <= 255 * 255,
                j <= 8,
                orients@.len() == 8,
                forall|i: int|
                    0 <= i < 8 ==> (#[trigger] orients@[i])@ == orientation(
                        anchor_pattern(s, w, h, gn, a as int),
                        gn,
                        i,
                    ),
                forall|i: int| 0 <= i < 8 ==> (#[trigger] orients@[i])@.len() == n * n,
                size == two_pow((n * n) as nat),
                weights@.len() == size,
                forall|p: int|
                    0 <= p < weights@.len() ==> #[trigger] weights@[p] as nat == occurrences(
                        s,
                        w,
                        h,
                        gn,
                        a as int,
                        p,
                    ) + hits(s, w, h, gn, a as int, j as int, p),
            decreases 8 - j,
        {
            assert(n * n <= 25) by (nonlinear_arith)
                requires
                    1 <= n <= 5,
            ;
            let idx = index(&orients[j]);
            proof {
                lemma_occurrences_bound(s, w, h, gn, a as int, idx as int);
                lemma_hits_bound(s, w, h, gn, a as int, j as int, idx as int);
            }
            let old_w = weights[idx];
            weights.set(idx, old_w + 1);
            j = j + 1;
        }
        a = a + 1;
    }
    let mut k: usize = 0;
    while k < weights.len()
        invariant
            total == sample_width * sample_height,
            total <= 255 * 255,
            s == sample@,
            w == sample_width,
            h == sample_height,
            gn == n,
            size == two_pow((n * n) as nat),
            weights@.len() == size,
            k <= size,
            forall|p: int|
                0 <= p < k ==> #[trigger] weights@[p] as nat == table_weight(s, w, h, gn, p),
            forall|p: int|
                k <= p < size ==> #[trigger] weights@[p] as nat == occurrences(
                    s,
                    w,
                    h,
                    gn,
                    total as int,
                    p,
                ),
        decreases size - k,
    {
        proof {
            lemma_occurrences_bound(s, w, h, gn, total as int, k as int);
        }
        let c = weights[k];
        if c == 0 {
            weights.set(k, 1);
        } else {
            weights.set(k, 10 * c);
        }
        k = k + 1;
    }
    weights
}

} // verus!
