//! The mathematical model of the harness: validity of buffers and labels,
//! sums over activation profiles, and the lemmas the drivers need about
//! them.

use vstd::prelude::*;

use crate::EM_MAX;
use crate::MNIST_AREA;
use crate::MNIST_SIDE;
use crate::NUM_CLASSES;
use crate::PIXEL_MAX;

verus! {

/// Flat position of pixel `(x, y)` of image `img_i` in a buffer of
/// concatenated row-major images.
pub open spec fn pixel_index(img_i: int, x: int, y: int) -> int {
    img_i * (MNIST_AREA as int) + y * (MNIST_SIDE as int) + x
}

/// Every intensity of the buffer lies in the fixed-point pixel range.
pub open spec fn pixels_ok(buf: Seq<u64>) -> bool {
    forall|j: int| 0 <= j < buf.len() ==> buf[j] <= PIXEL_MAX
}

/// Every label names one of the ten classes.
pub open spec fn labels_ok(lbls: Seq<u8>) -> bool {
    forall|i: int| 0 <= i < lbls.len() ==> lbls[i] < (NUM_CLASSES as u8)
}

/// The buffer holds at least `count` whole images.
pub open spec fn imgs_ok(buf: Seq<u64>, count: int) -> bool {
    count * (MNIST_AREA as int) <= buf.len()
}

/// Every activation lies in the activation range.
pub open spec fn ems_ok(ems: Seq<u64>) -> bool {
    forall|i: int| 0 <= i < ems.len() ==> ems[i] <= EM_MAX
}

/// How many of the first `k` labels name class `c`.
pub open spec fn label_count_prefix(lbls: Seq<u8>, c: int, k: int) -> int
    decreases k,
{
    if k <= 0 {
        0
    } else {
        label_count_prefix(lbls, c, k - 1) + if lbls[k - 1] as int == c {
            1int
        } else {
            0int
        }
    }
}

/// How many labels of the whole set name class `c`.
pub open spec fn label_count(lbls: Seq<u8>, c: int) -> int {
    label_count_prefix(lbls, c, lbls.len() as int)
}

/// Class `c` never occurs among the first `k` labels.
pub open spec fn class_absent_prefix(lbls: Seq<u8>, c: int, k: int) -> bool {
    forall|j: int| 0 <= j < k ==> (#[trigger] lbls[j]) as int != c
}

/// Class `c` never occurs among the labels: it is absent from training.
pub open spec fn class_absent(lbls: Seq<u8>, c: int) -> bool {
    class_absent_prefix(lbls, c, lbls.len() as int)
}

/// Sum of the first `k` entries of `s`.
pub open spec fn sum_prefix(s: Seq<u64>, k: int) -> int
    decreases k,
{
    if k <= 0 {
        0
    } else {
        sum_prefix(s, k - 1) + s[k - 1]
    }
}

/// Sum of the first `k` entries of a sequence of counters.
pub open spec fn sum_prefix_usize(s: Seq<usize>, k: int) -> int
    decreases k,
{
    if k <= 0 {
        0
    } else {
        sum_prefix_usize(s, k - 1) + s[k - 1]
    }
}

/// Sum of a whole sequence of counters.
pub open spec fn seq_sum_usize(s: Seq<usize>) -> int {
    sum_prefix_usize(s, s.len() as int)
}

/// The sequence-of-sequences reading of a matrix of counters.
pub open spec fn rows_view(m: Seq<Vec<usize>>) -> Seq<Seq<usize>> {
    Seq::new(m.len(), |r: int| m[r]@)
}

/// Sum of all entries of the first `k` rows of a matrix of counters.
pub open spec fn matrix_total_prefix(m: Seq<Seq<usize>>, k: int) -> int
    decreases k,
{
    if k <= 0 {
        0
    } else {
        matrix_total_prefix(m, k - 1) + seq_sum_usize(m[k - 1])
    }
}

/// Sum of all entries of a matrix of counters.
pub open spec fn matrix_total(m: Seq<Seq<usize>>) -> int {
    matrix_total_prefix(m, m.len() as int)
}

/// Sum of column `c` over the first `k` rows of a profile.
pub open spec fn col_sum_prefix(p: Seq<Seq<u64>>, c: int, k: int) -> int
    decreases k,
{
    if k <= 0 {
        0
    } else {
        col_sum_prefix(p, c, k - 1) + p[k - 1][c]
    }
}

/// Sum of column `c` over a whole profile: what the per-class total of
/// class `c` accumulates across all neurons.
pub open spec fn col_sum(p: Seq<Seq<u64>>, c: int) -> int {
    col_sum_prefix(p, c, p.len() as int)
}

/// Activation-weighted sum of column `c` over the first `k` rows:
/// `sum of p[n][c] * ems[n]` for `n < k`.
pub open spec fn weighted_prefix(p: Seq<Seq<u64>>, ems: Seq<u64>, c: int, k: int) -> int
    decreases k,
{
    if k <= 0 {
        0
    } else {
        weighted_prefix(p, ems, c, k - 1) + p[k - 1][c] * ems[k - 1]
    }
}

/// Activation-weighted sum of column `c` over a whole profile: the
/// unnormalized classification weight of class `c`.
pub open spec fn weighted_sum(p: Seq<Seq<u64>>, ems: Seq<u64>, c: int) -> int {
    weighted_prefix(p, ems, c, p.len() as int)
}

/// A prefix sum of values bounded by `b` is non-negative and at most `k * b`.
pub proof fn lemma_sum_prefix_bound(s: Seq<u64>, k: int, b: int)
    requires
        0 <= k <= s.len(),
        forall|i: int| 0 <= i < k ==> s[i] <= b,
    ensures
        0 <= sum_prefix(s, k) <= k * b,
    decreases k,
{
    if k > 0 {
        lemma_sum_prefix_bound(s, k - 1, b);
        assert((k - 1) * b + b == k * b) by (nonlinear_arith);
    } else {
        assert(k * b == 0) by (nonlinear_arith)
            requires
                k == 0,
        ;
    }
}

/// A prefix sum of counters is non-negative.
pub proof fn lemma_sum_prefix_usize_nonneg(s: Seq<usize>, k: int)
    requires
        0 <= k <= s.len(),
    ensures
        0 <= sum_prefix_usize(s, k),
    decreases k,
{
    if k > 0 {
        lemma_sum_prefix_usize_nonneg(s, k - 1);
    }
}

/// Raising one entry of a counter sequence by `d` raises its sum by `d`.
pub proof fn lemma_sum_prefix_usize_update(s: Seq<usize>, k: int, j: int, v: usize)
    requires
        0 <= j < k <= s.len(),
    ensures
        sum_prefix_usize(s.update(j, v), k) == sum_prefix_usize(s, k) - s[j] + v,
    decreases k,
{
    let su = s.update(j, v);
    if j == k - 1 {
        assert(forall|i: int| 0 <= i < k - 1 ==> su[i] == s[i]);
        lemma_sum_prefix_usize_same(s, su, k - 1);
    } else {
        lemma_sum_prefix_usize_update(s, k - 1, j, v);
    }
}

/// Two counter sequences that agree on a prefix have the same prefix sum.
pub proof fn lemma_sum_prefix_usize_same(s: Seq<usize>, r: Seq<usize>, k: int)
    requires
        0 <= k <= s.len(),
        k <= r.len(),
        forall|i: int| 0 <= i < k ==> s[i] == r[i],
    ensures
        sum_prefix_usize(s, k) == sum_prefix_usize(r, k),
    decreases k,
{
    if k > 0 {
        lemma_sum_prefix_usize_same(s, r, k - 1);
    }
}

/// Adding `e[n]` into column `lbl` of every row `n` raises the sum of
/// column `lbl` by the sum of `e` and leaves every other column sum as it
/// was.
pub proof fn lemma_col_sum_prefix_pointwise(
    p: Seq<Seq<u64>>,
    q: Seq<Seq<u64>>,
    e: Seq<u64>,
    lbl: int,
    c: int,
    k: int,
)
    requires
        0 <= k <= p.len(),
        p.len() == q.len(),
        p.len() == e.len(),
        forall|n: int| 0 <= n < p.len() ==> q[n] == p[n].update(lbl, (p[n][lbl] + e[n]) as u64),
        forall|n: int| 0 <= n < p.len() ==> p[n].len() == NUM_CLASSES,
        forall|n: int| 0 <= n < p.len() ==> p[n][lbl] + e[n] <= u64::MAX,
        0 <= lbl < NUM_CLASSES,
        0 <= c < NUM_CLASSES,
    ensures
        c == lbl ==> col_sum_prefix(q, c, k) == col_sum_prefix(p, c, k) + sum_prefix(e, k),
        c != lbl ==> col_sum_prefix(q, c, k) == col_sum_prefix(p, c, k),
    decreases k,
{
    if k > 0 {
        lemma_col_sum_prefix_pointwise(p, q, e, lbl, c, k - 1);
    }
}

/// Raising column `lbl` of one row `n` by `d` raises the sum of column
/// `lbl` by `d` and leaves every other column sum as it was.
pub proof fn lemma_col_sum_prefix_update(
    p: Seq<Seq<u64>>,
    n: int,
    lbl: int,
    d: u64,
    c: int,
    k: int,
)
    requires
        0 <= k <= p.len(),
        0 <= n < p.len(),
        forall|m: int| 0 <= m < p.len() ==> p[m].len() == NUM_CLASSES,
        p[n][lbl] + d <= u64::MAX,
        0 <= lbl < NUM_CLASSES,
        0 <= c < NUM_CLASSES,
    ensures
        ({
            let q = p.update(n, p[n].update(lbl, (p[n][lbl] + d) as u64));
            &&& (c == lbl && n < k) ==> col_sum_prefix(q, c, k) == col_sum_prefix(p, c, k) + d
            &&& (c != lbl || n >= k) ==> col_sum_prefix(q, c, k) == col_sum_prefix(p, c, k)
        }),
    decreases k,
{
    if k > 0 {
        lemma_col_sum_prefix_update(p, n, lbl, d, c, k - 1);
    }
}

/// A column-sum prefix of cells bounded by `b` is non-negative and at most
/// `k * b`.
pub proof fn lemma_col_sum_prefix_bound(p: Seq<Seq<u64>>, c: int, k: int, b: int)
    requires
        0 <= k <= p.len(),
        forall|n: int| 0 <= n < p.len() ==> p[n].len() == NUM_CLASSES,
        forall|n: int, j: int| 0 <= n < p.len() && 0 <= j < NUM_CLASSES ==> p[n][j] <= b,
        0 <= c < NUM_CLASSES,
    ensures
        0 <= col_sum_prefix(p, c, k) <= k * b,
    decreases k,
{
    if k > 0 {
        lemma_col_sum_prefix_bound(p, c, k - 1, b);
        assert((k - 1) * b + b == k * b) by (nonlinear_arith);
    } else {
        assert(k * b == 0) by (nonlinear_arith)
            requires
                k == 0,
        ;
    }
}

/// A matrix-total prefix of counters is non-negative.
pub proof fn lemma_matrix_total_prefix_nonneg(m: Seq<Seq<usize>>, k: int)
    requires
        0 <= k <= m.len(),
    ensures
        0 <= matrix_total_prefix(m, k),
    decreases k,
{
    if k > 0 {
        lemma_matrix_total_prefix_nonneg(m, k - 1);
        lemma_sum_prefix_usize_nonneg(m[k - 1], m[k - 1].len() as int);
    }
}

/// A sequence whose entries are the row sums of a matrix sums to the
/// matrix total.
pub proof fn lemma_row_sums_total(s: Seq<usize>, m: Seq<Seq<usize>>, k: int)
    requires
        0 <= k <= s.len(),
        k <= m.len(),
        forall|r: int| 0 <= r < k ==> s[r] as int == seq_sum_usize(#[trigger] m[r]),
    ensures
        sum_prefix_usize(s, k) == matrix_total_prefix(m, k),
    decreases k,
{
    if k > 0 {
        lemma_row_sums_total(s, m, k - 1);
    }
}

/// A weighted prefix over cells bounded by `cb` and activations bounded by
/// `eb` is non-negative and at most `k * cb * eb`.
pub proof fn lemma_weighted_prefix_bound(
    p: Seq<Seq<u64>>,
    ems: Seq<u64>,
    c: int,
    k: int,
    cb: int,
    eb: int,
)
    requires
        0 <= k <= p.len(),
        p.len() == ems.len(),
        forall|n: int| 0 <= n < p.len() ==> p[n].len() == NUM_CLASSES,
        forall|n: int, j: int| 0 <= n < p.len() && 0 <= j < NUM_CLASSES ==> p[n][j] <= cb,
        forall|n: int| 0 <= n < ems.len() ==> ems[n] <= eb,
        0 <= cb,
        0 <= eb,
        0 <= c < NUM_CLASSES,
    ensures
        0 <= weighted_prefix(p, ems, c, k) <= k * cb * eb,
    decreases k,
{
    if k > 0 {
        lemma_weighted_prefix_bound(p, ems, c, k - 1, cb, eb);
        assert(p[k - 1][c] * ems[k - 1] <= cb * eb) by (nonlinear_arith)
            requires
                0 <= p[k - 1][c] <= cb,
                0 <= ems[k - 1] <= eb,
        ;
        assert((k - 1) * cb * eb + cb * eb == k * cb * eb) by (nonlinear_arith);
        assert(0 <= p[k - 1][c] * ems[k - 1]) by (nonlinear_arith)
            requires
                0 <= p[k - 1][c],
                0 <= ems[k - 1],
        ;
    } else {
        assert(k * cb * eb == 0) by (nonlinear_arith)
            requires
                k == 0,
        ;
    }
}

} // verus!
