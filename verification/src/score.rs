//! Scoring of one test image: the activation-weighted classification
//! vector, and the decision rule over normalized scores.
//!
//! The normalized score of class `c` is the fraction `w[c] / t[c]` of the
//! weighted slot over the per-class total.  Scores are compared exactly, by
//! cross multiplication with positive denominators, so the decision is the
//! first class attaining the strictly greatest positive score; when no
//! score is positive the decision stays at class `0`.  A class whose total
//! is zero was absent from training; its slot is also zero, its score is
//! undefined, and it is never selected.

use vstd::prelude::*;

use crate::CLASS_TOTAL_MAX;
use crate::EM_MAX;
use crate::MAX_NEURONS;
use crate::NUM_CLASSES;
use crate::PROFILE_CELL_MAX;
use crate::WEIGHTED_MAX;
use crate::model::ems_ok;
use crate::model::lemma_weighted_prefix_bound;
use crate::model::weighted_prefix;
use crate::model::weighted_sum;

verus! {

/// The sequence-of-sequences reading of a profile matrix.
pub open spec fn profile_view(p: &Vec<Vec<u64>>) -> Seq<Seq<u64>> {
    Seq::new(p@.len(), |n: int| p@[n]@)
}

/// Class `i` has a positive normalized score: its total and its weighted
/// slot are both positive.
pub open spec fn score_pos(w: Seq<u128>, t: Seq<u64>, i: int) -> bool {
    t[i] > 0 && w[i] > 0
}

/// The normalized score of class `i` is at most that of class `j`, by
/// cross multiplication.
pub open spec fn score_le(w: Seq<u128>, t: Seq<u64>, i: int, j: int) -> bool {
    (w[i] as int) * (t[j] as int) <= (w[j] as int) * (t[i] as int)
}

/// The normalized score of class `i` is strictly below that of class `j`.
pub open spec fn score_lt(w: Seq<u128>, t: Seq<u64>, i: int, j: int) -> bool {
    (w[i] as int) * (t[j] as int) < (w[j] as int) * (t[i] as int)
}

/// `d` is the class the decision rule picks: the first class attaining the
/// strictly greatest positive normalized score, or `0` when no class has a
/// positive score.
pub open spec fn is_decision(w: Seq<u128>, t: Seq<u64>, d: int) -> bool {
    &&& 0 <= d < w.len()
    &&& if exists|i: int| 0 <= i < w.len() && score_pos(w, t, i) {
        &&& score_pos(w, t, d)
        &&& (forall|i: int| 0 <= i < w.len() && score_pos(w, t, i) ==> score_le(w, t, i, d))
        &&& (forall|i: int| 0 <= i < d && score_pos(w, t, i) ==> score_lt(w, t, i, d))
    } else {
        d == 0
    }
}

/// The running state of the decision scan over the first `k` classes: the
/// best index so far and the numerator and denominator of its score,
/// seeded at index `0` with the score `0 / 1`.
pub open spec fn scan_best(w: Seq<u128>, t: Seq<u64>, k: int) -> (int, int, int)
    decreases k,
{
    if k <= 0 {
        (0, 0, 1)
    } else {
        let prev = scan_best(w, t, k - 1);
        if t[k - 1] > 0 && (w[k - 1] as int) * prev.2 > prev.1 * (t[k - 1] as int) {
            (k - 1, w[k - 1] as int, t[k - 1] as int)
        } else {
            prev
        }
    }
}

/// The class the decision scan picks over the whole score vector.
pub open spec fn decision_of(w: Seq<u128>, t: Seq<u64>) -> int {
    scan_best(w, t, w.len() as int).0
}

/// The weighted classification vector as a value: slot `c` is the
/// weighted sum of profile column `c` under the given activation
/// readings.
pub open spec fn weighted_of(p: Seq<Seq<u64>>, ems: Seq<u64>) -> Seq<u128> {
    Seq::new(NUM_CLASSES as nat, |c: int| weighted_sum(p, ems, c) as u128)
}

/// The decision on one image: the decision rule over the weighted vector
/// of its activation readings, normalized by the per-class totals.
pub open spec fn image_decision(p: Seq<Seq<u64>>, t: Seq<u64>, ems: Seq<u64>) -> int {
    decision_of(weighted_of(p, ems), t)
}

/// How many of the first `k` test images are decided as their true label,
/// under the activation trace `emss`.
pub open spec fn correct_count(
    p: Seq<Seq<u64>>,
    t: Seq<u64>,
    emss: Seq<Seq<u64>>,
    lbls: Seq<u8>,
    k: int,
) -> int
    decreases k,
{
    if k <= 0 {
        0
    } else {
        correct_count(p, t, emss, lbls, k - 1) + if image_decision(p, t, emss[k - 1]) == lbls[k
            - 1] as int {
            1int
        } else {
            0int
        }
    }
}

/// How many of the first `k` test images of true class `cls` are missed.
pub open spec fn miss_count(
    p: Seq<Seq<u64>>,
    t: Seq<u64>,
    emss: Seq<Seq<u64>>,
    lbls: Seq<u8>,
    cls: int,
    k: int,
) -> int
    decreases k,
{
    if k <= 0 {
        0
    } else {
        miss_count(p, t, emss, lbls, cls, k - 1) + if lbls[k - 1] as int == cls
            && image_decision(p, t, emss[k - 1]) != cls {
            1int
        } else {
            0int
        }
    }
}

/// How many of the first `k` test images of true class `tr` are
/// misdecided as class `dec`.
pub open spec fn confusion_count(
    p: Seq<Seq<u64>>,
    t: Seq<u64>,
    emss: Seq<Seq<u64>>,
    lbls: Seq<u8>,
    tr: int,
    dec: int,
    k: int,
) -> int
    decreases k,
{
    if k <= 0 {
        0
    } else {
        confusion_count(p, t, emss, lbls, tr, dec, k - 1) + if lbls[k - 1] as int == tr
            && image_decision(p, t, emss[k - 1]) == dec && dec != tr {
            1int
        } else {
            0int
        }
    }
}

/// The counters of a report are exactly the per-image decision counts
/// over the given activation trace: `correct` counts the images whose
/// decision equals their true label, and the misses and the confusion
/// matrix count the rest per class.
pub open spec fn report_counts(
    rep: crate::report::MetricReport,
    p: Seq<Seq<u64>>,
    t: Seq<u64>,
    emss: Seq<Seq<u64>>,
    lbls: Seq<u8>,
) -> bool {
    &&& rep.total == lbls.len()
    &&& rep.correct as int == correct_count(p, t, emss, lbls, lbls.len() as int)
    &&& forall|cls: int|
        0 <= cls < NUM_CLASSES ==> (#[trigger] rep.misses@[cls]) as int == miss_count(
            p,
            t,
            emss,
            lbls,
            cls,
            lbls.len() as int,
        )
    &&& forall|tr: int, dec: int|
        0 <= tr < NUM_CLASSES && 0 <= dec < NUM_CLASSES ==> (#[trigger] rep.confusion@[tr]@[dec]) as int
            == confusion_count(p, t, emss, lbls, tr, dec, lbls.len() as int)
}

/// The boundary cases of accuracy, at the decision level: the correct
/// count is never negative nor above the image count; it reaches the
/// image count exactly when every image's decision equals its true label,
/// and zero exactly when no image's decision does.
pub proof fn lemma_correct_count_extremes(
    p: Seq<Seq<u64>>,
    t: Seq<u64>,
    emss: Seq<Seq<u64>>,
    lbls: Seq<u8>,
    k: int,
)
    requires
        0 <= k <= emss.len(),
        k <= lbls.len(),
    ensures
        0 <= correct_count(p, t, emss, lbls, k) <= k,
        (correct_count(p, t, emss, lbls, k) == k) <==> (forall|i: int|
            0 <= i < k ==> image_decision(p, t, #[trigger] emss[i]) == lbls[i] as int),
        (correct_count(p, t, emss, lbls, k) == 0) <==> (forall|i: int|
            0 <= i < k ==> image_decision(p, t, #[trigger] emss[i]) != lbls[i] as int),
    decreases k,
{
    if k > 0 {
        lemma_correct_count_extremes(p, t, emss, lbls, k - 1);
    }
}

/// The three counts read only the first `k` entries of the trace.
pub proof fn lemma_counts_prefix(
    p: Seq<Seq<u64>>,
    t: Seq<u64>,
    emss1: Seq<Seq<u64>>,
    emss2: Seq<Seq<u64>>,
    lbls: Seq<u8>,
    k: int,
)
    requires
        0 <= k,
        k <= emss1.len(),
        k <= emss2.len(),
        forall|i: int| 0 <= i < k ==> emss1[i] == emss2[i],
    ensures
        correct_count(p, t, emss1, lbls, k) == correct_count(p, t, emss2, lbls, k),
        forall|cls: int| #[trigger] miss_count(p, t, emss1, lbls, cls, k) == miss_count(
            p,
            t,
            emss2,
            lbls,
            cls,
            k,
        ),
        forall|tr: int, dec: int| #[trigger] confusion_count(p, t, emss1, lbls, tr, dec, k)
            == confusion_count(p, t, emss2, lbls, tr, dec, k),
    decreases k,
{
    if k > 0 {
        lemma_counts_prefix(p, t, emss1, emss2, lbls, k - 1);
        assert forall|cls: int| #[trigger] miss_count(p, t, emss1, lbls, cls, k) == miss_count(
            p,
            t,
            emss2,
            lbls,
            cls,
            k,
        ) by {
            assert(miss_count(p, t, emss1, lbls, cls, k - 1) == miss_count(
                p,
                t,
                emss2,
                lbls,
                cls,
                k - 1,
            ));
        }
        assert forall|tr: int, dec: int| #[trigger] confusion_count(
            p,
            t,
            emss1,
            lbls,
            tr,
            dec,
            k,
        ) == confusion_count(p, t, emss2, lbls, tr, dec, k) by {
            assert(confusion_count(p, t, emss1, lbls, tr, dec, k - 1) == confusion_count(
                p,
                t,
                emss2,
                lbls,
                tr,
                dec,
                k - 1,
            ));
        }
    }
}

/// With positive denominators, a product of values below the given bounds
/// stays below the product of the bounds.
pub proof fn lemma_mul_le(a: int, b: int, bound_a: int, bound_b: int)
    by (nonlinear_arith)
    requires
        0 <= a <= bound_a,
        0 <= b <= bound_b,
    ensures
        a * b <= bound_a * bound_b,
{
}

/// A positive product with a positive right factor has a positive left
/// factor.
pub proof fn lemma_mul_pos(a: int, b: int)
    by (nonlinear_arith)
    requires
        a * b > 0,
        b > 0,
    ensures
        a > 0,
{
}

/// Score comparison chains across a change of the best class: if `j`'s
/// score is at most `b`'s and `b`'s is strictly below `i`'s, then `j`'s is
/// strictly below `i`'s (all denominators positive).
pub proof fn lemma_frac_le_lt(wj: int, tj: int, wb: int, tb: int, wi: int, ti: int)
    by (nonlinear_arith)
    requires
        tj > 0,
        tb > 0,
        ti > 0,
        wj * tb <= wb * tj,
        wb * ti < wi * tb,
    ensures
        wj * ti < wi * tj,
{
}

/// The activation-weighted classification vector: slot `c` sums, over all
/// neurons, the neuron's profile entry for class `c` times the neuron's
/// activation on the current image.
pub fn weighted_scores(profile: &Vec<Vec<u64>>, ems: &Vec<u64>) -> (w: Vec<u128>)
    requires
        profile@.len() == ems@.len(),
        profile@.len() <= MAX_NEURONS,
        forall|n: int| 0 <= n < profile@.len() ==> (#[trigger] profile@[n])@.len() == NUM_CLASSES,
        forall|n: int, c: int|
            0 <= n < profile@.len() && 0 <= c < NUM_CLASSES ==> #[trigger] profile@[n]@[c]
                <= PROFILE_CELL_MAX,
        ems_ok(ems@),
    ensures
        w@.len() == NUM_CLASSES,
        forall|c: int|
            0 <= c < NUM_CLASSES ==> #[trigger] w@[c] as int == weighted_sum(
                profile_view(profile),
                ems@,
                c,
            ),
        forall|c: int| 0 <= c < NUM_CLASSES ==> #[trigger] w@[c] <= WEIGHTED_MAX,
{
    let ghost pv = profile_view(profile);
    let n_neurons = profile.len();
    let mut w: Vec<u128> = Vec::new();
    let mut c: usize = 0;
    while c < NUM_CLASSES
        invariant
            c <= NUM_CLASSES,
            w@.len() == c,
            forall|j: int| 0 <= j < c ==> w@[j] == 0,
        decreases NUM_CLASSES - c,
    {
        w.push(0);
        c += 1;
    }
    let mut n: usize = 0;
    while n < n_neurons
        invariant
            n <= n_neurons,
            n_neurons == profile@.len(),
            profile@.len() == ems@.len(),
            profile@.len() <= MAX_NEURONS,
            pv == profile_view(profile),
            forall|m: int| 0 <= m < profile@.len() ==> (#[trigger] profile@[m])@.len()
                == NUM_CLASSES,
            forall|m: int, j: int|
                0 <= m < profile@.len() && 0 <= j < NUM_CLASSES ==> #[trigger] profile@[m]@[j]
                    <= PROFILE_CELL_MAX,
            ems_ok(ems@),
            w@.len() == NUM_CLASSES,
            forall|j: int|
                0 <= j < NUM_CLASSES ==> #[trigger] w@[j] as int == weighted_prefix(
                    pv,
                    ems@,
                    j,
                    n as int,
                ),
        decreases n_neurons - n,
    {
        let em = ems[n];
        let mut c: usize = 0;
        while c < NUM_CLASSES
            invariant
                c <= NUM_CLASSES,
                n < n_neurons,
                n_neurons == profile@.len(),
                profile@.len() == ems@.len(),
                profile@.len() <= MAX_NEURONS,
                pv == profile_view(profile),
                em == ems@[n as int],
                forall|m: int| 0 <= m < profile@.len() ==> (#[trigger] profile@[m])@.len()
                    == NUM_CLASSES,
                forall|m: int, j: int|
                    0 <= m < profile@.len() && 0 <= j < NUM_CLASSES ==> #[trigger] profile@[m]@[j]
                        <= PROFILE_CELL_MAX,
                ems_ok(ems@),
                w@.len() == NUM_CLASSES,
                forall|j: int|
                    0 <= j < c ==> #[trigger] w@[j] as int == weighted_prefix(
                        pv,
                        ems@,
                        j,
                        n as int + 1,
                    ),
                forall|j: int|
                    c <= j < NUM_CLASSES ==> #[trigger] w@[j] as int == weighted_prefix(
                        pv,
                        ems@,
                        j,
                        n as int,
                    ),
            decreases NUM_CLASSES - c,
        {
            proof {
                lemma_weighted_prefix_bound(
                    pv,
                    ems@,
                    c as int,
                    n as int,
                    PROFILE_CELL_MAX as int,
                    EM_MAX as int,
                );
                lemma_mul_le(
                    pv[n as int][c as int] as int,
                    ems@[n as int] as int,
                    PROFILE_CELL_MAX as int,
                    EM_MAX as int,
                );
                assert((n as int) * (PROFILE_CELL_MAX as int) * (EM_MAX as int) + (
                PROFILE_CELL_MAX as int) * (EM_MAX as int) <= (MAX_NEURONS as int) * (
                PROFILE_CELL_MAX as int) * (EM_MAX as int)) by (nonlinear_arith)
                    requires
                        n as int + 1 <= MAX_NEURONS as int,
                ;
                assert((MAX_NEURONS as int) * (PROFILE_CELL_MAX as int) * (EM_MAX as int)
                    == WEIGHTED_MAX as int) by (nonlinear_arith);
            }
            let prod = (profile[n][c] as u128) * (em as u128);
            w[c] = w[c] + prod;
            c += 1;
        }
        n += 1;
    }
    proof {
        assert forall|c: int| 0 <= c < NUM_CLASSES implies #[trigger] w@[c] <= WEIGHTED_MAX by {
            lemma_weighted_prefix_bound(
                pv,
                ems@,
                c,
                pv.len() as int,
                PROFILE_CELL_MAX as int,
                EM_MAX as int,
            );
            assert((pv.len() as int) * (PROFILE_CELL_MAX as int) * (EM_MAX as int) <= (
            MAX_NEURONS as int) * (PROFILE_CELL_MAX as int) * (EM_MAX as int))
                by (nonlinear_arith)
                requires
                    0 <= pv.len() <= MAX_NEURONS as int,
            ;
            assert((MAX_NEURONS as int) * (PROFILE_CELL_MAX as int) * (EM_MAX as int)
                == WEIGHTED_MAX as int) by (nonlinear_arith);
        }
    }
    w
}

/// Normalizes each slot by its per-class total and picks the decision
/// class: the first class whose normalized score strictly exceeds every
/// earlier one and is not exceeded later, seeded at score `0`.
pub fn classify(w: &Vec<u128>, t: &Vec<u64>) -> (d: usize)
    requires
        w@.len() == NUM_CLASSES,
        t@.len() == NUM_CLASSES,
        forall|i: int| 0 <= i < w@.len() ==> #[trigger] w@[i] <= WEIGHTED_MAX,
        forall|i: int| 0 <= i < t@.len() ==> #[trigger] t@[i] <= CLASS_TOTAL_MAX,
    ensures
        d < NUM_CLASSES,
        d as int == decision_of(w@, t@),
        is_decision(w@, t@, d as int),
{
    let mut best_i: usize = 0;
    let mut best_w: u128 = 0;
    let mut best_t: u64 = 1;
    let mut i: usize = 0;
    while i < NUM_CLASSES
        invariant
            i <= NUM_CLASSES,
            w@.len() == NUM_CLASSES,
            t@.len() == NUM_CLASSES,
            forall|j: int| 0 <= j < w@.len() ==> #[trigger] w@[j] <= WEIGHTED_MAX,
            forall|j: int| 0 <= j < t@.len() ==> #[trigger] t@[j] <= CLASS_TOTAL_MAX,
            scan_best(w@, t@, i as int) == (best_i as int, best_w as int, best_t as int),
            best_t >= 1,
            best_t <= CLASS_TOTAL_MAX,
            best_w <= WEIGHTED_MAX,
            best_i < NUM_CLASSES,
            if exists|j: int| 0 <= j < i && score_pos(w@, t@, j) {
                &&& best_i < i
                &&& score_pos(w@, t@, best_i as int)
                &&& best_w == w@[best_i as int]
                &&& best_t == t@[best_i as int]
                &&& (forall|j: int|
                    0 <= j < i && score_pos(w@, t@, j) ==> score_le(w@, t@, j, best_i as int))
                &&& (forall|j: int|
                    0 <= j < best_i && score_pos(w@, t@, j) ==> score_lt(w@, t@, j, best_i as int))
            } else {
                best_i == 0 && best_w == 0 && best_t == 1
            },
        decreases NUM_CLASSES - i,
    {
        let wi = w[i];
        let ti = t[i];
        proof {
            lemma_mul_le(wi as int, best_t as int, WEIGHTED_MAX as int, CLASS_TOTAL_MAX as int);
            lemma_mul_le(best_w as int, ti as int, WEIGHTED_MAX as int, CLASS_TOTAL_MAX as int);
            assert((WEIGHTED_MAX as int) * (CLASS_TOTAL_MAX as int) <= u128::MAX as int)
                by (nonlinear_arith);
        }
        if ti > 0 && wi * (best_t as u128) > best_w * (ti as u128) {
            proof {
                // the new class strictly beats the running best, so its own
                // numerator is positive
                assert((best_w as int) * (ti as int) >= 0) by (nonlinear_arith)
                    requires
                        best_w as int >= 0,
                        ti as int >= 0,
                ;
                lemma_mul_pos(wi as int, best_t as int);
                assert(score_pos(w@, t@, i as int));
                if exists|j: int| 0 <= j < i && score_pos(w@, t@, j) {
                    // every earlier positive score was at most the best's, and
                    // the best's is strictly below the new one
                    assert(score_pos(w@, t@, best_i as int));
                    assert forall|j: int|
                        0 <= j < i && score_pos(w@, t@, j) implies score_lt(
                        w@,
                        t@,
                        j,
                        i as int,
                    ) by {
                        lemma_frac_le_lt(
                            w@[j] as int,
                            t@[j] as int,
                            best_w as int,
                            best_t as int,
                            wi as int,
                            ti as int,
                        );
                    }
                }
            }
            best_i = i;
            best_w = wi;
            best_t = ti;
        } else {
            proof {
                if ti > 0 && wi > 0 {
                    // a positive score that does not beat the best is at most it
                    assert((wi as int) * (best_t as int) <= (best_w as int) * (ti as int));
                    if exists|j: int| 0 <= j < i && score_pos(w@, t@, j) {
                        assert(score_le(w@, t@, i as int, best_i as int));
                    } else {
                        // the seed score is 0 / 1, and a positive score beats it
                        assert(false) by (nonlinear_arith)
                            requires
                                (wi as int) * (best_t as int) <= (best_w as int) * (ti as int),
                                best_w as int == 0,
                                best_t as int == 1,
                                wi as int > 0,
                                ti as int > 0,
                        ;
                    }
                }
            }
        }
        i += 1;
    }
    best_i
}

/// The policy for classes absent from training, made explicit: a class
/// whose per-class total is zero has an undefined normalized score and is
/// never selected; it can only be the decision as the resting class `0`,
/// when no class at all has a positive score.
pub proof fn lemma_zero_total_never_selected(w: Seq<u128>, t: Seq<u64>, d: int)
    requires
        is_decision(w, t, d),
        t[d] == 0,
    ensures
        d == 0,
        forall|i: int| 0 <= i < w.len() ==> !score_pos(w, t, i),
{
    if exists|i: int| 0 <= i < w.len() && score_pos(w, t, i) {
        assert(score_pos(w, t, d));
        assert(false);
    }
}

/// A class absent from training carries no weight either: when its column
/// of the profile sums to zero, every cell of the column is zero, so its
/// weighted slot is zero on every image.  The undefined score of such a
/// class is always the indeterminate zero over zero, never an unbounded
/// one.
pub proof fn lemma_empty_class_zero_weight(p: Seq<Seq<u64>>, ems: Seq<u64>, c: int, k: int)
    requires
        0 <= k <= p.len(),
        p.len() == ems.len(),
        forall|n: int| 0 <= n < p.len() ==> (#[trigger] p[n]).len() == NUM_CLASSES,
        0 <= c < NUM_CLASSES,
        crate::model::col_sum_prefix(p, c, k) == 0,
    ensures
        weighted_prefix(p, ems, c, k) == 0,
    decreases k,
{
    if k > 0 {
        crate::model::lemma_col_sum_prefix_bound(p, c, k - 1, u64::MAX as int);
        lemma_empty_class_zero_weight(p, ems, c, k - 1);
        assert(p[k - 1][c] * ems[k - 1] == 0) by (nonlinear_arith)
            requires
                p[k - 1][c] == 0,
        ;
    }
}

/// Tie-break law of the decision rule: when class `a` is the first class
/// attaining the greatest positive normalized score and class `b > a`
/// attains the same score, the decision falls on `a`, the lower index.
pub proof fn lemma_decision_tie_break(w: Seq<u128>, t: Seq<u64>, a: int, b: int, d: int)
    requires
        w.len() == t.len(),
        0 <= a < b < w.len(),
        score_pos(w, t, a),
        score_pos(w, t, b),
        score_le(w, t, a, b),
        score_le(w, t, b, a),
        forall|i: int| 0 <= i < w.len() && score_pos(w, t, i) ==> score_le(w, t, i, a),
        forall|i: int| 0 <= i < a && score_pos(w, t, i) ==> score_lt(w, t, i, a),
        is_decision(w, t, d),
    ensures
        d == a,
{
    assert(exists|i: int| 0 <= i < w.len() && score_pos(w, t, i)) by {
        assert(score_pos(w, t, a));
    }
    if d < a {
        assert(score_le(w, t, a, d));
        assert(score_lt(w, t, d, a));
        assert(false);
    }
    if d > a {
        assert(score_lt(w, t, a, d));
        assert(score_le(w, t, d, a));
        assert(false);
    }
}

} // verus!
