//! Construction of the per-neuron per-class profile: the two accumulation
//! strategies, and the winner-take-all selection of the single
//! highest-activation neuron.

use vstd::prelude::*;

use crate::CLASS_TOTAL_MAX;
use crate::EM_MAX;
use crate::MAX_NEURONS;
use crate::NUM_CLASSES;
use crate::PROFILE_CELL_MAX;
use crate::model::ems_ok;
use crate::model::lemma_sum_prefix_bound;
use crate::model::sum_prefix;

verus! {

/// Which accumulation strategy builds the profile.
#[derive(Clone, Copy, Debug, PartialEq, Eq, Structural)]
pub enum ProfileVariant {
    /// Credit every neuron with its raw activation.
    ActivationSum,
    /// Credit only the single highest-activation neuron, with one win.
    WinnerTakeAll,
}

/// The greatest activation among the first `k`, seeded at `0`.
pub open spec fn win_val(ems: Seq<u64>, k: int) -> u64
    decreases k,
{
    if k <= 0 {
        0u64
    } else if ems[k - 1] > win_val(ems, k - 1) {
        ems[k - 1]
    } else {
        win_val(ems, k - 1)
    }
}

/// The index of the first neuron attaining the greatest activation among
/// the first `k`, seeded at index `0`: a later neuron takes the lead only
/// by strictly exceeding it.
pub open spec fn win_idx(ems: Seq<u64>, k: int) -> int
    decreases k,
{
    if k <= 0 {
        0
    } else if ems[k - 1] > win_val(ems, k - 1) {
        k - 1
    } else {
        win_idx(ems, k - 1)
    }
}

/// The winning neuron of a whole activation vector.
pub open spec fn winner_of(ems: Seq<u64>) -> int {
    win_idx(ems, ems.len() as int)
}

/// `d` is the winner: the first neuron attaining the strictly greatest
/// positive activation, or neuron `0` when every activation is zero.
pub open spec fn is_winner(ems: Seq<u64>, d: int) -> bool {
    &&& 0 <= d < ems.len()
    &&& if exists|i: int| 0 <= i < ems.len() && ems[i] > 0 {
        &&& ems[d] > 0
        &&& (forall|i: int| 0 <= i < ems.len() ==> ems[i] <= ems[d])
        &&& (forall|i: int| 0 <= i < d ==> ems[i] < ems[d])
    } else {
        d == 0
    }
}

/// The all-zero profile: one row of ten zero slots per neuron.
pub open spec fn zero_profile_rows(nn: nat) -> Seq<Seq<u64>> {
    Seq::new(nn, |n: int| Seq::new(NUM_CLASSES as nat, |c: int| 0u64))
}

/// One image's effect on the profile: under the activation-sum variant
/// every neuron's activation joins that neuron's slot for the true label;
/// under winner-take-all the single winning neuron's slot rises by one.
pub open spec fn profile_step(
    variant: ProfileVariant,
    p: Seq<Seq<u64>>,
    ems: Seq<u64>,
    lbl: int,
) -> Seq<Seq<u64>> {
    match variant {
        ProfileVariant::ActivationSum => Seq::new(
            p.len(),
            |n: int| p[n].update(lbl, (p[n][lbl] + ems[n]) as u64),
        ),
        ProfileVariant::WinnerTakeAll => {
            let w = winner_of(ems);
            p.update(w, p[w].update(lbl, (p[w][lbl] + 1) as u64))
        },
    }
}

/// The profile after the first `k` training images: the fold of
/// [`profile_step`] from the all-zero profile over the per-image
/// activation readings `emss` and the true labels.
pub open spec fn profile_after(
    variant: ProfileVariant,
    emss: Seq<Seq<u64>>,
    lbls: Seq<u8>,
    nn: nat,
    k: int,
) -> Seq<Seq<u64>>
    decreases k,
{
    if k <= 0 {
        zero_profile_rows(nn)
    } else {
        profile_step(
            variant,
            profile_after(variant, emss, lbls, nn, k - 1),
            emss[k - 1],
            lbls[k - 1] as int,
        )
    }
}

/// A valid trace of activation readings: one vector per image, one
/// bounded activation per neuron.
pub open spec fn emss_wf(emss: Seq<Seq<u64>>, count: int, nn: nat) -> bool {
    &&& emss.len() == count
    &&& forall|i: int| 0 <= i < emss.len() ==> (#[trigger] emss[i]).len() == nn
    &&& forall|i: int| 0 <= i < emss.len() ==> ems_ok(#[trigger] emss[i])
}

/// The folded profile reads only the first `k` entries of the trace.
pub proof fn lemma_profile_after_prefix(
    variant: ProfileVariant,
    emss1: Seq<Seq<u64>>,
    emss2: Seq<Seq<u64>>,
    lbls: Seq<u8>,
    nn: nat,
    k: int,
)
    requires
        0 <= k,
        k <= emss1.len(),
        k <= emss2.len(),
        forall|i: int| 0 <= i < k ==> emss1[i] == emss2[i],
    ensures
        profile_after(variant, emss1, lbls, nn, k) == profile_after(variant, emss2, lbls, nn, k),
    decreases k,
{
    if k > 0 {
        lemma_profile_after_prefix(variant, emss1, emss2, lbls, nn, k - 1);
    }
}

/// The winner index lies within the activation vector.
pub proof fn lemma_winner_in_range(ems: Seq<u64>)
    requires
        ems.len() > 0,
    ensures
        0 <= winner_of(ems) < ems.len(),
{
    lemma_win_idx_range(ems, ems.len() as int);
}

proof fn lemma_win_idx_range(ems: Seq<u64>, k: int)
    requires
        1 <= k <= ems.len(),
    ensures
        0 <= win_idx(ems, k) < k,
    decreases k,
{
    if k > 1 {
        lemma_win_idx_range(ems, k - 1);
    } else {
        assert(win_idx(ems, 0) == 0);
    }
}

/// Selects the winning neuron of one training image: the first neuron
/// whose activation strictly exceeds every earlier one and is not exceeded
/// later, seeded at activation `0`.
pub fn pick_winner(ems: &Vec<u64>) -> (d: usize)
    requires
        ems@.len() > 0,
    ensures
        d < ems@.len(),
        d as int == winner_of(ems@),
        is_winner(ems@, d as int),
{
    let mut best_i: usize = 0;
    let mut best_v: u64 = 0;
    let mut i: usize = 0;
    while i < ems.len()
        invariant
            i <= ems@.len(),
            ems@.len() > 0,
            best_v == win_val(ems@, i as int),
            best_i as int == win_idx(ems@, i as int),
            best_i < ems@.len(),
            forall|j: int| 0 <= j < i ==> ems@[j] <= best_v,
            if exists|j: int| 0 <= j < i && ems@[j] > 0 {
                &&& best_i < i
                &&& ems@[best_i as int] == best_v
                &&& best_v > 0
                &&& (forall|j: int| 0 <= j < best_i ==> ems@[j] < best_v)
            } else {
                best_i == 0 && best_v == 0
            },
        decreases ems@.len() - i,
    {
        if ems[i] > best_v {
            best_i = i;
            best_v = ems[i];
        }
        i += 1;
    }
    best_i
}

/// One activation-sum accumulation step: every neuron's activation on the
/// image is added into that neuron's profile slot for the image's true
/// label, and their sum into the per-class total of the label.
pub fn accumulate_profile_a(
    profile: &mut Vec<Vec<u64>>,
    totals: &mut Vec<u64>,
    ems: &Vec<u64>,
    lbl: u8,
)
    requires
        (lbl as int) < NUM_CLASSES,
        old(totals)@.len() == NUM_CLASSES,
        old(profile)@.len() == ems@.len(),
        ems@.len() <= MAX_NEURONS,
        ems_ok(ems@),
        forall|n: int| 0 <= n < old(profile)@.len() ==> (#[trigger] old(profile)@[n])@.len()
            == NUM_CLASSES,
        forall|n: int, c: int|
            0 <= n < old(profile)@.len() && 0 <= c < NUM_CLASSES ==> #[trigger] old(
                profile,
            )@[n]@[c] + EM_MAX <= PROFILE_CELL_MAX,
        forall|c: int|
            0 <= c < NUM_CLASSES ==> #[trigger] old(totals)@[c] + (MAX_NEURONS as int) * (
            EM_MAX as int) <= CLASS_TOTAL_MAX,
    ensures
        final(profile)@.len() == old(profile)@.len(),
        forall|n: int|
            0 <= n < final(profile)@.len() ==> (#[trigger] final(profile)@[n])@ == old(profile)@[n]@.update(
                lbl as int,
                (old(profile)@[n]@[lbl as int] + ems@[n]) as u64,
            ),
        final(totals)@.len() == NUM_CLASSES,
        final(totals)@[lbl as int] as int == old(totals)@[lbl as int] + sum_prefix(
            ems@,
            ems@.len() as int,
        ),
        forall|c: int| 0 <= c < NUM_CLASSES && c != lbl ==> final(totals)@[c] == old(totals)@[c],
{
    let lblu = lbl as usize;
    let mut n: usize = 0;
    while n < ems.len()
        invariant
            n <= ems@.len(),
            ems@.len() <= MAX_NEURONS,
            ems_ok(ems@),
            lblu == lbl as int,
            (lbl as int) < NUM_CLASSES,
            profile@.len() == old(profile)@.len(),
            old(profile)@.len() == ems@.len(),
            forall|m: int|
                0 <= m < n ==> (#[trigger] profile@[m])@ == old(profile)@[m]@.update(
                    lbl as int,
                    (old(profile)@[m]@[lbl as int] + ems@[m]) as u64,
                ),
            forall|m: int| n <= m < profile@.len() ==> #[trigger] profile@[m] == old(profile)@[m],
            forall|m: int| 0 <= m < old(profile)@.len() ==> (#[trigger] old(profile)@[m])@.len()
                == NUM_CLASSES,
            forall|m: int, c: int|
                0 <= m < old(profile)@.len() && 0 <= c < NUM_CLASSES ==> #[trigger] old(
                    profile,
                )@[m]@[c] + EM_MAX <= PROFILE_CELL_MAX,
            totals@.len() == NUM_CLASSES,
            totals@[lbl as int] as int == old(totals)@[lbl as int] + sum_prefix(ems@, n as int),
            forall|c: int| 0 <= c < NUM_CLASSES && c != lbl ==> totals@[c] == old(totals)@[c],
            forall|c: int|
                0 <= c < NUM_CLASSES ==> #[trigger] old(totals)@[c] + (MAX_NEURONS as int) * (
                EM_MAX as int) <= CLASS_TOTAL_MAX,
        decreases ems@.len() - n,
    {
        proof {
            lemma_sum_prefix_bound(ems@, n as int, EM_MAX as int);
            assert((n as int + 1) * (EM_MAX as int) <= (MAX_NEURONS as int) * (EM_MAX as int))
                by (nonlinear_arith)
                requires
                    n as int + 1 <= MAX_NEURONS as int,
            ;
        }
        let em = ems[n];
        profile[n][lblu] = profile[n][lblu] + em;
        totals[lblu] = totals[lblu] + em;
        n += 1;
    }
}

/// One winner-take-all accumulation step: the single winning neuron's
/// profile slot for the image's true label rises by one win, and so does
/// the per-class win total of the label.
pub fn accumulate_profile_b(
    profile: &mut Vec<Vec<u64>>,
    totals: &mut Vec<u64>,
    ems: &Vec<u64>,
    lbl: u8,
)
    requires
        (lbl as int) < NUM_CLASSES,
        old(totals)@.len() == NUM_CLASSES,
        old(profile)@.len() == ems@.len(),
        ems@.len() > 0,
        ems@.len() <= MAX_NEURONS,
        ems_ok(ems@),
        forall|n: int| 0 <= n < old(profile)@.len() ==> (#[trigger] old(profile)@[n])@.len()
            == NUM_CLASSES,
        forall|n: int, c: int|
            0 <= n < old(profile)@.len() && 0 <= c < NUM_CLASSES ==> #[trigger] old(
                profile,
            )@[n]@[c] + EM_MAX <= PROFILE_CELL_MAX,
        forall|c: int|
            0 <= c < NUM_CLASSES ==> #[trigger] old(totals)@[c] + (MAX_NEURONS as int) * (
            EM_MAX as int) <= CLASS_TOTAL_MAX,
    ensures
        final(profile)@.len() == old(profile)@.len(),
        final(profile)@[winner_of(ems@)]@ == old(profile)@[winner_of(ems@)]@.update(
            lbl as int,
            (old(profile)@[winner_of(ems@)]@[lbl as int] + 1) as u64,
        ),
        forall|n: int|
            0 <= n < final(profile)@.len() && n != winner_of(ems@) ==> #[trigger] final(profile)@[n] == old(
                profile,
            )@[n],
        final(totals)@.len() == NUM_CLASSES,
        final(totals)@[lbl as int] as int == old(totals)@[lbl as int] + 1,
        forall|c: int| 0 <= c < NUM_CLASSES && c != lbl ==> final(totals)@[c] == old(totals)@[c],
{
    let lblu = lbl as usize;
    let wnr = pick_winner(ems);
    proof {
        assert((MAX_NEURONS as int) * (EM_MAX as int) >= 1) by (nonlinear_arith);
    }
    profile[wnr][lblu] = profile[wnr][lblu] + 1;
    totals[lblu] = totals[lblu] + 1;
}

} // verus!
