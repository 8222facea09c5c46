//! The metrics one evaluation produces, and the laws that relate them:
//! the accuracy fraction, the per-class miss counts and the confusion
//! matrix of misclassifications.

use vstd::prelude::*;

use crate::NUM_CLASSES;
use crate::model::lemma_matrix_total_prefix_nonneg;
use crate::model::lemma_row_sums_total;
use crate::model::matrix_total;
use crate::model::rows_view;
use crate::model::seq_sum_usize;

verus! {

/// The aggregate metrics of one scoring pass over a test set.
///
/// The accuracy the original driver reports is the fraction
/// `correct / total`; it is kept here as the exact pair of counters.
pub struct MetricReport {
    /// Test images whose decision equals their true label.
    pub correct: usize,
    /// Test images scored in all.
    pub total: usize,
    /// Misclassified images per true class.
    pub misses: Vec<usize>,
    /// Misclassified images per (true class, decided class) pair; correct
    /// decisions are not recorded here.
    pub confusion: Vec<Vec<usize>>,
}

impl MetricReport {
    /// The shape and the counting invariants of a report: ten miss
    /// counters, a ten-by-ten confusion matrix whose row sums are the miss
    /// counters, and every scored image either correct or recorded in the
    /// matrix.
    pub open spec fn wf(&self) -> bool {
        &&& self.misses@.len() == NUM_CLASSES
        &&& self.confusion@.len() == NUM_CLASSES
        &&& forall|r: int| 0 <= r < NUM_CLASSES ==> (#[trigger] self.confusion@[r])@.len()
            == NUM_CLASSES
        &&& forall|r: int| 0 <= r < NUM_CLASSES ==> (#[trigger] self.misses@[r]) as int
            == seq_sum_usize(self.confusion@[r]@)
        &&& self.correct + matrix_total(rows_view(self.confusion@)) == self.total
    }
}

/// The confusion matrix's row sums equal the per-class miss counts, and
/// its total equals the number of test images that were not classified
/// correctly.
pub proof fn lemma_confusion_totals(r: &MetricReport)
    requires
        r.wf(),
    ensures
        forall|t: int| 0 <= t < NUM_CLASSES ==> (#[trigger] r.misses@[t]) as int == seq_sum_usize(
            rows_view(r.confusion@)[t],
        ),
        matrix_total(rows_view(r.confusion@)) == r.total - r.correct,
        seq_sum_usize(r.misses@) == r.total - r.correct,
{
    lemma_row_sums_total(r.misses@, rows_view(r.confusion@), NUM_CLASSES as int);
}

/// Accuracy lies between zero and one: `correct` never exceeds `total`,
/// it equals `total` exactly when no image was missed, and it is zero
/// exactly when every image was missed.
pub proof fn lemma_accuracy_range(r: &MetricReport)
    requires
        r.wf(),
    ensures
        r.correct <= r.total,
        (seq_sum_usize(r.misses@) == 0) <==> (r.correct == r.total),
        (seq_sum_usize(r.misses@) == r.total) <==> (r.correct == 0),
{
    lemma_matrix_total_prefix_nonneg(rows_view(r.confusion@), NUM_CLASSES as int);
    lemma_row_sums_total(r.misses@, rows_view(r.confusion@), NUM_CLASSES as int);
}

} // verus!
