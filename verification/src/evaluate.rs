//! The driver contract between the generic evaluator and a family of
//! concrete classification models: the neuron and network capabilities,
//! image loading, the training loop, profile construction and scoring.

use vstd::prelude::*;

use crate::CLASS_TOTAL_MAX;
use crate::EM_MAX;
use crate::MAX_NEURONS;
use crate::MAX_TRAIN_IMAGES;
use crate::MNIST_AREA;
use crate::MNIST_SIDE;
use crate::MetricError;
use crate::NUM_CLASSES;
use crate::PIXEL_MAX;
use crate::PROFILE_CELL_MAX;
use crate::model::class_absent;
use crate::model::class_absent_prefix;
use crate::model::col_sum;
use crate::model::ems_ok;
use crate::model::label_count;
use crate::model::label_count_prefix;
use crate::model::imgs_ok;
use crate::model::labels_ok;
use crate::model::lemma_col_sum_prefix_bound;
use crate::model::lemma_col_sum_prefix_pointwise;
use crate::model::lemma_col_sum_prefix_update;
use crate::model::lemma_sum_prefix_bound;
use crate::model::lemma_sum_prefix_usize_update;
use crate::model::matrix_total;
use crate::model::matrix_total_prefix;
use crate::model::pixel_index;
use crate::model::pixels_ok;
use crate::model::rows_view;
use crate::model::seq_sum_usize;
use crate::model::sum_prefix_usize;
use crate::profile::ProfileVariant;
use crate::profile::accumulate_profile_a;
use crate::profile::accumulate_profile_b;
use crate::profile::emss_wf;
use crate::profile::lemma_profile_after_prefix;
use crate::profile::profile_after;
use crate::profile::profile_step;
use crate::profile::zero_profile_rows;
use crate::report::MetricReport;
use crate::score::classify;
use crate::score::confusion_count;
use crate::score::correct_count;
use crate::score::image_decision;
use crate::score::lemma_counts_prefix;
use crate::score::miss_count;
use crate::score::profile_view;
use crate::score::report_counts;
use crate::score::weighted_of;
use crate::score::weighted_scores;
use vstd::arithmetic::div_mod::lemma_fundamental_div_mod;
use vstd::arithmetic::div_mod::lemma_mod_division_less_than_divisor;

verus! {

/// How a pass over one image-and-label set fails, scanning images in
/// ascending index order: loading image `i` fails when the buffer does not
/// hold it wholly, and its label is checked only after a successful load.
pub open spec fn phase_error(imgs: Seq<u64>, lbls: Seq<u8>) -> Option<MetricError> {
    if imgs_ok(imgs, lbls.len() as int) && labels_ok(lbls) {
        None
    } else {
        // how many whole images the buffer holds
        let fit = imgs.len() as int / (MNIST_AREA as int);
        if exists|i: int| 0 <= i < lbls.len() && i < fit && lbls[i] >= (NUM_CLASSES as u8) {
            Some(MetricError::InvalidLabel)
        } else {
            Some(MetricError::IndexError)
        }
    }
}

/// How a whole evaluation fails: training touches only the image buffer,
/// profile construction scans the training set, scoring scans the test
/// set.
pub open spec fn take_metric_error(
    train_imgs: Seq<u64>,
    train_lbls: Seq<u8>,
    epochs: int,
    test_imgs: Seq<u64>,
    test_lbls: Seq<u8>,
) -> Option<MetricError> {
    if epochs > 0 && !imgs_ok(train_imgs, train_lbls.len() as int) {
        Some(MetricError::IndexError)
    } else if phase_error(train_imgs, train_lbls) is Some {
        phase_error(train_imgs, train_lbls)
    } else {
        phase_error(test_imgs, test_lbls)
    }
}

/// A well-formed profile-and-totals pair for `nn` neurons: one row of ten
/// bounded slots per neuron, and per-class totals that are the column sums
/// of the profile.
pub open spec fn profile_wf(p: Seq<Seq<u64>>, t: Seq<u64>, nn: nat) -> bool {
    &&& p.len() == nn
    &&& forall|n: int| 0 <= n < p.len() ==> (#[trigger] p[n]).len() == NUM_CLASSES
    &&& forall|n: int, c: int|
        0 <= n < p.len() && 0 <= c < NUM_CLASSES ==> #[trigger] p[n][c] <= PROFILE_CELL_MAX
    &&& t.len() == NUM_CLASSES
    &&& forall|c: int| 0 <= c < NUM_CLASSES ==> #[trigger] t[c] as int == col_sum(p, c)
    &&& forall|c: int| 0 <= c < NUM_CLASSES ==> #[trigger] t[c] <= CLASS_TOTAL_MAX
}

/// One neuron unit: a name, and a scalar activation strength in response
/// to the image currently loaded into its network.
pub trait MnistNeuron {
    /// A human-readable name of the neuron.
    fn get_name(&self) -> String;

    /// The value the neuron outputs in response to the currently loaded
    /// image, as an unsigned fixed-point activation.
    fn compute_em(&self) -> (em: u64)
        ensures
            em <= EM_MAX,
    ;
}

/// A network of neurons in a fixed, significant order, able to take one
/// image pixel by pixel and to perform one opaque learning step.
///
/// Three ghost views model the network for the driver contracts: `loaded`
/// is the currently loaded image, `adjustments` counts the learning steps
/// performed, and `em_of` is the activation each neuron reports in the
/// current state.  The neuron order indexes the per-neuron profile rows,
/// so it must stay unchanged for a whole evaluation.
pub trait MnistNetwork: Sized {
    /// The pixels of the currently loaded image, row-major.
    spec fn loaded(&self) -> Seq<u64>;

    /// How many neurons the network holds, in their fixed order.
    spec fn neuron_count(&self) -> nat;

    /// How many learning steps have been performed on the network.
    spec fn adjustments(&self) -> nat;

    /// The activation each neuron reports in the network's current state:
    /// the value `neuron_em` returns for neuron `i`.
    spec fn em_of(&self, i: int) -> u64;

    /// The number of neurons.
    fn num_neurons(&self) -> (n: usize)
        ensures
            n as nat == self.neuron_count(),
    ;

    /// Takes pixel `(x, y)` of the image being loaded.  It may change the
    /// neurons' responses, but performs no learning step.
    fn load_val(&mut self, x: usize, y: usize, val: u64)
        requires
            x < MNIST_SIDE,
            y < MNIST_SIDE,
            val <= PIXEL_MAX,
            old(self).loaded().len() == MNIST_AREA,
        ensures
            final(self).loaded() == old(self).loaded().update(
                y as int * (MNIST_SIDE as int) + x as int,
                val,
            ),
            final(self).neuron_count() == old(self).neuron_count(),
            final(self).adjustments() == old(self).adjustments(),
    ;

    /// The activation of neuron `i` on the currently loaded image.
    fn neuron_em(&self, i: usize) -> (em: u64)
        requires
            (i as nat) < self.neuron_count(),
        ensures
            em == self.em_of(i as int),
            em <= EM_MAX,
    ;

    /// One learning step of the opaque adjustment rule, using the
    /// currently loaded image.
    fn perform_adjustment(&mut self)
        requires
            old(self).loaded().len() == MNIST_AREA,
        ensures
            final(self).loaded() == old(self).loaded(),
            final(self).neuron_count() == old(self).neuron_count(),
            final(self).adjustments() == old(self).adjustments() + 1,
    ;

    /// Loads image `img_i` of the buffer into the network: dispatches all
    /// 784 pixel values in row-major order, each read at
    /// `img_i * 784 + y * 28 + x`.  When the buffer does not hold image
    /// `img_i` wholly, it fails explicitly before dispatching anything,
    /// rather than reading past the end.
    fn load_img(&mut self, img_vec: &Vec<u64>, img_i: usize) -> (r: Result<(), MetricError>)
        requires
            old(self).loaded().len() == MNIST_AREA,
            pixels_ok(img_vec@),
        ensures
            final(self).neuron_count() == old(self).neuron_count(),
            final(self).adjustments() == old(self).adjustments(),
            final(self).loaded().len() == MNIST_AREA,
            r is Ok <==> (img_i as int + 1) * (MNIST_AREA as int) <= img_vec@.len(),
            r is Ok ==> forall|p: int|
                0 <= p < MNIST_AREA ==> #[trigger] final(self).loaded()[p] == img_vec@[img_i as int
                    * (MNIST_AREA as int) + p],
            r is Ok ==> forall|x: int, y: int|
                0 <= x < MNIST_SIDE && 0 <= y < MNIST_SIDE ==> final(self).loaded()[y * (
                MNIST_SIDE as int) + x] == img_vec@[#[trigger] pixel_index(img_i as int, x, y)],
            r is Err ==> final(self).loaded() == old(self).loaded(),
            r matches Err(e) ==> e == MetricError::IndexError,
    {
        let fit = img_vec.len() / MNIST_AREA;
        proof {
            lemma_fundamental_div_mod(img_vec@.len() as int, MNIST_AREA as int);
            lemma_mod_division_less_than_divisor(img_vec@.len() as int, MNIST_AREA as int);
        }
        if img_i >= fit {
            return Err(MetricError::IndexError);
        }
        let offset = img_i * MNIST_AREA;
        let mut y: usize = 0;
        while y < MNIST_SIDE
            invariant
                y <= MNIST_SIDE,
                img_vec@.len() <= usize::MAX,
                (img_i as int + 1) * (MNIST_AREA as int) <= img_vec@.len(),
                offset == img_i as int * (MNIST_AREA as int),
                pixels_ok(img_vec@),
                self.loaded().len() == MNIST_AREA,
                self.neuron_count() == old(self).neuron_count(),
                self.adjustments() == old(self).adjustments(),
                forall|p: int|
                    0 <= p < y * (MNIST_SIDE as int) ==> #[trigger] self.loaded()[p]
                        == img_vec@[img_i as int * (MNIST_AREA as int) + p],
            decreases MNIST_SIDE - y,
        {
            let mut x: usize = 0;
            while x < MNIST_SIDE
                invariant
                    x <= MNIST_SIDE,
                    y < MNIST_SIDE,
                    img_vec@.len() <= usize::MAX,
                    (img_i as int + 1) * (MNIST_AREA as int) <= img_vec@.len(),
                    offset == img_i as int * (MNIST_AREA as int),
                    pixels_ok(img_vec@),
                    self.loaded().len() == MNIST_AREA,
                    self.neuron_count() == old(self).neuron_count(),
                    self.adjustments() == old(self).adjustments(),
                    forall|p: int|
                        0 <= p < y * (MNIST_SIDE as int) + x ==> #[trigger] self.loaded()[p]
                            == img_vec@[img_i as int * (MNIST_AREA as int) + p],
                decreases MNIST_SIDE - x,
            {
                let val_i = offset + y * MNIST_SIDE + x;
                let val = img_vec[val_i];
                self.load_val(x, y, val);
                x += 1;
            }
            y += 1;
        }
        proof {
            assert forall|x: int, y: int|
                0 <= x < MNIST_SIDE && 0 <= y < MNIST_SIDE implies self.loaded()[y * (
            MNIST_SIDE as int) + x] == img_vec@[#[trigger] pixel_index(img_i as int, x, y)] by {
                assert(0 <= y * (MNIST_SIDE as int) + x < MNIST_AREA);
            }
        }
        Ok(())
    }

    /// One learning step per training image, in ascending image order, for
    /// `train_epochs` whole passes; exactly `train_epochs * train count`
    /// adjustment calls, none skipped and none batched.  Then one pass
    /// building the activation-sum profile, and one scoring pass over the
    /// test images.  Returns the aggregate metrics of the scoring pass.
    fn take_metric(
        &mut self,
        train_img_vec: Vec<u64>,
        train_lbl_vec: Vec<u8>,
        train_epochs: usize,
        test_img_vec: Vec<u64>,
        test_lbl_vec: Vec<u8>,
    ) -> (r: Result<MetricReport, MetricError>)
        requires
            old(self).loaded().len() == MNIST_AREA,
            old(self).neuron_count() <= MAX_NEURONS,
            pixels_ok(train_img_vec@),
            pixels_ok(test_img_vec@),
            train_lbl_vec@.len() <= MAX_TRAIN_IMAGES,
        ensures
            final(self).neuron_count() == old(self).neuron_count(),
            final(self).loaded().len() == MNIST_AREA,
            r is Ok <==> take_metric_error(
                train_img_vec@,
                train_lbl_vec@,
                train_epochs as int,
                test_img_vec@,
                test_lbl_vec@,
            ) is None,
            r matches Err(e) ==> Some(e) == take_metric_error(
                train_img_vec@,
                train_lbl_vec@,
                train_epochs as int,
                test_img_vec@,
                test_lbl_vec@,
            ),
            r matches Ok(rep) ==> rep.wf() && rep.total == test_lbl_vec@.len(),
            r is Ok ==> final(self).adjustments() == old(self).adjustments() + (
            train_epochs as int) * (train_lbl_vec@.len() as int),
            r matches Ok(rep) ==> exists|
                p: Seq<Seq<u64>>,
                t: Seq<u64>,
                emss_train: Seq<Seq<u64>>,
                emss_test: Seq<Seq<u64>>,
            |
                {
                    &&& profile_wf(p, t, old(self).neuron_count())
                    &&& emss_wf(emss_train, train_lbl_vec@.len() as int, old(self).neuron_count())
                    &&& p == profile_after(
                        ProfileVariant::ActivationSum,
                        emss_train,
                        train_lbl_vec@,
                        old(self).neuron_count(),
                        train_lbl_vec@.len() as int,
                    )
                    &&& (forall|c: int|
                        0 <= c < NUM_CLASSES && #[trigger] class_absent(train_lbl_vec@, c) ==> t[c]
                            == 0)
                    &&& emss_wf(emss_test, test_lbl_vec@.len() as int, old(self).neuron_count())
                    &&& report_counts(rep, p, t, emss_test, test_lbl_vec@)
                },
    {
        match self.train_network(&train_img_vec, train_lbl_vec.len(), train_epochs) {
            Ok(()) => {},
            Err(e) => {
                return Err(e);
            },
        }
        let built = match self.build_profile(
            &train_img_vec,
            &train_lbl_vec,
            ProfileVariant::ActivationSum,
        ) {
            Ok(built) => built,
            Err(e) => {
                return Err(e);
            },
        };
        let (neuron_profile, class_totals) = built;
        proof {
            assert forall|n: int|
                0 <= n < neuron_profile@.len() implies (#[trigger] neuron_profile@[n])@.len()
                == NUM_CLASSES by {
                assert(profile_view(&neuron_profile)[n] == neuron_profile@[n]@);
            }
            assert forall|n: int, c: int|
                0 <= n < neuron_profile@.len() && 0 <= c < NUM_CLASSES implies #[trigger] neuron_profile@[n]@[c]
                <= PROFILE_CELL_MAX by {
                assert(profile_view(&neuron_profile)[n] == neuron_profile@[n]@);
            }
        }
        match self.score_images(&neuron_profile, &class_totals, &test_img_vec, &test_lbl_vec) {
            Ok(rep) => {
                proof {
                    let emss_b = choose|emss: Seq<Seq<u64>>|
                        emss_wf(emss, train_lbl_vec@.len() as int, old(self).neuron_count())
                            && profile_view(&neuron_profile) == profile_after(
                            ProfileVariant::ActivationSum,
                            emss,
                            train_lbl_vec@,
                            old(self).neuron_count(),
                            train_lbl_vec@.len() as int,
                        );
                    let emss_s = choose|emss: Seq<Seq<u64>>|
                        emss_wf(emss, test_lbl_vec@.len() as int, old(self).neuron_count())
                            && report_counts(
                            rep,
                            profile_view(&neuron_profile),
                            class_totals@,
                            emss,
                            test_lbl_vec@,
                        );
                    assert(emss_wf(
                        emss_b,
                        train_lbl_vec@.len() as int,
                        old(self).neuron_count(),
                    ));
                    assert(emss_wf(emss_s, test_lbl_vec@.len() as int, old(self).neuron_count()));
                    assert(profile_wf(
                        profile_view(&neuron_profile),
                        class_totals@,
                        old(self).neuron_count(),
                    ));
                }
                Ok(rep)
            },
            Err(e) => Err(e),
        }
    }

    /// All neuron activations on the currently loaded image, in neuron order.
    fn read_ems(&self) -> (ems: Vec<u64>)
        ensures
            ems@.len() == self.neuron_count(),
            ems_ok(ems@),
            forall|i: int| 0 <= i < ems@.len() ==> #[trigger] ems@[i] == self.em_of(i),
    {
        let n = self.num_neurons();
        let mut ems: Vec<u64> = Vec::new();
        let mut i: usize = 0;
        while i < n
            invariant
                i <= n,
                n as nat == self.neuron_count(),
                ems@.len() == i,
                ems_ok(ems@),
                forall|j: int| 0 <= j < ems@.len() ==> #[trigger] ems@[j] == self.em_of(j),
            decreases n - i,
        {
            ems.push(self.neuron_em(i));
            i += 1;
        }
        ems
    }

    /// Phase one of an evaluation: `epochs` whole passes over the training
    /// images in ascending index order, loading each image and performing one
    /// adjustment step on it.
    fn train_network(&mut self, imgs: &Vec<u64>, count: usize, epochs: usize) -> (r: Result<
        (),
        MetricError,
    >)
        requires
            old(self).loaded().len() == MNIST_AREA,
            pixels_ok(imgs@),
        ensures
            final(self).neuron_count() == old(self).neuron_count(),
            final(self).loaded().len() == MNIST_AREA,
            r is Ok <==> (epochs == 0 || imgs_ok(imgs@, count as int)),
            r is Ok ==> final(self).adjustments() == old(self).adjustments() + epochs * count,
            r matches Err(e) ==> e == MetricError::IndexError,
    {
        let mut e: usize = 0;
        while e < epochs
            invariant
                e <= epochs,
                self.loaded().len() == MNIST_AREA,
                self.neuron_count() == old(self).neuron_count(),
                self.adjustments() == old(self).adjustments() + e as int * count as int,
                pixels_ok(imgs@),
                e > 0 ==> imgs_ok(imgs@, count as int),
            decreases epochs - e,
        {
            let mut i: usize = 0;
            while i < count
                invariant
                    i <= count,
                    e < epochs,
                    self.loaded().len() == MNIST_AREA,
                    self.neuron_count() == old(self).neuron_count(),
                    self.adjustments() == old(self).adjustments() + e as int * count as int
                        + i as int,
                    pixels_ok(imgs@),
                    i as int * (MNIST_AREA as int) <= imgs@.len(),
                decreases count - i,
            {
                match self.load_img(imgs, i) {
                    Ok(()) => {},
                    Err(err) => {
                        proof {
                            assert((i as int + 1) * (MNIST_AREA as int) > imgs@.len());
                            assert((count as int) * (MNIST_AREA as int) >= (i as int + 1) * (
                            MNIST_AREA as int));
                            assert(!imgs_ok(imgs@, count as int));
                        }
                        return Err(err);
                    },
                }
                self.perform_adjustment();
                i += 1;
            }
            proof {
                assert(e as int * count as int + count as int == (e as int + 1) * count as int)
                    by (nonlinear_arith);
            }
            e += 1;
        }
        proof {
            assert(epochs as int * count as int == epochs * count) by (nonlinear_arith);
        }
        Ok(())
    }

    /// Phase two of an evaluation: one pass over the training images in
    /// ascending index order, accumulating each image's neuron activations
    /// into the per-neuron profile and the per-class totals under the chosen
    /// variant.  The result is the fold of the per-image accumulation step
    /// over the activation readings; no learning step happens here.  The
    /// totals always hold the column sums of the profile, so a class absent
    /// from training keeps a zero total and a zero column and is never
    /// selected at scoring time.
    fn build_profile(
        &mut self,
        imgs: &Vec<u64>,
        lbls: &Vec<u8>,
        variant: ProfileVariant,
    ) -> (r: Result<(Vec<Vec<u64>>, Vec<u64>), MetricError>)
        requires
            old(self).loaded().len() == MNIST_AREA,
            old(self).neuron_count() <= MAX_NEURONS,
            pixels_ok(imgs@),
            lbls@.len() <= MAX_TRAIN_IMAGES,
            variant is WinnerTakeAll ==> old(self).neuron_count() > 0,
        ensures
            final(self).neuron_count() == old(self).neuron_count(),
            final(self).adjustments() == old(self).adjustments(),
            final(self).loaded().len() == MNIST_AREA,
            r is Ok <==> phase_error(imgs@, lbls@) is None,
            r matches Err(e) ==> Some(e) == phase_error(imgs@, lbls@),
            r matches Ok(built) ==> ({
                let p = profile_view(&built.0);
                let t = built.1@;
                &&& profile_wf(p, t, old(self).neuron_count())
                &&& (variant is WinnerTakeAll ==> forall|c: int|
                    0 <= c < NUM_CLASSES ==> #[trigger] t[c] as int == label_count(lbls@, c))
                &&& (forall|c: int|
                    0 <= c < NUM_CLASSES && #[trigger] class_absent(lbls@, c) ==> t[c] == 0 && (
                    forall|n: int| 0 <= n < p.len() ==> #[trigger] p[n][c] == 0))
                &&& exists|emss: Seq<Seq<u64>>|
                    emss_wf(emss, lbls@.len() as int, old(self).neuron_count()) && p
                        == profile_after(
                        variant,
                        emss,
                        lbls@,
                        old(self).neuron_count(),
                        lbls@.len() as int,
                    )
            }),
    {
        let n_neurons = self.num_neurons();
        let mut neuron_profile: Vec<Vec<u64>> = Vec::new();
        let mut n: usize = 0;
        while n < n_neurons
            invariant
                n <= n_neurons,
                neuron_profile@.len() == n,
                forall|m: int| 0 <= m < n ==> (#[trigger] neuron_profile@[m])@.len() == NUM_CLASSES,
                forall|m: int, c: int|
                    0 <= m < n && 0 <= c < NUM_CLASSES ==> #[trigger] neuron_profile@[m]@[c] == 0,
            decreases n_neurons - n,
        {
            let mut row: Vec<u64> = Vec::new();
            let mut c: usize = 0;
            while c < NUM_CLASSES
                invariant
                    c <= NUM_CLASSES,
                    row@.len() == c,
                    forall|j: int| 0 <= j < c ==> #[trigger] row@[j] == 0,
                decreases NUM_CLASSES - c,
            {
                row.push(0);
                c += 1;
            }
            neuron_profile.push(row);
            n += 1;
        }
        let mut class_totals: Vec<u64> = Vec::new();
        let mut c: usize = 0;
        while c < NUM_CLASSES
            invariant
                c <= NUM_CLASSES,
                class_totals@.len() == c,
                forall|j: int| 0 <= j < c ==> #[trigger] class_totals@[j] == 0,
            decreases NUM_CLASSES - c,
        {
            class_totals.push(0);
            c += 1;
        }
        let ghost mut emss: Seq<Seq<u64>> = Seq::empty();
        proof {
            assert forall|c2: int| 0 <= c2 < NUM_CLASSES implies class_totals@[c2] as int == col_sum(
                profile_view(&neuron_profile),
                c2,
            ) by {
                lemma_col_sum_prefix_bound(
                    profile_view(&neuron_profile),
                    c2,
                    profile_view(&neuron_profile).len() as int,
                    0,
                );
            }
            assert forall|n2: int|
                0 <= n2 < n_neurons as int implies profile_view(&neuron_profile)[n2]
                =~= zero_profile_rows(n_neurons as nat)[n2] by {}
            assert(profile_view(&neuron_profile) =~= zero_profile_rows(n_neurons as nat));
        }
        let count = lbls.len();
        let mut i: usize = 0;
        while i < count
            invariant
                i <= count,
                count == lbls@.len(),
                lbls@.len() <= MAX_TRAIN_IMAGES,
                self.loaded().len() == MNIST_AREA,
                self.neuron_count() == old(self).neuron_count(),
                self.adjustments() == old(self).adjustments(),
                n_neurons as nat == old(self).neuron_count(),
                n_neurons <= MAX_NEURONS,
                variant is WinnerTakeAll ==> n_neurons > 0,
                emss_wf(emss, i as int, n_neurons as nat),
                profile_view(&neuron_profile) == profile_after(
                    variant,
                    emss,
                    lbls@,
                    n_neurons as nat,
                    i as int,
                ),
                variant is WinnerTakeAll ==> forall|c2: int|
                    0 <= c2 < NUM_CLASSES ==> #[trigger] class_totals@[c2] as int
                        == label_count_prefix(lbls@, c2, i as int),
                forall|c2: int|
                    0 <= c2 < NUM_CLASSES && #[trigger] class_absent_prefix(lbls@, c2, i as int)
                        ==> class_totals@[c2] == 0 && (forall|n2: int|
                        0 <= n2 < n_neurons as int ==> #[trigger] neuron_profile@[n2]@[c2] == 0),
                pixels_ok(imgs@),
                neuron_profile@.len() == n_neurons,
                forall|m: int| 0 <= m < n_neurons ==> (#[trigger] neuron_profile@[m])@.len()
                    == NUM_CLASSES,
                forall|m: int, c2: int|
                    0 <= m < n_neurons && 0 <= c2 < NUM_CLASSES ==> #[trigger] neuron_profile@[m]@[c2]
                        <= i as int * (EM_MAX as int),
                class_totals@.len() == NUM_CLASSES,
                forall|c2: int|
                    0 <= c2 < NUM_CLASSES ==> #[trigger] class_totals@[c2] as int == col_sum(
                        profile_view(&neuron_profile),
                        c2,
                    ),
                forall|c2: int|
                    0 <= c2 < NUM_CLASSES ==> #[trigger] class_totals@[c2] as int <= i as int * ((
                    MAX_NEURONS as int) * (EM_MAX as int)),
                i as int * (MNIST_AREA as int) <= imgs@.len(),
                forall|j: int| 0 <= j < i ==> #[trigger] lbls@[j] < (NUM_CLASSES as u8),
            decreases count - i,
        {
            match self.load_img(imgs, i) {
                Ok(()) => {},
                Err(err) => {
                    proof {
                        lemma_fundamental_div_mod(imgs@.len() as int, MNIST_AREA as int);
                        lemma_mod_division_less_than_divisor(imgs@.len() as int, MNIST_AREA as int);
                    }
                    return Err(err);
                },
            }
            let lbl = lbls[i];
            if lbl as usize >= NUM_CLASSES {
                proof {
                    lemma_fundamental_div_mod(imgs@.len() as int, MNIST_AREA as int);
                    lemma_mod_division_less_than_divisor(imgs@.len() as int, MNIST_AREA as int);
                }
                return Err(MetricError::InvalidLabel);
            }
            let ems = self.read_ems();
            let ghost pv_before = profile_view(&neuron_profile);
            let ghost emss_prev = emss;
            proof {
                emss = emss.push(ems@);
                assert(emss[i as int] == ems@);
                lemma_profile_after_prefix(
                    variant,
                    emss,
                    emss_prev,
                    lbls@,
                    n_neurons as nat,
                    i as int,
                );
            }
            let ghost totals_before = class_totals@;
            match variant {
                ProfileVariant::ActivationSum => {
                    accumulate_profile_a(&mut neuron_profile, &mut class_totals, &ems, lbl);
                    proof {
                        lemma_sum_prefix_bound(ems@, ems@.len() as int, EM_MAX as int);
                        assert forall|c2: int|
                            0 <= c2 < NUM_CLASSES implies #[trigger] class_totals@[c2] as int
                            == col_sum(profile_view(&neuron_profile), c2) by {
                            lemma_col_sum_prefix_pointwise(
                                pv_before,
                                profile_view(&neuron_profile),
                                ems@,
                                lbl as int,
                                c2,
                                pv_before.len() as int,
                            );
                        }
                        assert(profile_view(&neuron_profile) =~= profile_step(
                            variant,
                            pv_before,
                            ems@,
                            lbl as int,
                        ));
                        assert forall|c2: int|
                            0 <= c2 < NUM_CLASSES && #[trigger] class_absent_prefix(
                            lbls@,
                            c2,
                            i as int + 1,
                        ) implies class_totals@[c2] == 0 && (forall|n2: int|
                            0 <= n2 < n_neurons as int ==> #[trigger] neuron_profile@[n2]@[c2]
                                == 0) by {
                            assert(class_absent_prefix(lbls@, c2, i as int));
                            assert(lbls@[i as int] as int != c2);
                            assert(class_totals@[c2] == totals_before[c2]);
                            assert forall|n2: int|
                                0 <= n2 < n_neurons as int implies #[trigger] neuron_profile@[n2]@[c2]
                                == 0 by {
                                assert(neuron_profile@[n2]@ == pv_before[n2].update(
                                    lbl as int,
                                    (pv_before[n2][lbl as int] + ems@[n2]) as u64,
                                ));
                                assert(pv_before[n2][c2] == 0);
                            }
                        }
                    }
                },
                ProfileVariant::WinnerTakeAll => {
                    accumulate_profile_b(&mut neuron_profile, &mut class_totals, &ems, lbl);
                    proof {
                        let win = crate::profile::winner_of(ems@);
                        assert(0 <= win < ems@.len()) by {
                            crate::profile::lemma_winner_in_range(ems@);
                        }
                        assert forall|c2: int|
                            0 <= c2 < NUM_CLASSES implies #[trigger] class_totals@[c2] as int
                            == col_sum(profile_view(&neuron_profile), c2) by {
                            lemma_col_sum_prefix_update(
                                pv_before,
                                win,
                                lbl as int,
                                1,
                                c2,
                                pv_before.len() as int,
                            );
                            assert(profile_view(&neuron_profile) =~= pv_before.update(
                                win,
                                pv_before[win].update(
                                    lbl as int,
                                    (pv_before[win][lbl as int] + 1) as u64,
                                ),
                            ));
                        }
                        assert(profile_view(&neuron_profile) =~= profile_step(
                            variant,
                            pv_before,
                            ems@,
                            lbl as int,
                        ));
                        assert forall|c2: int|
                            0 <= c2 < NUM_CLASSES implies #[trigger] class_totals@[c2] as int
                            == label_count_prefix(lbls@, c2, i as int + 1) by {
                            assert(totals_before[c2] as int == label_count_prefix(
                                lbls@,
                                c2,
                                i as int,
                            ));
                        }
                        assert forall|c2: int|
                            0 <= c2 < NUM_CLASSES && #[trigger] class_absent_prefix(
                            lbls@,
                            c2,
                            i as int + 1,
                        ) implies class_totals@[c2] == 0 && (forall|n2: int|
                            0 <= n2 < n_neurons as int ==> #[trigger] neuron_profile@[n2]@[c2]
                                == 0) by {
                            assert(class_absent_prefix(lbls@, c2, i as int));
                            assert(lbls@[i as int] as int != c2);
                            assert(class_totals@[c2] == totals_before[c2]);
                            assert forall|n2: int|
                                0 <= n2 < n_neurons as int implies #[trigger] neuron_profile@[n2]@[c2]
                                == 0 by {
                                if n2 == win {
                                    assert(neuron_profile@[n2]@ == pv_before[win].update(
                                        lbl as int,
                                        (pv_before[win][lbl as int] + 1) as u64,
                                    ));
                                } else {
                                    assert(neuron_profile@[n2]@ == pv_before[n2]);
                                }
                                assert(pv_before[n2][c2] == 0);
                            }
                        }
                    }
                },
            }
            i += 1;
        }
        proof {
            if count > 0 {
                assert(count as int * (MNIST_AREA as int) <= imgs@.len());
            }
            assert(imgs_ok(imgs@, lbls@.len() as int));
            assert(labels_ok(lbls@));
            assert forall|n2: int, c2: int|
                0 <= n2 < n_neurons as int && 0 <= c2 < NUM_CLASSES implies #[trigger] profile_view(
                &neuron_profile,
            )[n2][c2] <= PROFILE_CELL_MAX by {
                assert(neuron_profile@[n2]@[c2] <= count as int * (EM_MAX as int));
            }
            assert(profile_wf(
                profile_view(&neuron_profile),
                class_totals@,
                old(self).neuron_count(),
            ));
            assert(exists|emss2: Seq<Seq<u64>>|
                emss_wf(emss2, lbls@.len() as int, old(self).neuron_count()) && profile_view(
                    &neuron_profile,
                ) == profile_after(
                    variant,
                    emss2,
                    lbls@,
                    old(self).neuron_count(),
                    lbls@.len() as int,
                )) by {
                assert(emss_wf(emss, lbls@.len() as int, old(self).neuron_count()));
                assert(profile_view(&neuron_profile) == profile_after(
                    variant,
                    emss,
                    lbls@,
                    old(self).neuron_count(),
                    lbls@.len() as int,
                ));
            }
        }
        Ok((neuron_profile, class_totals))
    }

    /// Phase three of an evaluation: one pass over the test images in
    /// ascending index order, scoring each against the profile and counting
    /// correct decisions, per-class misses and the confusion matrix, each
    /// counter exactly the number of per-image decisions of its kind; no
    /// learning step happens here.
    fn score_images(
        &mut self,
        neuron_profile: &Vec<Vec<u64>>,
        class_totals: &Vec<u64>,
        imgs: &Vec<u64>,
        lbls: &Vec<u8>,
    ) -> (r: Result<MetricReport, MetricError>)
        requires
            old(self).loaded().len() == MNIST_AREA,
            pixels_ok(imgs@),
            neuron_profile@.len() == old(self).neuron_count(),
            neuron_profile@.len() <= MAX_NEURONS,
            forall|n: int| 0 <= n < neuron_profile@.len() ==> (#[trigger] neuron_profile@[n])@.len()
                == NUM_CLASSES,
            forall|n: int, c: int|
                0 <= n < neuron_profile@.len() && 0 <= c < NUM_CLASSES ==> #[trigger] neuron_profile@[n]@[c]
                    <= PROFILE_CELL_MAX,
            class_totals@.len() == NUM_CLASSES,
            forall|c: int| 0 <= c < NUM_CLASSES ==> #[trigger] class_totals@[c] <= CLASS_TOTAL_MAX,
        ensures
            final(self).neuron_count() == old(self).neuron_count(),
            final(self).adjustments() == old(self).adjustments(),
            final(self).loaded().len() == MNIST_AREA,
            r is Ok <==> phase_error(imgs@, lbls@) is None,
            r matches Err(e) ==> Some(e) == phase_error(imgs@, lbls@),
            r matches Ok(rep) ==> rep.wf() && rep.total == lbls@.len(),
            r matches Ok(rep) ==> exists|emss: Seq<Seq<u64>>|
                emss_wf(emss, lbls@.len() as int, old(self).neuron_count()) && report_counts(
                    rep,
                    profile_view(neuron_profile),
                    class_totals@,
                    emss,
                    lbls@,
                ),
    {
        let ghost pv = profile_view(neuron_profile);
        let ghost mut emss: Seq<Seq<u64>> = Seq::empty();
        let mut correct: usize = 0;
        let mut misses: Vec<usize> = Vec::new();
        let mut c: usize = 0;
        while c < NUM_CLASSES
            invariant
                c <= NUM_CLASSES,
                misses@.len() == c,
                forall|j: int| 0 <= j < c ==> #[trigger] misses@[j] == 0,
            decreases NUM_CLASSES - c,
        {
            misses.push(0);
            c += 1;
        }
        let mut confusion: Vec<Vec<usize>> = Vec::new();
        let mut t: usize = 0;
        while t < NUM_CLASSES
            invariant
                t <= NUM_CLASSES,
                confusion@.len() == t,
                forall|r2: int| 0 <= r2 < t ==> (#[trigger] confusion@[r2])@.len() == NUM_CLASSES,
                forall|r2: int, c2: int|
                    0 <= r2 < t && 0 <= c2 < NUM_CLASSES ==> #[trigger] confusion@[r2]@[c2] == 0,
            decreases NUM_CLASSES - t,
        {
            let mut row: Vec<usize> = Vec::new();
            let mut c2: usize = 0;
            while c2 < NUM_CLASSES
                invariant
                    c2 <= NUM_CLASSES,
                    row@.len() == c2,
                    forall|j: int| 0 <= j < c2 ==> #[trigger] row@[j] == 0,
                decreases NUM_CLASSES - c2,
            {
                row.push(0);
                c2 += 1;
            }
            confusion.push(row);
            t += 1;
        }
        proof {
            assert forall|r2: int| 0 <= r2 < NUM_CLASSES implies #[trigger] misses@[r2] as int
                == seq_sum_usize(rows_view(confusion@)[r2]) by {
                lemma_zero_row_sum(rows_view(confusion@)[r2], NUM_CLASSES as int);
            }
            lemma_zero_matrix_total(rows_view(confusion@), NUM_CLASSES as int);
        }
        let count = lbls.len();
        let mut i: usize = 0;
        while i < count
            invariant
                i <= count,
                count == lbls@.len(),
                self.loaded().len() == MNIST_AREA,
                self.neuron_count() == old(self).neuron_count(),
                self.adjustments() == old(self).adjustments(),
                pv == profile_view(neuron_profile),
                emss_wf(emss, i as int, old(self).neuron_count()),
                correct as int == correct_count(pv, class_totals@, emss, lbls@, i as int),
                forall|cls: int|
                    0 <= cls < NUM_CLASSES ==> (#[trigger] misses@[cls]) as int == miss_count(
                        pv,
                        class_totals@,
                        emss,
                        lbls@,
                        cls,
                        i as int,
                    ),
                forall|tr: int, dec: int|
                    0 <= tr < NUM_CLASSES && 0 <= dec < NUM_CLASSES ==> (
                    #[trigger] confusion@[tr]@[dec]) as int == confusion_count(
                        pv,
                        class_totals@,
                        emss,
                        lbls@,
                        tr,
                        dec,
                        i as int,
                    ),
                pixels_ok(imgs@),
                neuron_profile@.len() == old(self).neuron_count(),
                neuron_profile@.len() <= MAX_NEURONS,
                forall|n: int| 0 <= n < neuron_profile@.len() ==> (#[trigger] neuron_profile@[n])@.len()
                    == NUM_CLASSES,
                forall|n: int, c2: int|
                    0 <= n < neuron_profile@.len() && 0 <= c2 < NUM_CLASSES ==> #[trigger] neuron_profile@[n]@[c2]
                        <= PROFILE_CELL_MAX,
                class_totals@.len() == NUM_CLASSES,
                forall|c2: int| 0 <= c2 < NUM_CLASSES ==> #[trigger] class_totals@[c2]
                    <= CLASS_TOTAL_MAX,
                misses@.len() == NUM_CLASSES,
                confusion@.len() == NUM_CLASSES,
                forall|r2: int| 0 <= r2 < NUM_CLASSES ==> (#[trigger] confusion@[r2])@.len()
                    == NUM_CLASSES,
                forall|r2: int| 0 <= r2 < NUM_CLASSES ==> #[trigger] misses@[r2] as int
                    == seq_sum_usize(rows_view(confusion@)[r2]),
                correct + matrix_total(rows_view(confusion@)) == i,
                correct <= i,
                forall|r2: int| 0 <= r2 < NUM_CLASSES ==> #[trigger] misses@[r2] <= i,
                forall|r2: int, c2: int|
                    0 <= r2 < NUM_CLASSES && 0 <= c2 < NUM_CLASSES ==> #[trigger] confusion@[r2]@[c2]
                        <= i,
                i as int * (MNIST_AREA as int) <= imgs@.len(),
                forall|j: int| 0 <= j < i ==> #[trigger] lbls@[j] < (NUM_CLASSES as u8),
            decreases count - i,
        {
            match self.load_img(imgs, i) {
                Ok(()) => {},
                Err(err) => {
                    proof {
                        lemma_fundamental_div_mod(imgs@.len() as int, MNIST_AREA as int);
                        lemma_mod_division_less_than_divisor(imgs@.len() as int, MNIST_AREA as int);
                    }
                    return Err(err);
                },
            }
            let lbl = lbls[i];
            if lbl as usize >= NUM_CLASSES {
                proof {
                    lemma_fundamental_div_mod(imgs@.len() as int, MNIST_AREA as int);
                    lemma_mod_division_less_than_divisor(imgs@.len() as int, MNIST_AREA as int);
                }
                return Err(MetricError::InvalidLabel);
            }
            let lblu = lbl as usize;
            let ems = self.read_ems();
            let weighted = weighted_scores(neuron_profile, &ems);
            let decided = classify(&weighted, class_totals);
            let ghost emss_prev = emss;
            proof {
                emss = emss.push(ems@);
                lemma_counts_prefix(pv, class_totals@, emss, emss_prev, lbls@, i as int);
                assert forall|c2: int|
                    0 <= c2 < NUM_CLASSES implies weighted@[c2] == weighted_of(pv, ems@)[c2] by {}
                assert(weighted@ =~= weighted_of(pv, ems@));
                assert(decided as int == image_decision(pv, class_totals@, ems@));
                assert(emss[i as int] == ems@);
            }
            let ghost rows_before = rows_view(confusion@);
            if decided == lblu {
                correct += 1;
                proof {
                    assert forall|cls: int|
                        0 <= cls < NUM_CLASSES implies (#[trigger] misses@[cls]) as int
                        == miss_count(pv, class_totals@, emss, lbls@, cls, i as int + 1) by {
                        assert(miss_count(pv, class_totals@, emss, lbls@, cls, i as int)
                            == miss_count(pv, class_totals@, emss_prev, lbls@, cls, i as int));
                        assert(misses@[cls] as int == miss_count(
                            pv,
                            class_totals@,
                            emss_prev,
                            lbls@,
                            cls,
                            i as int,
                        ));
                        assert(emss[i as int] == ems@);
                        assert(image_decision(pv, class_totals@, emss[i as int]) == decided as int);
                        assert(miss_count(pv, class_totals@, emss, lbls@, cls, i as int + 1)
                            == miss_count(pv, class_totals@, emss, lbls@, cls, i as int)
                            + if lbls@[i as int] as int == cls && image_decision(
                            pv,
                            class_totals@,
                            emss[i as int],
                        ) != cls {
                            1int
                        } else {
                            0int
                        });
                    }
                    assert forall|tr: int, dec: int|
                        0 <= tr < NUM_CLASSES && 0 <= dec < NUM_CLASSES implies (
                    #[trigger] confusion@[tr]@[dec]) as int == confusion_count(
                        pv,
                        class_totals@,
                        emss,
                        lbls@,
                        tr,
                        dec,
                        i as int + 1,
                    ) by {
                        assert(confusion_count(pv, class_totals@, emss, lbls@, tr, dec, i as int)
                            == confusion_count(
                            pv,
                            class_totals@,
                            emss_prev,
                            lbls@,
                            tr,
                            dec,
                            i as int,
                        ));
                        assert(confusion@[tr]@[dec] as int == confusion_count(
                            pv,
                            class_totals@,
                            emss_prev,
                            lbls@,
                            tr,
                            dec,
                            i as int,
                        ));
                        assert(image_decision(pv, class_totals@, emss[i as int]) == decided as int);
                    }
                }
            } else {
                let ghost row_before = confusion@[lblu as int]@;
                let ghost misses_before = misses@;
                let ghost rows_before_vec = confusion@;
                misses[lblu] = misses[lblu] + 1;
                confusion[lblu][decided] = confusion[lblu][decided] + 1;
                proof {
                    lemma_sum_prefix_usize_update(
                        row_before,
                        NUM_CLASSES as int,
                        decided as int,
                        (row_before[decided as int] + 1) as usize,
                    );
                    lemma_matrix_total_prefix_update(
                        rows_before,
                        lbl as int,
                        confusion@[lblu as int]@,
                        NUM_CLASSES as int,
                    );
                    assert(rows_view(confusion@) =~= rows_before.update(
                        lbl as int,
                        confusion@[lblu as int]@,
                    ));
                    assert(confusion@[lblu as int]@ =~= row_before.update(
                        decided as int,
                        (row_before[decided as int] + 1) as usize,
                    ));
                    assert forall|cls: int|
                        0 <= cls < NUM_CLASSES implies (#[trigger] misses@[cls]) as int
                        == miss_count(pv, class_totals@, emss, lbls@, cls, i as int + 1) by {
                        assert(miss_count(pv, class_totals@, emss, lbls@, cls, i as int)
                            == miss_count(pv, class_totals@, emss_prev, lbls@, cls, i as int));
                        assert(misses_before[cls] as int == miss_count(
                            pv,
                            class_totals@,
                            emss_prev,
                            lbls@,
                            cls,
                            i as int,
                        ));
                        assert(image_decision(pv, class_totals@, emss[i as int]) == decided as int);
                        if cls != lbl as int {
                            assert(misses@[cls] == misses_before[cls]);
                        } else {
                            assert(misses@[cls] as int == misses_before[cls] + 1);
                        }
                    }
                    assert forall|tr: int, dec: int|
                        0 <= tr < NUM_CLASSES && 0 <= dec < NUM_CLASSES implies (
                    #[trigger] confusion@[tr]@[dec]) as int == confusion_count(
                        pv,
                        class_totals@,
                        emss,
                        lbls@,
                        tr,
                        dec,
                        i as int + 1,
                    ) by {
                        assert(confusion_count(pv, class_totals@, emss, lbls@, tr, dec, i as int)
                            == confusion_count(
                            pv,
                            class_totals@,
                            emss_prev,
                            lbls@,
                            tr,
                            dec,
                            i as int,
                        ));
                        assert(rows_before_vec[tr]@[dec] as int == confusion_count(
                            pv,
                            class_totals@,
                            emss_prev,
                            lbls@,
                            tr,
                            dec,
                            i as int,
                        ));
                        assert(image_decision(pv, class_totals@, emss[i as int]) == decided as int);
                        if tr != lbl as int {
                            assert(confusion@[tr] == rows_before_vec[tr]);
                        } else {
                            assert(confusion@[tr]@ == row_before.update(
                                decided as int,
                                (row_before[decided as int] + 1) as usize,
                            ));
                            assert(row_before == rows_before_vec[tr]@);
                            if dec != decided as int {
                                assert(confusion@[tr]@[dec] == row_before[dec]);
                            } else {
                                assert(confusion@[tr]@[dec] as int == row_before[dec] + 1);
                            }
                        }
                    }
                }
            }
            i += 1;
        }
        proof {
            assert(imgs_ok(imgs@, lbls@.len() as int));
            assert(labels_ok(lbls@));
        }
        let rep = MetricReport { correct, total: count, misses, confusion };
        proof {
            assert(report_counts(rep, profile_view(neuron_profile), class_totals@, emss, lbls@));
            assert(exists|emss2: Seq<Seq<u64>>|
                emss_wf(emss2, lbls@.len() as int, old(self).neuron_count()) && report_counts(
                    rep,
                    profile_view(neuron_profile),
                    class_totals@,
                    emss2,
                    lbls@,
                )) by {
                assert(emss_wf(emss, lbls@.len() as int, old(self).neuron_count()));
            }
        }
        Ok(rep)
    }

}

/// An all-zero counter row sums to zero.
proof fn lemma_zero_row_sum(s: Seq<usize>, k: int)
    requires
        0 <= k <= s.len(),
        forall|j: int| 0 <= j < s.len() ==> #[trigger] s[j] == 0,
    ensures
        sum_prefix_usize(s, k) == 0,
    decreases k,
{
    if k > 0 {
        lemma_zero_row_sum(s, k - 1);
    }
}

/// An all-zero counter matrix totals to zero.
proof fn lemma_zero_matrix_total(m: Seq<Seq<usize>>, k: int)
    requires
        0 <= k <= m.len(),
        forall|r: int, j: int|
            0 <= r < m.len() && 0 <= j < m[r].len() ==> #[trigger] m[r][j] == 0,
    ensures
        matrix_total_prefix(m, k) == 0,
    decreases k,
{
    if k > 0 {
        lemma_zero_matrix_total(m, k - 1);
        lemma_zero_row_sum(m[k - 1], m[k - 1].len() as int);
    }
}

/// Replacing one row of a counter matrix shifts the matrix total by the
/// difference of the row sums.
proof fn lemma_matrix_total_prefix_update(m: Seq<Seq<usize>>, r: int, row: Seq<usize>, k: int)
    requires
        0 <= r < k <= m.len(),
    ensures
        matrix_total_prefix(m.update(r, row), k) == matrix_total_prefix(m, k) - seq_sum_usize(
            m[r],
        ) + seq_sum_usize(row),
    decreases k,
{
    let mu = m.update(r, row);
    if r == k - 1 {
        lemma_matrix_total_prefix_same(m, mu, k - 1);
    } else {
        lemma_matrix_total_prefix_update(m, r, row, k - 1);
    }
}

/// Two counter matrices that agree on a prefix of rows have the same
/// matrix-total prefix.
proof fn lemma_matrix_total_prefix_same(m: Seq<Seq<usize>>, m2: Seq<Seq<usize>>, k: int)
    requires
        0 <= k <= m.len(),
        k <= m2.len(),
        forall|r: int| 0 <= r < k ==> m[r] == m2[r],
    ensures
        matrix_total_prefix(m, k) == matrix_total_prefix(m2, k),
    decreases k,
{
    if k > 0 {
        lemma_matrix_total_prefix_same(m, m2, k - 1);
    }
}

} // verus!
