//! Two small reference models implementing the neuron and network
//! capabilities: a single neuron whose activation is the mean pixel value
//! of the loaded image, and a single neuron with a constant activation.
//! Both are deliberately trivial learners — their adjustment step changes
//! nothing — and serve as concrete endpoints for the evaluator.

use vstd::prelude::*;

use crate::EM_MAX;
use crate::MNIST_AREA;
use crate::MNIST_SIDE;
use crate::PIXEL_MAX;
use crate::evaluate::MnistNetwork;
use crate::evaluate::MnistNeuron;

verus! {

/// A neuron holding a copy of the current image whose activation is the
/// mean pixel value, rounded down.
pub struct MeanNeuron {
    pixels: Vec<u64>,
}

/// Sum of the first `k` pixels, each clamped at the pixel range.
pub open spec fn clamped_sum(s: Seq<u64>, k: int) -> int
    decreases k,
{
    if k <= 0 {
        0
    } else {
        clamped_sum(s, k - 1) + if s[k - 1] > PIXEL_MAX {
            PIXEL_MAX as int
        } else {
            s[k - 1] as int
        }
    }
}

impl MeanNeuron {
    /// The pixels of the image currently held by the neuron.
    pub closed spec fn img(&self) -> Seq<u64> {
        self.pixels@
    }

    /// The activation the neuron reports: the mean of its held pixels
    /// (clamped to the pixel range), rounded down and clamped to the
    /// activation range.
    pub closed spec fn em_spec(&self) -> u64 {
        let n = if self.pixels@.len() < MNIST_AREA {
            self.pixels@.len() as int
        } else {
            MNIST_AREA as int
        };
        let mean = clamped_sum(self.pixels@, n) / (MNIST_AREA as int);
        if mean > EM_MAX {
            EM_MAX
        } else {
            mean as u64
        }
    }

    /// A mean neuron over an all-zero image.
    pub fn new() -> (neuron: MeanNeuron)
        ensures
            neuron.img().len() == MNIST_AREA,
            forall|p: int| 0 <= p < MNIST_AREA ==> #[trigger] neuron.img()[p] == 0,
    {
        let mut pixels: Vec<u64> = Vec::new();
        let mut i: usize = 0;
        while i < MNIST_AREA
            invariant
                i <= MNIST_AREA,
                pixels@.len() == i,
                forall|p: int| 0 <= p < i ==> #[trigger] pixels@[p] == 0,
            decreases MNIST_AREA - i,
        {
            pixels.push(0);
            i += 1;
        }
        MeanNeuron { pixels }
    }

    /// Takes one pixel of the image being loaded.
    pub fn set_val(&mut self, x: usize, y: usize, val: u64)
        requires
            x < MNIST_SIDE,
            y < MNIST_SIDE,
            old(self).img().len() == MNIST_AREA,
        ensures
            final(self).img() == old(self).img().update(
                y as int * (MNIST_SIDE as int) + x as int,
                val,
            ),
    {
        let i = y * MNIST_SIDE + x;
        self.pixels[i] = val;
    }
}

impl MnistNeuron for MeanNeuron {
    fn get_name(&self) -> String {
        "mean pixel neuron".to_string()
    }

    fn compute_em(&self) -> (em: u64)
        ensures
            em == self.em_spec(),
    {
        let mut total: u64 = 0;
        let count = if self.pixels.len() < MNIST_AREA {
            self.pixels.len()
        } else {
            MNIST_AREA
        };
        let mut i: usize = 0;
        while i < count
            invariant
                i <= count,
                count <= MNIST_AREA,
                count <= self.pixels@.len(),
                count as int == if self.pixels@.len() < MNIST_AREA {
                    self.pixels@.len() as int
                } else {
                    MNIST_AREA as int
                },
                total as int == clamped_sum(self.pixels@, i as int),
                total <= i as int * (PIXEL_MAX as int),
            decreases count - i,
        {
            let p = self.pixels[i];
            let clamped = if p > PIXEL_MAX {
                PIXEL_MAX
            } else {
                p
            };
            total = total + clamped;
            i += 1;
        }
        let mean = total / (MNIST_AREA as u64);
        if mean > EM_MAX {
            EM_MAX
        } else {
            mean
        }
    }
}

/// A one-neuron network whose neuron reports the mean pixel value of the
/// loaded image; its adjustment step learns nothing.
pub struct MeanNetwork {
    neuron: MeanNeuron,
    steps: Ghost<nat>,
}

impl MeanNetwork {
    /// A mean network over an all-zero image, before any learning step.
    pub fn new() -> (net: MeanNetwork)
        ensures
            net.loaded().len() == MNIST_AREA,
            forall|p: int| 0 <= p < MNIST_AREA ==> #[trigger] net.loaded()[p] == 0,
            net.neuron_count() == 1,
            net.adjustments() == 0,
    {
        MeanNetwork { neuron: MeanNeuron::new(), steps: Ghost(0) }
    }
}

impl MnistNetwork for MeanNetwork {
    closed spec fn loaded(&self) -> Seq<u64> {
        self.neuron.img()
    }

    closed spec fn neuron_count(&self) -> nat {
        1
    }

    closed spec fn adjustments(&self) -> nat {
        self.steps@
    }

    closed spec fn em_of(&self, i: int) -> u64 {
        self.neuron.em_spec()
    }

    fn num_neurons(&self) -> usize {
        1
    }

    fn load_val(&mut self, x: usize, y: usize, val: u64) {
        self.neuron.set_val(x, y, val);
    }

    fn neuron_em(&self, _i: usize) -> u64 {
        self.neuron.compute_em()
    }

    fn perform_adjustment(&mut self) {
        // the mean neuron has no learned parameters: one learning step
        // leaves it as it is
        self.steps = Ghost(self.steps@ + 1);
    }
}

/// A neuron with a constant activation, blind to the loaded image.
pub struct ConstNeuron {
    level: u64,
}

impl ConstNeuron {
    /// The activation the neuron reports: its level, clamped to the
    /// activation range.
    pub closed spec fn level_em(&self) -> u64 {
        if self.level > EM_MAX {
            EM_MAX
        } else {
            self.level
        }
    }

    /// A constant neuron at the given activation level; levels above
    /// `EM_MAX` are clamped when read.
    pub fn new(level: u64) -> (neuron: ConstNeuron)
        ensures
            neuron.level_em() == if level > EM_MAX {
                EM_MAX
            } else {
                level
            },
    {
        ConstNeuron { level }
    }
}

impl MnistNeuron for ConstNeuron {
    fn get_name(&self) -> String {
        "constant neuron".to_string()
    }

    fn compute_em(&self) -> (em: u64)
        ensures
            em == self.level_em(),
    {
        if self.level > EM_MAX {
            EM_MAX
        } else {
            self.level
        }
    }
}

/// A one-neuron network whose neuron is blind to its input: every image
/// produces the same activation, so the profile cannot discriminate among
/// classes.
pub struct ConstNetwork {
    neuron: ConstNeuron,
    pixels: Ghost<Seq<u64>>,
    steps: Ghost<nat>,
}

impl ConstNetwork {
    /// A constant network at the given activation level, before any
    /// learning step.
    pub fn new(level: u64) -> (net: ConstNetwork)
        ensures
            net.loaded().len() == MNIST_AREA,
            forall|p: int| 0 <= p < MNIST_AREA ==> #[trigger] net.loaded()[p] == 0,
            net.neuron_count() == 1,
            net.adjustments() == 0,
            net.em_of(0) == if level > EM_MAX {
                EM_MAX
            } else {
                level
            },
    {
        ConstNetwork {
            neuron: ConstNeuron::new(level),
            pixels: Ghost(Seq::new(MNIST_AREA as nat, |i: int| 0u64)),
            steps: Ghost(0),
        }
    }
}

/// A network of several constant neurons at fixed activation levels,
/// blind to its input; the ordering of the levels fixes the neuron order.
pub struct LevelsNetwork {
    neurons: Vec<ConstNeuron>,
    pixels: Ghost<Seq<u64>>,
    steps: Ghost<nat>,
}

impl LevelsNetwork {
    /// A network of one constant neuron per given level, in order.
    pub fn new(levels: &Vec<u64>) -> (net: LevelsNetwork)
        ensures
            net.loaded().len() == MNIST_AREA,
            forall|p: int| 0 <= p < MNIST_AREA ==> #[trigger] net.loaded()[p] == 0,
            net.neuron_count() == levels@.len(),
            net.adjustments() == 0,
            forall|i: int|
                0 <= i < levels@.len() ==> #[trigger] net.em_of(i) == if levels@[i] > EM_MAX {
                    EM_MAX
                } else {
                    levels@[i]
                },
    {
        let mut neurons: Vec<ConstNeuron> = Vec::new();
        let mut i: usize = 0;
        while i < levels.len()
            invariant
                i <= levels@.len(),
                neurons@.len() == i,
                forall|j: int|
                    0 <= j < i ==> (#[trigger] neurons@[j]).level_em() == if levels@[j] > EM_MAX {
                        EM_MAX
                    } else {
                        levels@[j]
                    },
            decreases levels@.len() - i,
        {
            neurons.push(ConstNeuron::new(levels[i]));
            i += 1;
        }
        LevelsNetwork {
            neurons,
            pixels: Ghost(Seq::new(MNIST_AREA as nat, |i: int| 0u64)),
            steps: Ghost(0),
        }
    }
}

impl MnistNetwork for LevelsNetwork {
    closed spec fn loaded(&self) -> Seq<u64> {
        self.pixels@
    }

    closed spec fn neuron_count(&self) -> nat {
        self.neurons@.len()
    }

    closed spec fn adjustments(&self) -> nat {
        self.steps@
    }

    closed spec fn em_of(&self, i: int) -> u64 {
        if 0 <= i < self.neurons@.len() {
            self.neurons@[i].level_em()
        } else {
            0
        }
    }

    fn num_neurons(&self) -> usize {
        self.neurons.len()
    }

    fn load_val(&mut self, x: usize, y: usize, val: u64) {
        self.pixels = Ghost(
            self.pixels@.update(y as int * (MNIST_SIDE as int) + x as int, val),
        );
    }

    fn neuron_em(&self, i: usize) -> u64 {
        self.neurons[i].compute_em()
    }

    fn perform_adjustment(&mut self) {
        // constant neurons learn nothing
        self.steps = Ghost(self.steps@ + 1);
    }
}

impl MnistNetwork for ConstNetwork {
    closed spec fn loaded(&self) -> Seq<u64> {
        self.pixels@
    }

    closed spec fn neuron_count(&self) -> nat {
        1
    }

    closed spec fn adjustments(&self) -> nat {
        self.steps@
    }

    closed spec fn em_of(&self, i: int) -> u64 {
        self.neuron.level_em()
    }

    fn num_neurons(&self) -> usize {
        1
    }

    fn load_val(&mut self, x: usize, y: usize, val: u64) {
        self.pixels = Ghost(
            self.pixels@.update(y as int * (MNIST_SIDE as int) + x as int, val),
        );
    }

    fn neuron_em(&self, _i: usize) -> u64 {
        self.neuron.compute_em()
    }

    fn perform_adjustment(&mut self) {
        // a constant neuron learns nothing
        self.steps = Ghost(self.steps@ + 1);
    }
}

} // verus!
