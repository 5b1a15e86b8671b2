//! The arrays of a checkpoint: their names, and what is missing.
use vstd::prelude::*;
use vstd::string::*;

use crate::program::{extends, Program};
use crate::shape::{copy_shape, valid};
use crate::tensor::{leaf, Expr, Outcome, PlanError, Source, Tensor};
use crate::text::joined_text;

verus! {

/// An array of a checkpoint.
#[derive(Debug, PartialEq, Eq)]
pub struct Weight {
    pub name: String,
    pub shape: Vec<i32>,
}

/// The arrays of a checkpoint.
#[derive(Debug, PartialEq, Eq)]
pub struct WeightTable {
    pub weights: Vec<Weight>,
}

/// Names and shapes of the arrays of a checkpoint.
pub type Entries = Seq<(Seq<char>, Seq<i32>)>;

/// The place of the first array named `key`.
pub open spec fn find(entries: Entries, key: Seq<char>) -> Option<int>
    decreases entries.len(),
{
    if entries.len() == 0 {
        None
    } else {
        match find(entries.drop_last(), key) {
            Some(i) => Some(i),
            None => if entries.last().0 == key {
                Some(entries.len() - 1)
            } else {
                None
            },
        }
    }
}

/// What [`find`] returns is the least place that holds `key`.
pub proof fn lemma_find(entries: Entries, key: Seq<char>)
    ensures
        match find(entries, key) {
            Some(i) => 0 <= i < entries.len() && entries[i].0 == key && forall|j: int|
                0 <= j < i ==> (#[trigger] entries[j]).0 != key,
            None => forall|j: int| 0 <= j < entries.len() ==> (#[trigger] entries[j]).0 != key,
        },
    decreases entries.len(),
{
    if entries.len() > 0 {
        let front = entries.drop_last();
        lemma_find(front, key);
        assert forall|j: int| 0 <= j < front.len() implies #[trigger] entries[j] == front[j] by {}
    }
}

/// The array named `key`, as a leaf of a plan.
pub open spec fn stored(entries: Entries, key: Seq<char>) -> Option<Tensor> {
    match find(entries, key) {
        Some(i) => Some(leaf(Source::Weight(i as usize), entries[i].1)),
        None => None,
    }
}

/// The array of a name is the one at the least place with that name, with its shape; there is
/// none where no place has the name.
pub proof fn lemma_stored(entries: Entries, key: Seq<char>)
    requires
        entries.len() <= usize::MAX,
    ensures
        match stored(entries, key) {
            Some(t) => match t.expr {
                Expr::Leaf(Source::Weight(i)) => {
                    &&& i < entries.len()
                    &&& entries[i as int].0 == key
                    &&& entries[i as int].1 == t.shape
                    &&& forall|j: int| 0 <= j < i ==> (#[trigger] entries[j]).0 != key
                },
                _ => false,
            },
            None => forall|j: int| 0 <= j < entries.len() ==> (#[trigger] entries[j]).0 != key,
        },
{
    lemma_find(entries, key);
}

/// An array that a model reads: where it comes from, and its shape.
#[derive(Debug, PartialEq, Eq)]
pub struct ArrayRef {
    pub source: Source,
    pub shape: Vec<i32>,
}

impl ArrayRef {
    pub open spec fn wf(self) -> bool {
        valid(self.shape@)
    }

    /// The leaf that stands for the array.
    pub open spec fn tensor(self) -> Tensor {
        leaf(self.source, self.shape@)
    }

    /// The outcome of reading the array.
    pub open spec fn outcome(self) -> Outcome {
        Ok(self.tensor())
    }

    /// Adds the array to a program.
    pub fn read(&self, p: &mut Program) -> (r: usize)
        requires
            self.wf(),
            old(p).wf(),
        ensures
            final(p).wf(),
            extends(old(p)@, final(p)@),
            r < final(p)@.len(),
            final(p)@[r as int] == self.tensor(),
    {
        p.leaf(self.source, &self.shape)
    }
}

/// Why a model cannot be loaded.
#[derive(Debug, PartialEq, Eq)]
pub enum LoadError {
    /// An array of the preprocessing is missing.
    MissingPreprocess(String),
    /// A weight is missing.
    MissingWeight(String),
    /// The bias of a source convolution is missing.
    MissingBias,
    /// An array does not have the shape that the model needs.
    Plan(PlanError),
}

/// A [`LoadError`] in specifications.
#[verifier::ext_equal]
pub enum LoadFault {
    MissingPreprocess(Seq<char>),
    MissingWeight(Seq<char>),
    MissingBias,
    Plan(PlanError),
}

impl View for LoadError {
    type V = LoadFault;

    open spec fn view(&self) -> LoadFault {
        match self {
            LoadError::MissingPreprocess(key) => LoadFault::MissingPreprocess(key@),
            LoadError::MissingWeight(key) => LoadFault::MissingWeight(key@),
            LoadError::MissingBias => LoadFault::MissingBias,
            LoadError::Plan(e) => LoadFault::Plan(*e),
        }
    }
}

impl LoadFault {
    /// The text shown for this error.
    pub open spec fn text(self) -> Seq<char> {
        match self {
            LoadFault::MissingPreprocess(key) => "缺少 "@ + key,
            LoadFault::MissingWeight(key) => "缺少权重 "@ + key,
            LoadFault::MissingBias => "Pupu convolution_noise 缺少 bias"@,
            LoadFault::Plan(e) => e.text(),
        }
    }
}

impl LoadError {
    /// Returns [`LoadFault::text`].
    pub fn message(&self) -> (r: String)
        ensures
            r@ == self@.text(),
    {
        match self {
            LoadError::MissingPreprocess(key) => joined_text("缺少 ", key.as_str()),
            LoadError::MissingWeight(key) => joined_text("缺少权重 ", key.as_str()),
            LoadError::MissingBias => String::from_str("Pupu convolution_noise 缺少 bias"),
            LoadError::Plan(e) => String::from_str(e.message()),
        }
    }
}

/// The first of two possible faults.
pub open spec fn first_fault(a: Option<LoadFault>, b: Option<LoadFault>) -> Option<LoadFault> {
    if a is Some {
        a
    } else {
        b
    }
}

/// The fault of a checkpoint without the weight `key`.
pub open spec fn weight_fault(entries: Entries, key: Seq<char>) -> Option<LoadFault> {
    if stored(entries, key) is Some {
        None
    } else {
        Some(LoadFault::MissingWeight(key))
    }
}

/// The fault of a checkpoint without the preprocessing array `key`.
pub open spec fn preprocess_fault(entries: Entries, key: Seq<char>) -> Option<LoadFault> {
    if stored(entries, key) is Some {
        None
    } else {
        Some(LoadFault::MissingPreprocess(key))
    }
}

impl View for WeightTable {
    type V = Entries;

    open spec fn view(&self) -> Entries {
        Seq::new(
            self.weights@.len(),
            |i: int| (self.weights@[i].name@, self.weights@[i].shape@),
        )
    }
}

impl WeightTable {
    /// Every shape is valid.
    pub open spec fn wf(self) -> bool {
        forall|i: int| 0 <= i < self.weights@.len() ==> valid(#[trigger] self.weights@[i].shape@)
    }

    /// The array named `key`.
    pub fn get(&self, key: &String) -> (r: Option<ArrayRef>)
        requires
            self.wf(),
        ensures
            r is Some <==> stored(self@, key@) is Some,
            r matches Some(a) ==> a.wf() && stored(self@, key@) == Some(a.tensor()),
    {
        proof {
            lemma_find(self@, key@);
        }
        let mut i: usize = 0;
        while i < self.weights.len()
            invariant
                i <= self.weights.len(),
                self.wf(),
                forall|j: int| 0 <= j < i ==> (#[trigger] self@[j]).0 != key@,
                match find(self@, key@) {
                    Some(n) => 0 <= n < self@.len() && self@[n].0 == key@ && forall|j: int|
                        0 <= j < n ==> (#[trigger] self@[j]).0 != key@,
                    None => forall|j: int|
                        0 <= j < self@.len() ==> (#[trigger] self@[j]).0 != key@,
                },
            decreases self.weights.len() - i,
        {
            assert(self@[i as int].0 == self.weights@[i as int].name@);
            if self.weights[i].name == *key {
                assert(find(self@, key@) == Some(i as int));
                return Some(
                    ArrayRef {
                        source: Source::Weight(i),
                        shape: copy_shape(&self.weights[i].shape),
                    },
                );
            }
            i += 1;
        }
        None
    }

    /// The weight named `key`, or the error that names it.
    pub fn weight(&self, key: String) -> (r: Result<ArrayRef, LoadError>)
        requires
            self.wf(),
        ensures
            match r {
                Ok(a) => a.wf() && stored(self@, key@) == Some(a.tensor()) && weight_fault(
                    self@,
                    key@,
                ) is None,
                Err(e) => weight_fault(self@, key@) == Some(e@),
            },
    {
        match self.get(&key) {
            Some(a) => Ok(a),
            None => Err(LoadError::MissingWeight(key)),
        }
    }
}

} // verus!
