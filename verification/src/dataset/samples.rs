//! Labelled samples, kept apart from their features.
use super::params::{NSAMP_CV, NSAMP_TOT, NSAMP_TRAIN};
use vstd::prelude::*;

verus! {

/// A label.
pub type LabelType = bool;

/// The label of a sample, with the sample's index and the index of its
/// record in the source.
#[derive(Copy, Clone, Debug)]
pub struct SampleY {
    pub label: LabelType,
    pub id: usize,
    pub gid: usize,
}

impl SampleY {
    /// A sample labelled `false`, both indices zero.
    pub fn new_blank() -> (r: SampleY)
        ensures
            r == (SampleY { label: false, id: 0, gid: 0 }),
    {
        SampleY { label: false, id: 0, gid: 0 }
    }

    /// Sets the label and both indices.
    pub fn update(&mut self, lbl: LabelType, id: usize, gid: usize)
        ensures
            *final(self) == (SampleY { label: lbl, id, gid }),
    {
        self.id = id;
        self.gid = gid;
        self.label = lbl;
    }
}

/// The labels of every sample.
pub struct DataYFull {
    pub records: [SampleY; NSAMP_TOT],
}

/// The labels of the training samples.
pub struct DataLabelTR {
    pub records: [SampleY; NSAMP_TRAIN],
}

/// The labels of the cross-validation samples.
pub struct DataLabelCV {
    pub records: [SampleY; NSAMP_CV],
}

/// Collections of labels.
pub trait DataY {
    /// The labels held.
    spec fn labels(&self) -> Seq<SampleY>;

    /// The labels, in order.
    fn show_labels(&self) -> (r: &[SampleY])
        ensures
            r@ == self.labels(),
    ;
}

impl DataY for DataYFull {
    open spec fn labels(&self) -> Seq<SampleY> {
        self.records@
    }

    fn show_labels(&self) -> (r: &[SampleY]) {
        vstd::array::array_as_slice(&self.records)
    }
}

impl DataY for DataLabelTR {
    open spec fn labels(&self) -> Seq<SampleY> {
        self.records@
    }

    fn show_labels(&self) -> (r: &[SampleY]) {
        vstd::array::array_as_slice(&self.records)
    }
}

impl DataY for DataLabelCV {
    open spec fn labels(&self) -> Seq<SampleY> {
        self.records@
    }

    fn show_labels(&self) -> (r: &[SampleY]) {
        vstd::array::array_as_slice(&self.records)
    }
}

} // verus!
