//! Sizes of the data set that the programs are trained and validated on.
use vstd::prelude::*;

verus! {

/// Number of feature columns of a sample.
pub const NFEAT: usize = 10;

/// Column of the label (`0` or `1`) in a record.
pub const LBL_COL: usize = NFEAT;

/// Number of samples the programs are trained on.
pub const NSAMP_TRAIN: usize = 100;

/// Number of samples held out for cross validation.
pub const NSAMP_CV: usize = 40;

/// Capacity of a data set, in samples.
pub const NSAMP_TOT: usize = 300;

/// Whether samples are shuffled when they are loaded.
pub const SHUFFLE: bool = false;

} // verus!
