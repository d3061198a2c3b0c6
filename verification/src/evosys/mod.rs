//! The evolutionary system: genomes, their decoding into programs, the
//! mutation operators, the population and the experiment runner.
pub mod ea;
pub mod gp_maps;
pub mod helpers;
pub mod mutators;
pub mod pop;
pub mod prog;
pub(crate) mod rng;

use crate::dataset::params::{NFEAT, NSAMP_TRAIN};
use gp_maps::{MAX_REGS, N_OPS};
use vstd::prelude::*;

pub use ea::{EARunner, PConfig};
pub use pop::{BasicPop, Population};
pub use prog::{defs_valid, fresh_genome};

verus! {

/// Length of a fixed-length genome.
pub const FLG_SIZE: usize = 10;

/// Number of predictions a phenotype holds: one per training sample.
pub const FLP_SIZE: usize = NSAMP_TRAIN;

/// A gene: an operation code, a feature reference or a register reference.
pub type GeneType = i32;

/// Smallest gene.
pub const GENE_MIN: GeneType = 0;

/// One past the largest gene: the operations, then one code per feature,
/// then one code per register.
pub const GENE_MAX: GeneType = N_OPS + NFEAT as i32 + MAX_REGS as i32;

/// The genome type the system evolves.
pub type Genotype = VLGeno;

/// The phenotype type the system evaluates.
pub type Phenotype = FLPheno;

/// A fitness, held as the bit pattern of an IEEE-754 single precision
/// number; `gp_maps` orders these bit patterns as the numbers they encode.
pub type FitType = u32;

/// The program type the population holds.
pub type Program = KProg;

/// The defaults that random genomes are made with.
pub type ProgDefaults = KProgDefaults;

/// Bounds on the shape of random genomes.
#[derive(Copy, Clone, Debug)]
pub struct KProgDefaults {
    /// Least number of arguments of an instruction.
    pub min_il: usize,
    /// One past the largest number of arguments of an instruction.
    pub max_il: usize,
    /// Least number of instructions.
    pub min_ins: usize,
    /// One past the largest number of instructions.
    pub max_ins: usize,
    /// Number of registers the first argument may refer to.
    pub eff_regs: i32,
}

/// What a population is built from: one experiment configuration and the
/// genome defaults.
#[derive(Debug)]
pub struct KPopConfig {
    pub pop_defs: PConfig,
    pub prog_defs: ProgDefaults,
}

/// A variable-length genome.
pub struct VLGeno {
    pub raw_seq: Vec<GeneType>,
}

/// A fixed-length genome.
pub struct FLGeno {
    pub raw_seq: [GeneType; FLG_SIZE],
}

/// A genome of either length discipline.
pub enum Genome {
    VL(VLGeno),
    FL(FLGeno),
}

/// A phenotype: the program's prediction on each training sample, and the
/// program's complexity (its genome's length).
pub struct FLPheno {
    pub preds: [bool; FLP_SIZE],
    pub complexity: usize,
}

/// A program: genome, phenotype and fitness.
pub struct KProg {
    pub geno: Genotype,
    pub pheno: Phenotype,
    pub fit: FitType,
}

impl View for VLGeno {
    type V = Seq<GeneType>;

    open spec fn view(&self) -> Seq<GeneType> {
        self.raw_seq@
    }
}

impl FLPheno {
    /// A phenotype that predicts `false` everywhere, of complexity zero.
    pub fn new_blank() -> (r: FLPheno)
        ensures
            forall|i: int| 0 <= i < FLP_SIZE ==> !#[trigger] r.preds@[i],
            r.complexity == 0,
    {
        FLPheno { preds: [false; FLP_SIZE], complexity: 0 }
    }
}

/// Genomes that can be read, copied, edited in place and drawn at random.
pub trait Mutatable: Sized {
    /// The genes of the genome.
    spec fn genes(&self) -> Seq<GeneType>;

    /// The genes, read only.
    fn show_geno(&self) -> (r: &[GeneType])
        ensures
            r@ == self.genes(),
    ;

    /// The genes, for editing in place.
    fn show_mutable_geno(&mut self) -> (r: &mut [GeneType])
        ensures
            r@ == old(self).genes(),
            final(self).genes() == final(r)@,
    ;

    /// A copy with the same genes.
    fn copy(&self) -> (r: Self)
        ensures
            r.genes() == self.genes(),
    ;

    /// The number of genes.
    fn len(&self) -> (r: usize)
        ensures
            r == self.genes().len(),
    ;

    /// A random genome shaped by `defs`.
    fn new(defs: &ProgDefaults) -> (r: Self)
        requires
            defs_valid(*defs),
        ensures
            fresh_genome(r.genes(), *defs),
    ;
}

} // verus!
