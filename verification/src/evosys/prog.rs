//! Random variable-length genomes.
use super::gp_maps::{genes_valid, MAX_REGS, N_OPS};
use super::rng::{rand_range_i32, rand_range_usize};
use super::{GeneType, KProgDefaults, Mutatable, ProgDefaults, VLGeno, GENE_MAX};
use crate::dataset::params::NFEAT;
use vstd::prelude::*;

verus! {

/// The genes of a sequence of instructions, one after the other.
pub open spec fn flatten(instrs: Seq<Seq<GeneType>>) -> Seq<GeneType>
    decreases instrs.len(),
{
    if instrs.len() == 0 {
        Seq::empty()
    } else {
        flatten(instrs.drop_last()) + instrs.last()
    }
}

/// The argument genes of a sequence of instructions (every gene but each
/// instruction's first), one after the other.
pub open spec fn arg_genes(instrs: Seq<Seq<GeneType>>) -> Seq<GeneType>
    decreases instrs.len(),
{
    if instrs.len() == 0 {
        Seq::empty()
    } else {
        arg_genes(instrs.drop_last()) + instrs.last().drop_first()
    }
}

/// Code of the first register reference: register references follow the
/// operation codes and the feature references.
pub open spec fn first_reg_code() -> int {
    N_OPS + NFEAT as int
}

/// The number of registers an argument may refer to after `args`, when
/// `start` were available before: an argument that refers to the last
/// available register makes one more available.
pub open spec fn regs_after(args: Seq<GeneType>, start: int) -> int
    decreases args.len(),
{
    if args.len() == 0 {
        start
    } else {
        let m = regs_after(args.drop_last(), start);
        if args.last() == first_reg_code() + m - 1 {
            m + 1
        } else {
            m
        }
    }
}

/// Each argument refers to a feature or to one of the registers available
/// when it is drawn, `start` being available before the first.
pub open spec fn args_valid(args: Seq<GeneType>, start: int) -> bool
    decreases args.len(),
{
    if args.len() == 0 {
        true
    } else {
        &&& args_valid(args.drop_last(), start)
        &&& N_OPS <= args.last()
        &&& args.last() < first_reg_code() + regs_after(args.drop_last(), start)
    }
}

/// An instruction: an operation code followed by between `min_il` and
/// `max_il - 1` arguments.
pub open spec fn instr_shape_ok(instr: Seq<GeneType>, defs: ProgDefaults) -> bool {
    &&& instr.len() >= 1
    &&& 0 <= instr[0] < N_OPS
    &&& defs.min_il <= instr.len() - 1 < defs.max_il
}

/// `genes` is laid out as `instrs`, a sequence of well-shaped instructions
/// whose number lies in `[min_ins, max_ins)` and whose arguments are valid.
pub open spec fn genome_layout(
    genes: Seq<GeneType>,
    instrs: Seq<Seq<GeneType>>,
    defs: ProgDefaults,
) -> bool {
    &&& flatten(instrs) == genes
    &&& defs.min_ins <= instrs.len() < defs.max_ins
    &&& forall|i: int| 0 <= i < instrs.len() ==> instr_shape_ok(#[trigger] instrs[i], defs)
    &&& args_valid(arg_genes(instrs), defs.eff_regs as int)
}

/// The genomes that a random draw with `defs` can produce.
pub open spec fn fresh_genome(genes: Seq<GeneType>, defs: ProgDefaults) -> bool {
    exists|instrs: Seq<Seq<GeneType>>| genome_layout(genes, instrs, defs)
}

/// Some instruction drawn with `defs` can have an argument: an instruction
/// may come and may have one.
pub open spec fn args_drawable(defs: ProgDefaults) -> bool {
    defs.max_il > 1 && defs.max_ins > 1
}

/// Defaults that random genomes can be drawn with: the ranges are not
/// empty and, where arguments can be drawn at all, the first argument has
/// some code to refer to and the register count stays within `i32`.
pub open spec fn defs_valid(defs: ProgDefaults) -> bool {
    &&& defs.min_il < defs.max_il
    &&& defs.min_ins < defs.max_ins
    &&& args_drawable(defs) ==> {
        &&& first_reg_code() + defs.eff_regs > N_OPS
        &&& first_reg_code() + defs.eff_regs + (defs.max_ins - 1) * (defs.max_il - 1) <= i32::MAX
    }
}

impl KProgDefaults {
    /// The defaults the experiments run with: one to four arguments per
    /// instruction, one to nine instructions and five registers for the
    /// first argument. Genomes can be drawn with them.
    pub fn basic() -> (r: KProgDefaults)
        ensures
            r == (KProgDefaults { min_il: 1, max_il: 5, min_ins: 1, max_ins: 10, eff_regs: 5 }),
            defs_valid(r),
    {
        KProgDefaults { min_il: 1, max_il: 5, min_ins: 1, max_ins: 10, eff_regs: 5 }
    }

    /// Whether random genomes can be drawn with these defaults.
    pub fn can_draw(&self) -> (r: bool)
        ensures
            r == defs_valid(*self),
    {
        if self.min_il >= self.max_il || self.min_ins >= self.max_ins {
            return false;
        }
        if self.max_il == 1 || self.max_ins == 1 {
            return true;
        }
        let base: i64 = N_OPS as i64 + NFEAT as i64 + self.eff_regs as i64;
        if base <= N_OPS as i64 {
            return false;
        }
        match (self.max_ins - 1).checked_mul(self.max_il - 1) {
            None => {
                assert((self.max_ins - 1) * (self.max_il - 1) > i32::MAX);
                false
            },
            Some(p) => {
                if p > i32::MAX as usize {
                    false
                } else {
                    base + (p as i64) <= i32::MAX as i64
                }
            },
        }
    }
}

proof fn lemma_regs_after_bound(args: Seq<GeneType>, start: int)
    ensures
        start <= regs_after(args, start) <= start + args.len(),
    decreases args.len(),
{
    if args.len() > 0 {
        lemma_regs_after_bound(args.drop_last(), start);
    }
}

/// Defaults whose genomes never refer past the last register: the
/// registers available at first, plus one per argument at most, stay
/// within `MAX_REGS`.
pub open spec fn defs_fit_registers(defs: ProgDefaults) -> bool {
    defs.eff_regs + (defs.max_ins - 1) * (defs.max_il - 1) <= MAX_REGS
}

proof fn lemma_args_bound(args: Seq<GeneType>, start: int)
    requires
        args_valid(args, start),
    ensures
        forall|i: int|
            0 <= i < args.len() ==> N_OPS <= #[trigger] args[i] < first_reg_code() + start + i,
    decreases args.len(),
{
    if args.len() > 0 {
        let prev = args.drop_last();
        lemma_args_bound(prev, start);
        lemma_regs_after_bound(prev, start);
        assert forall|i: int| 0 <= i < args.len() implies N_OPS <= #[trigger] args[i]
            < first_reg_code() + start + i by {
            if i < prev.len() {
                assert(args[i] == prev[i]);
            }
        }
    }
}

proof fn lemma_arg_genes_len(instrs: Seq<Seq<GeneType>>, defs: ProgDefaults)
    requires
        forall|i: int| 0 <= i < instrs.len() ==> instr_shape_ok(#[trigger] instrs[i], defs),
        defs.max_il >= 1,
    ensures
        arg_genes(instrs).len() <= instrs.len() * (defs.max_il - 1),
    decreases instrs.len(),
{
    if instrs.len() > 0 {
        let prev = instrs.drop_last();
        assert forall|i: int| 0 <= i < prev.len() implies instr_shape_ok(#[trigger] prev[i], defs) by {
            assert(prev[i] == instrs[i]);
        }
        lemma_arg_genes_len(prev, defs);
        assert(instr_shape_ok(instrs[instrs.len() - 1], defs));
        assert(arg_genes(instrs).len() <= instrs.len() * (defs.max_il - 1)) by (nonlinear_arith)
            requires
                arg_genes(instrs).len() == arg_genes(prev).len() + instrs.last().len() - 1,
                arg_genes(prev).len() <= prev.len() * (defs.max_il - 1),
                instrs.last().len() - 1 < defs.max_il,
                prev.len() + 1 == instrs.len(),
        ;
    }
}

proof fn lemma_flatten_valid(instrs: Seq<Seq<GeneType>>, defs: ProgDefaults)
    requires
        forall|i: int| 0 <= i < instrs.len() ==> instr_shape_ok(#[trigger] instrs[i], defs),
        forall|i: int|
            0 <= i < arg_genes(instrs).len() ==> N_OPS <= #[trigger] arg_genes(instrs)[i]
                < GENE_MAX,
    ensures
        genes_valid(flatten(instrs)),
    decreases instrs.len(),
{
    if instrs.len() > 0 {
        let prev = instrs.drop_last();
        let last = instrs.last();
        assert forall|i: int| 0 <= i < prev.len() implies instr_shape_ok(#[trigger] prev[i], defs) by {
            assert(prev[i] == instrs[i]);
        }
        assert forall|i: int| 0 <= i < arg_genes(prev).len() implies N_OPS <= #[trigger] arg_genes(
            prev,
        )[i] < GENE_MAX by {
            assert(arg_genes(prev)[i] == arg_genes(instrs)[i]);
        }
        lemma_flatten_valid(prev, defs);
        assert(instr_shape_ok(instrs[instrs.len() - 1], defs));
        let f = flatten(instrs);
        assert forall|i: int| 0 <= i < f.len() implies 0 <= #[trigger] f[i] < GENE_MAX by {
            if i < flatten(prev).len() {
                assert(f[i] == flatten(prev)[i]);
            } else {
                let j = i - flatten(prev).len();
                assert(f[i] == last[j]);
                if j > 0 {
                    assert(last[j] == arg_genes(instrs)[arg_genes(prev).len() + j - 1]);
                }
            }
        }
    }
}

/// Law of random genomes: with defaults whose registers fit, every gene of
/// a random genome is a code that can be decoded.
pub proof fn lemma_fresh_genes_valid(genes: Seq<GeneType>, defs: ProgDefaults)
    requires
        defs_valid(defs),
        defs_fit_registers(defs),
        fresh_genome(genes, defs),
    ensures
        genes_valid(genes),
{
    let instrs = choose|instrs: Seq<Seq<GeneType>>| genome_layout(genes, instrs, defs);
    let args = arg_genes(instrs);
    lemma_args_bound(args, defs.eff_regs as int);
    lemma_arg_genes_len(instrs, defs);
    if !args_drawable(defs) {
        assert(instrs.len() * (defs.max_il - 1) == 0) by (nonlinear_arith)
            requires
                defs.max_il == 1 || instrs.len() == 0,
        ;
    }
    assert(instrs.len() * (defs.max_il - 1) <= (defs.max_ins - 1) * (defs.max_il - 1))
        by (nonlinear_arith)
        requires
            instrs.len() <= defs.max_ins - 1,
            defs.max_il >= 1,
    ;
    assert forall|i: int| 0 <= i < args.len() implies N_OPS <= #[trigger] args[i] < GENE_MAX by {
        assert(args[i] < first_reg_code() + defs.eff_regs + i);
    }
    lemma_flatten_valid(instrs, defs);
}

impl Mutatable for VLGeno {
    open spec fn genes(&self) -> Seq<GeneType> {
        self.raw_seq@
    }

    fn show_geno(&self) -> (r: &[GeneType]) {
        self.raw_seq.as_slice()
    }

    fn show_mutable_geno(&mut self) -> (r: &mut [GeneType]) {
        self.raw_seq.as_mut_slice()
    }

    fn copy(&self) -> (r: VLGeno) {
        VLGeno { raw_seq: self.raw_seq.clone() }
    }

    fn len(&self) -> (r: usize) {
        self.raw_seq.len()
    }

    fn new(defs: &ProgDefaults) -> (r: VLGeno) {
        let n_instrs = rand_range_usize(defs.min_ins, defs.max_ins);
        let mut new_geno: Vec<GeneType> = Vec::new();
        let mut max_act_reg: i32 = defs.eff_regs;
        let ghost mut instrs: Seq<Seq<GeneType>> = Seq::empty();
        let ghost start = defs.eff_regs as int;
        let mut i: usize = 0;
        while i < n_instrs
            invariant
                defs_valid(*defs),
                start == defs.eff_regs as int,
                defs.min_ins <= n_instrs < defs.max_ins,
                i <= n_instrs,
                instrs.len() == i,
                new_geno@ == flatten(instrs),
                forall|k: int| 0 <= k < instrs.len() ==> instr_shape_ok(#[trigger] instrs[k], *defs),
                args_valid(arg_genes(instrs), start),
                max_act_reg == regs_after(arg_genes(instrs), start),
                arg_genes(instrs).len() <= i * (defs.max_il - 1),
            decreases n_instrs - i,
        {
            let op = rand_range_i32(0, N_OPS);
            new_geno.push(op);
            let ghost mut cur: Seq<GeneType> = seq![op];
            let ghost before = arg_genes(instrs);
            let n_args = rand_range_usize(defs.min_il, defs.max_il);
            let mut j: usize = 0;
            while j < n_args
                invariant
                    defs_valid(*defs),
                    start == defs.eff_regs as int,
                    i < n_instrs < defs.max_ins,
                    defs.min_il <= n_args < defs.max_il,
                    j <= n_args,
                    cur.len() == j + 1,
                    cur[0] == op,
                    0 <= op < N_OPS,
                    before == arg_genes(instrs),
                    before.len() <= i * (defs.max_il - 1),
                    new_geno@ == flatten(instrs) + cur,
                    args_valid(before + cur.drop_first(), start),
                    max_act_reg == regs_after(before + cur.drop_first(), start),
                decreases n_args - j,
            {
                let ghost args = before + cur.drop_first();
                proof {
                    lemma_regs_after_bound(args, start);
                    assert(args.len() <= i * (defs.max_il - 1) + j);
                    assert((i + 1) * (defs.max_il - 1) <= (defs.max_ins - 1) * (defs.max_il - 1))
                        by (nonlinear_arith)
                        requires
                            i + 1 <= defs.max_ins - 1,
                            defs.max_il >= 1,
                    ;
                    assert(i * (defs.max_il - 1) + j <= (i + 1) * (defs.max_il - 1))
                        by (nonlinear_arith)
                        requires
                            j < n_args,
                            n_args < defs.max_il,
                    ;
                }
                let max_val: i32 = N_OPS + (NFEAT as i32) + max_act_reg;
                let arg = rand_range_i32(N_OPS, max_val);
                if arg == max_val - 1 {
                    max_act_reg = max_act_reg + 1;
                }
                new_geno.push(arg);
                proof {
                    let next = cur.push(arg);
                    assert(next.drop_first() == cur.drop_first().push(arg));
                    assert((before + next.drop_first()).drop_last() == args);
                    cur = next;
                }
                j = j + 1;
            }
            proof {
                let old_instrs = instrs;
                instrs = instrs.push(cur);
                assert(instrs.drop_last() == old_instrs);
                assert(arg_genes(instrs) == before + cur.drop_first());
                assert(flatten(instrs) == flatten(old_instrs) + cur);
                assert(instr_shape_ok(cur, *defs));
                assert(arg_genes(instrs).len() <= (i + 1) * (defs.max_il - 1)) by (nonlinear_arith)
                    requires
                        arg_genes(instrs).len() == before.len() + n_args,
                        before.len() <= i * (defs.max_il - 1),
                        n_args < defs.max_il,
                ;
            }
            i = i + 1;
        }
        assert(genome_layout(new_geno@, instrs, *defs));
        VLGeno { raw_seq: new_geno }
    }
}

} // verus!
