//! Development of genomes into programs, and the orders programs are
//! compared by.
//!
//! A genome is read gene by gene. A gene below `N_OPS` is an operation:
//! it becomes an instruction that applies the operation to the arguments
//! gathered since the previous operation and writes the result to the next
//! register in turn (the registers are used round robin). A gene in
//! `[N_OPS, N_OPS + NFEAT)` gathers a feature of the sample, and a gene
//! above gathers a register. The program's output is the register written
//! last, or none when the register count has come round to zero again.
//! The floating point arithmetic of the operations is done by whoever runs
//! the decoded program. Only operations write registers, so a register
//! argument read when its operation runs has the value it had when it was
//! gathered.
use super::{FLPheno, FitType, GeneType, Program, VLGeno, FLP_SIZE, GENE_MAX};
use std::cmp::Ordering;
use crate::dataset::params::NFEAT;
use vstd::prelude::*;

verus! {

/// Number of registers a program computes in.
pub const MAX_REGS: usize = 128;

/// Number of operation codes; genes below this value are operations.
pub const N_OPS: i32 = 6;

/// Where an instruction's argument comes from.
#[derive(Clone, Copy, Debug)]
pub enum Arg {
    /// A feature of the sample, by column.
    Feature(usize),
    /// A register, by index.
    Register(usize),
}

/// One instruction of a decoded program: operation `op` applied to the
/// arguments `args[arg_start..arg_end]`, written to register `target`.
#[derive(Clone, Copy, Debug)]
pub struct Instr {
    pub op: i32,
    pub target: usize,
    pub arg_start: usize,
    pub arg_end: usize,
}

/// A decoded program: its instructions, the arguments they share, and the
/// register that holds the program's output (if any).
pub struct DecodedProg {
    pub instrs: Vec<Instr>,
    pub args: Vec<Arg>,
    pub result: Option<usize>,
}

/// The state of decoding after a prefix of the genes.
pub struct DecodeState {
    pub instrs: Seq<Instr>,
    pub args: Seq<Arg>,
    pub pending: nat,
    pub targ: nat,
}

/// Every gene is a code that can be decoded.
pub open spec fn genes_valid(genes: Seq<GeneType>) -> bool {
    forall|i: int| 0 <= i < genes.len() ==> 0 <= #[trigger] genes[i] < GENE_MAX
}

/// Decoding one more gene.
pub open spec fn decode_step(st: DecodeState, gene: GeneType) -> DecodeState {
    if gene < N_OPS {
        DecodeState {
            instrs: st.instrs.push(
                Instr {
                    op: gene,
                    target: st.targ as usize,
                    arg_start: st.pending as usize,
                    arg_end: st.args.len() as usize,
                },
            ),
            args: st.args,
            pending: st.args.len(),
            targ: ((st.targ + 1) % (MAX_REGS as nat)) as nat,
        }
    } else if gene < N_OPS + NFEAT as int {
        DecodeState {
            args: st.args.push(Arg::Feature((gene - N_OPS) as usize)),
            ..st
        }
    } else {
        DecodeState {
            args: st.args.push(Arg::Register((gene - N_OPS - NFEAT as int) as usize)),
            ..st
        }
    }
}

/// Decoding the genes from the first.
pub open spec fn decode_prefix(genes: Seq<GeneType>) -> DecodeState
    decreases genes.len(),
{
    if genes.len() == 0 {
        DecodeState { instrs: Seq::empty(), args: Seq::empty(), pending: 0, targ: 0 }
    } else {
        decode_step(decode_prefix(genes.drop_last()), genes.last())
    }
}

/// The register holding the output of the program the genes decode into.
pub open spec fn decode_result(genes: Seq<GeneType>) -> Option<usize> {
    let targ = decode_prefix(genes).targ;
    if targ == 0 {
        None
    } else {
        Some((targ - 1) as usize)
    }
}

/// Number of operation genes.
pub open spec fn op_count(genes: Seq<GeneType>) -> nat
    decreases genes.len(),
{
    if genes.len() == 0 {
        0
    } else {
        op_count(genes.drop_last()) + if genes.last() < N_OPS {
            1nat
        } else {
            0nat
        }
    }
}

/// Every argument refers to an existing feature or register, and every
/// instruction's arguments are a range of the shared arguments.
pub open spec fn decoded_well_indexed(instrs: Seq<Instr>, args: Seq<Arg>) -> bool {
    &&& forall|a: int|
        0 <= a < args.len() ==> match #[trigger] args[a] {
            Arg::Feature(f) => f < NFEAT,
            Arg::Register(r) => r < MAX_REGS,
        }
    &&& forall|k: int|
        0 <= k < instrs.len() ==> {
            &&& 0 <= (#[trigger] instrs[k]).op < N_OPS
            &&& instrs[k].target < MAX_REGS
            &&& instrs[k].arg_start <= instrs[k].arg_end <= args.len()
        }
}


/// Law of decoding: a genome decodes into one instruction per operation
/// gene; the k-th instruction writes register `k % MAX_REGS`; the
/// instructions' argument ranges follow one another from the first
/// argument; and the output is the register written last, or none when the
/// number of operations is a multiple of `MAX_REGS`.
pub proof fn lemma_decode_shape(genes: Seq<GeneType>)
    requires
        genes.len() <= usize::MAX,
    ensures
        decode_prefix(genes).instrs.len() == op_count(genes),
        decode_prefix(genes).targ == op_count(genes) % (MAX_REGS as nat),
        decode_prefix(genes).args.len() <= genes.len(),
        forall|k: int|
            0 <= k < decode_prefix(genes).instrs.len() ==> (#[trigger] decode_prefix(
                genes,
            ).instrs[k]).target == k % (MAX_REGS as int),
        decode_prefix(genes).instrs.len() > 0 ==> decode_prefix(genes).instrs[0].arg_start == 0,
        forall|k: int|
            0 <= k < decode_prefix(genes).instrs.len() - 1 ==> (#[trigger] decode_prefix(
                genes,
            ).instrs[k + 1]).arg_start == decode_prefix(genes).instrs[k].arg_end,
        decode_prefix(genes).pending == if decode_prefix(genes).instrs.len() == 0 {
            0
        } else {
            decode_prefix(genes).instrs.last().arg_end as nat
        },
        decode_result(genes) == if op_count(genes) % (MAX_REGS as nat) == 0 {
            None::<usize>
        } else {
            Some(((op_count(genes) - 1) % (MAX_REGS as int)) as usize)
        },
    decreases genes.len(),
{
    if genes.len() > 0 {
        let prev = genes.drop_last();
        lemma_decode_shape(prev);
        let st = decode_prefix(prev);
        let n = op_count(prev);
        if genes.last() < N_OPS {
            assert((n + 1) % (MAX_REGS as nat) == (st.targ + 1) % (MAX_REGS as nat)) by {
                vstd::arithmetic::div_mod::lemma_add_mod_noop(n as int, 1, MAX_REGS as int);
                vstd::arithmetic::div_mod::lemma_add_mod_noop(st.targ as int, 1, MAX_REGS as int);
                vstd::arithmetic::div_mod::lemma_mod_twice(n as int, MAX_REGS as int);
            }
            let st2 = decode_prefix(genes);
            assert(st2.instrs.last().target == (n as int) % (MAX_REGS as int));
        }
        let n2: int = op_count(genes) as int;
        let m: int = MAX_REGS as int;
        if n2 % m != 0 {
            assert((n2 - 1) % m == n2 % m - 1) by {
                vstd::arithmetic::div_mod::lemma_fundamental_div_mod(n2, m);
                vstd::arithmetic::div_mod::lemma_fundamental_div_mod_converse(
                    n2 - 1,
                    m,
                    n2 / m,
                    n2 % m - 1,
                );
            }
        }
    }
}

/// Decoding only appends: every instruction reads a range of the arguments
/// gathered so far, and the pending arguments start within them.
proof fn lemma_decode_ranges(genes: Seq<GeneType>)
    requires
        genes.len() <= usize::MAX,
    ensures
        decode_prefix(genes).args.len() <= genes.len(),
        decode_prefix(genes).pending <= decode_prefix(genes).args.len(),
        forall|k: int|
            0 <= k < decode_prefix(genes).instrs.len() ==> (#[trigger] decode_prefix(
                genes,
            ).instrs[k]).arg_start <= decode_prefix(genes).instrs[k].arg_end
                <= decode_prefix(genes).args.len(),
    decreases genes.len(),
{
    if genes.len() > 0 {
        let prev = decode_prefix(genes.drop_last());
        lemma_decode_ranges(genes.drop_last());
        let st = decode_prefix(genes);
        assert forall|k: int| 0 <= k < st.instrs.len() implies (#[trigger] st.instrs[k]).arg_start
            <= st.instrs[k].arg_end <= st.args.len() by {
            if k < prev.instrs.len() {
                assert(st.instrs[k] == prev.instrs[k]);
            }
        }
    }
}

/// Law of trailing arguments: appending genes none of which is an
/// operation to a genome leaves the decoded instructions, the pending
/// arguments and the output register as they were; the arguments only grow
/// at the end, and every instruction reads only arguments that the genome
/// itself gathered, so the appended arguments are never read. (The genes
/// are those of a genome in memory, so their number fits in `usize`.)
pub proof fn lemma_trailing_args_unused(p: Seq<GeneType>, q: Seq<GeneType>)
    requires
        p.len() + q.len() <= usize::MAX,
        forall|i: int| 0 <= i < q.len() ==> #[trigger] q[i] >= N_OPS,
    ensures
        decode_prefix(p + q).instrs == decode_prefix(p).instrs,
        decode_prefix(p + q).pending == decode_prefix(p).pending,
        decode_prefix(p + q).targ == decode_prefix(p).targ,
        decode_result(p + q) == decode_result(p),
        decode_prefix(p + q).args.len() == decode_prefix(p).args.len() + q.len(),
        decode_prefix(p + q).args.take(decode_prefix(p).args.len() as int) == decode_prefix(
            p,
        ).args,
        forall|k: int|
            0 <= k < decode_prefix(p + q).instrs.len() ==> (#[trigger] decode_prefix(
                p + q,
            ).instrs[k]).arg_end <= decode_prefix(p).args.len(),
    decreases q.len(),
{
    lemma_decode_ranges(p);
    if q.len() == 0 {
        assert(p + q =~= p);
        assert(decode_prefix(p).args.take(decode_prefix(p).args.len() as int) =~= decode_prefix(
            p,
        ).args);
    } else {
        let q2 = q.drop_last();
        assert forall|i: int| 0 <= i < q2.len() implies #[trigger] q2[i] >= N_OPS by {
            assert(q2[i] == q[i]);
        }
        lemma_trailing_args_unused(p, q2);
        assert((p + q).drop_last() =~= p + q2);
        assert((p + q).last() == q[q.len() - 1]);
        let n = decode_prefix(p).args.len() as int;
        assert(decode_prefix(p + q).args.take(n) =~= decode_prefix(p + q2).args.take(n));
    }
}

/// Decoding gives one instruction per operation gene and one argument per
/// other gene.
proof fn lemma_decode_counts(genes: Seq<GeneType>)
    ensures
        decode_prefix(genes).instrs.len() == op_count(genes),
        decode_prefix(genes).args.len() + op_count(genes) == genes.len(),
    decreases genes.len(),
{
    if genes.len() > 0 {
        lemma_decode_counts(genes.drop_last());
    }
}

/// Law of operation genes: the operation gene at position `i`, the k-th
/// operation gene of the genome (k = the operation genes before it),
/// becomes instruction `k`, whose operation is that gene.
pub proof fn lemma_decode_op_genes(genes: Seq<GeneType>)
    ensures
        forall|i: int|
            0 <= i < genes.len() && #[trigger] genes[i] < N_OPS ==> {
                &&& op_count(genes.take(i)) < decode_prefix(genes).instrs.len()
                &&& decode_prefix(genes).instrs[op_count(genes.take(i)) as int].op == genes[i]
            },
    decreases genes.len(),
{
    if genes.len() > 0 {
        let prev = genes.drop_last();
        lemma_decode_op_genes(prev);
        lemma_decode_counts(prev);
        lemma_decode_counts(genes);
        let n = genes.len() - 1;
        let st = decode_prefix(genes);
        let ps = decode_prefix(prev);
        assert(genes.take(n) =~= prev);
        assert(st.instrs.len() >= ps.instrs.len());
        assert(forall|k: int| 0 <= k < ps.instrs.len() ==> st.instrs[k] == ps.instrs[k]);
        assert forall|i: int| 0 <= i < genes.len() && #[trigger] genes[i] < N_OPS implies {
            &&& op_count(genes.take(i)) < st.instrs.len()
            &&& st.instrs[op_count(genes.take(i)) as int].op == genes[i]
        } by {
            if i < n {
                assert(genes.take(i) =~= prev.take(i));
                assert(prev[i] == genes[i]);
            }
        }
    }
}

/// Law of argument genes: any gene at position `i` that is not an
/// operation becomes argument `i - k` (k = the operation genes before it),
/// a feature or a register from which the gene is given back: `N_OPS + f`
/// for feature `f`, `N_OPS + NFEAT + r` for register `r`.
pub proof fn lemma_decode_arg_genes(genes: Seq<GeneType>)
    ensures
        forall|i: int|
            0 <= i < genes.len() && #[trigger] genes[i] >= N_OPS ==> {
                &&& 0 <= i - op_count(genes.take(i)) < decode_prefix(genes).args.len()
                &&& match decode_prefix(genes).args[i - op_count(genes.take(i))] {
                    Arg::Feature(f) => f < NFEAT && genes[i] == N_OPS + f,
                    Arg::Register(r) => genes[i] >= N_OPS + NFEAT && genes[i] == N_OPS
                        + NFEAT + r,
                }
            },
    decreases genes.len(),
{
    if genes.len() > 0 {
        let prev = genes.drop_last();
        lemma_decode_arg_genes(prev);
        lemma_decode_counts(prev);
        lemma_decode_counts(genes);
        let n = genes.len() - 1;
        let st = decode_prefix(genes);
        let ps = decode_prefix(prev);
        assert(genes.take(n) =~= prev);
        assert(st.args.len() >= ps.args.len());
        assert(forall|k: int| 0 <= k < ps.args.len() ==> st.args[k] == ps.args[k]);
        assert forall|i: int| 0 <= i < genes.len() && #[trigger] genes[i] >= N_OPS implies {
            &&& 0 <= i - op_count(genes.take(i)) < st.args.len()
            &&& match st.args[i - op_count(genes.take(i))] {
                Arg::Feature(f) => f < NFEAT && genes[i] == N_OPS + f,
                Arg::Register(r) => genes[i] >= N_OPS + NFEAT && genes[i] == N_OPS + NFEAT + r,
            }
        } by {
            if i < n {
                assert(genes.take(i) =~= prev.take(i));
                assert(prev[i] == genes[i]);
            }
        }
    }
}

/// Decodes the genes of a program into its instructions: the integer part
/// of running a program on a sample.
pub fn decode_program(prog_data: &[GeneType]) -> (r: DecodedProg)
    requires
        genes_valid(prog_data@),
    ensures
        r.instrs@ == decode_prefix(prog_data@).instrs,
        r.args@ == decode_prefix(prog_data@).args,
        r.result == decode_result(prog_data@),
        decoded_well_indexed(r.instrs@, r.args@),
        r.instrs.len() == op_count(prog_data@),
        forall|i: int|
            0 <= i < prog_data.len() && #[trigger] prog_data@[i] < N_OPS ==> r.instrs@[op_count(
                prog_data@.take(i),
            ) as int].op == prog_data@[i],
{
    let mut instrs: Vec<Instr> = Vec::new();
    let mut args: Vec<Arg> = Vec::new();
    let mut pending: usize = 0;
    let mut current_targ: usize = 0;
    let mut i: usize = 0;
    while i < prog_data.len()
        invariant
            genes_valid(prog_data@),
            i <= prog_data.len(),
            instrs@ == decode_prefix(prog_data@.take(i as int)).instrs,
            args@ == decode_prefix(prog_data@.take(i as int)).args,
            pending == decode_prefix(prog_data@.take(i as int)).pending,
            current_targ == decode_prefix(prog_data@.take(i as int)).targ,
            current_targ < MAX_REGS,
            pending <= args.len(),
            args.len() <= i,
            decoded_well_indexed(instrs@, args@),
        decreases prog_data.len() - i,
    {
        let gene = prog_data[i];
        proof {
            assert(prog_data@.take(i + 1).drop_last() == prog_data@.take(i as int));
            assert(prog_data@.take(i + 1).last() == gene);
        }
        if gene < N_OPS {
            instrs.push(Instr { op: gene, target: current_targ, arg_start: pending, arg_end: args.len() });
            pending = args.len();
            current_targ = current_targ + 1;
            if current_targ >= MAX_REGS {
                current_targ = 0;
            }
        } else if gene < N_OPS + (NFEAT as i32) {
            args.push(Arg::Feature((gene - N_OPS) as usize));
        } else {
            args.push(Arg::Register((gene - N_OPS - (NFEAT as i32)) as usize));
        }
        i = i + 1;
    }
    proof {
        assert(prog_data@.take(i as int) == prog_data@);
        lemma_decode_counts(prog_data@);
        lemma_decode_op_genes(prog_data@);
    }
    let result = if current_targ == 0 {
        None
    } else {
        Some(current_targ - 1)
    };
    DecodedProg { instrs, args, result }
}


/// A fitness bit pattern encodes NaN: all exponent bits set and a nonzero
/// fraction.
pub open spec fn fit_is_nan(fit: FitType) -> bool {
    fit % 0x8000_0000 > 0x7f80_0000
}

/// The position of the number that a (non-NaN) fitness bit pattern encodes
/// in the order of numbers: sign and magnitude, both zeros at zero.
pub open spec fn fit_value(fit: FitType) -> int {
    if fit >= 0x8000_0000 {
        -(fit - 0x8000_0000)
    } else {
        fit as int
    }
}

/// `fit_value` of a fitness, computed.
fn fit_order_key(fit: FitType) -> (r: i64)
    ensures
        r == fit_value(fit),
{
    if fit >= 0x8000_0000 {
        -((fit - 0x8000_0000) as i64)
    } else {
        fit as i64
    }
}

/// Whether fitness `a` is greater than fitness `b`, as numbers (false when
/// either is NaN).
pub open spec fn fit_gt(a: FitType, b: FitType) -> bool {
    !fit_is_nan(a) && !fit_is_nan(b) && fit_value(a) > fit_value(b)
}

/// `fit_gt`, computed.
pub fn fit_greater(a: FitType, b: FitType) -> (r: bool)
    ensures
        r == fit_gt(a, b),
{
    if a % 0x8000_0000 > 0x7f80_0000 || b % 0x8000_0000 > 0x7f80_0000 {
        false
    } else {
        fit_order_key(a) > fit_order_key(b)
    }
}

/// The order of programs: by fitness, and between programs of equal
/// fitness by complexity.
pub open spec fn prog_order(fit1: FitType, comp1: usize, fit2: FitType, comp2: usize) -> Ordering {
    if fit_value(fit1) == fit_value(fit2) {
        if comp1 == comp2 {
            Ordering::Equal
        } else if comp1 < comp2 {
            Ordering::Less
        } else {
            Ordering::Greater
        }
    } else if fit_value(fit1) < fit_value(fit2) {
        Ordering::Less
    } else {
        Ordering::Greater
    }
}

/// Compares two programs by fitness, then by complexity. Fitnesses that
/// are NaN cannot be compared, so they are left out.
pub fn basic_cmp_progs(p1: &Program, p2: &Program) -> (r: Ordering)
    requires
        !fit_is_nan(p1.fit),
        !fit_is_nan(p2.fit),
    ensures
        r == prog_order(p1.fit, p1.pheno.complexity, p2.fit, p2.pheno.complexity),
{
    let k1 = fit_order_key(p1.fit);
    let k2 = fit_order_key(p2.fit);
    if k1 == k2 {
        if p1.pheno.complexity == p2.pheno.complexity {
            Ordering::Equal
        } else if p1.pheno.complexity < p2.pheno.complexity {
            Ordering::Less
        } else {
            Ordering::Greater
        }
    } else if k1 < k2 {
        Ordering::Less
    } else {
        Ordering::Greater
    }
}

/// Law of the program order: it is antisymmetric (swapping the programs
/// reverses the outcome) and transitive.
pub proof fn lemma_prog_order_is_order(
    f1: FitType,
    c1: usize,
    f2: FitType,
    c2: usize,
    f3: FitType,
    c3: usize,
)
    ensures
        prog_order(f1, c1, f2, c2) == Ordering::Less <==> prog_order(f2, c2, f1, c1)
            == Ordering::Greater,
        prog_order(f1, c1, f2, c2) == Ordering::Equal <==> prog_order(f2, c2, f1, c1)
            == Ordering::Equal,
        prog_order(f1, c1, f2, c2) == Ordering::Less && prog_order(f2, c2, f3, c3)
            == Ordering::Less ==> prog_order(f1, c1, f3, c3) == Ordering::Less,
        prog_order(f1, c1, f2, c2) == Ordering::Equal && prog_order(f2, c2, f3, c3)
            == Ordering::Equal ==> prog_order(f1, c1, f3, c3) == Ordering::Equal,
{
}

/// Number of positions at which the two sequences agree.
pub open spec fn agree_count(v1: Seq<bool>, v2: Seq<bool>) -> nat
    decreases v1.len(),
{
    if v1.len() == 0 {
        0
    } else {
        agree_count(v1.drop_last(), v2.drop_last()) + if v1.last() == v2[v1.len() - 1] {
            1nat
        } else {
            0nat
        }
    }
}

/// The sequence with every value negated.
pub open spec fn negated(v: Seq<bool>) -> Seq<bool> {
    Seq::new(v.len(), |i: int| !v[i])
}

/// Law of agreement with itself: a sequence agrees with itself at every
/// position, whatever the values there.
pub proof fn lemma_agreement_self(v: Seq<bool>)
    ensures
        agree_count(v, v) == v.len(),
    decreases v.len(),
{
    if v.len() > 0 {
        lemma_agreement_self(v.drop_last());
    }
}

/// Law of complements: at each position a sequence agrees with exactly one
/// of `v2` and its negation, so the two counts add up to the length.
pub proof fn lemma_agreement_complement(v1: Seq<bool>, v2: Seq<bool>)
    requires
        v1.len() == v2.len(),
    ensures
        agree_count(v1, v2) + agree_count(v1, negated(v2)) == v1.len(),
    decreases v1.len(),
{
    if v1.len() > 0 {
        assert(negated(v2).drop_last() =~= negated(v2.drop_last()));
        lemma_agreement_complement(v1.drop_last(), v2.drop_last());
    }
}

/// Law of flipping: negating both values at one position leaves the count
/// unchanged, so agreement depends on equality, not on the values.
pub proof fn lemma_agreement_flip_both(v1: Seq<bool>, v2: Seq<bool>, i: int)
    requires
        v1.len() == v2.len(),
        0 <= i < v1.len(),
    ensures
        agree_count(v1.update(i, !v1[i]), v2.update(i, !v2[i])) == agree_count(v1, v2),
    decreases v1.len(),
{
    let w1 = v1.update(i, !v1[i]);
    let w2 = v2.update(i, !v2[i]);
    if i == v1.len() - 1 {
        assert(w1.drop_last() =~= v1.drop_last());
        assert(w2.drop_last() =~= v2.drop_last());
    } else {
        assert(w1.drop_last() =~= v1.drop_last().update(i, !v1[i]));
        assert(w2.drop_last() =~= v2.drop_last().update(i, !v2[i]));
        lemma_agreement_flip_both(v1.drop_last(), v2.drop_last(), i);
    }
}

/// Counts the positions at which two prediction sequences of one length
/// agree: the numerator of the agreement score.
pub fn agreement_count(v1: &[bool], v2: &[bool]) -> (r: usize)
    requires
        v1.len() == v2.len(),
    ensures
        r == agree_count(v1@, v2@),
        r <= v1.len(),
        v1@ == v2@ ==> r == v1.len(),
{
    let mut agree: usize = 0;
    let mut i: usize = 0;
    while i < v1.len()
        invariant
            v1.len() == v2.len(),
            i <= v1.len(),
            agree == agree_count(v1@.take(i as int), v2@.take(i as int)),
            agree <= i,
        decreases v1.len() - i,
    {
        proof {
            assert(v1@.take(i + 1).drop_last() == v1@.take(i as int));
            assert(v2@.take(i + 1).drop_last() == v2@.take(i as int));
        }
        if v1[i] == v2[i] {
            agree = agree + 1;
        }
        i = i + 1;
    }
    proof {
        assert(v1@.take(i as int) == v1@);
        assert(v2@.take(i as int) == v2@);
        lemma_agreement_self(v1@);
    }
    agree
}

/// Develops a genome into its phenotype: `positives[i]` is whether the
/// program's output on training sample `i` is positive; the remaining
/// predictions are `false`, and the complexity is the genome's length.
pub fn basic_lgp_map(geno: &VLGeno, positives: &[bool]) -> (r: FLPheno)
    requires
        positives.len() <= FLP_SIZE,
    ensures
        forall|i: int| 0 <= i < positives.len() ==> r.preds@[i] == positives@[i],
        forall|i: int| positives.len() <= i < FLP_SIZE ==> !#[trigger] r.preds@[i],
        r.complexity == geno@.len(),
{
    let mut pvec = [false; FLP_SIZE];
    let mut i: usize = 0;
    while i < positives.len()
        invariant
            positives.len() <= FLP_SIZE,
            i <= positives.len(),
            forall|k: int| 0 <= k < i ==> pvec@[k] == positives@[k],
            forall|k: int| i <= k < FLP_SIZE ==> !#[trigger] pvec@[k],
        decreases positives.len() - i,
    {
        pvec[i] = positives[i];
        i = i + 1;
    }
    FLPheno { preds: pvec, complexity: geno.raw_seq.len() }
}

} // verus!
