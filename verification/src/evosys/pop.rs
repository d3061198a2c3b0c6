//! The population: one program per behavioural niche.
//!
//! A program's niche is read off its predictions on ten fixed training
//! samples, one bit each. A newcomer takes a niche from its occupant when
//! it is better (by fitness, then complexity), and on a tie when a coin
//! says so.
use super::gp_maps::{basic_cmp_progs, fit_greater, fit_gt, fit_is_nan, prog_order};
use super::mutators::{mutant, mutate, mutation_defs_ok};
use super::rng::rand_bool;
use super::{
    defs_valid, fresh_genome, FLPheno, FitType, Genotype, KPopConfig, Mutatable, ProgDefaults,
    Program, VLGeno, FLP_SIZE,
};
use std::cmp::Ordering;
use vstd::prelude::*;

verus! {

/// The training samples whose predictions place a program in a niche.
pub const NICHE_LOCS: [usize; 10] = [1, 7, 14, 16, 29, 35, 44, 47, 52, 59];

/// Number of niches: one per combination of the ten predictions.
pub const N_NICHES: usize = 1024;

/// `2^k`.
pub open spec fn bit_weight(k: int) -> int
    decreases k,
{
    if k <= 0 {
        1
    } else {
        2 * bit_weight(k - 1)
    }
}

/// The niche bits of the first `k` niche samples: bit `i` is set when the
/// prediction on sample `NICHE_LOCS[i]` is `true`.
pub open spec fn niche_upto(preds: [bool; FLP_SIZE], k: int) -> int
    decreases k,
{
    if k <= 0 {
        0
    } else {
        niche_upto(preds, k - 1) + if preds@[NICHE_LOCS@[k - 1] as int] {
            bit_weight(k - 1)
        } else {
            0
        }
    }
}

/// The niche of a phenotype.
pub open spec fn niche(preds: [bool; FLP_SIZE]) -> int {
    niche_upto(preds, 10)
}

/// The niche of a phenotype, computed.
pub fn niche_of(preds: &[bool; FLP_SIZE]) -> (r: usize)
    ensures
        r == niche(*preds),
        r < N_NICHES,
{
    let locs = NICHE_LOCS;
    let mut loc: usize = 0;
    let mut weight: usize = 1;
    let mut i: usize = 0;
    proof {
        reveal_with_fuel(bit_weight, 11);
    }
    while i < 10
        invariant
            locs == NICHE_LOCS,
            i <= 10,
            loc == niche_upto(*preds, i as int),
            weight == bit_weight(i as int),
            0 <= loc < weight,
            weight <= bit_weight(10),
        decreases 10 - i,
    {
        proof {
            reveal_with_fuel(bit_weight, 11);
            assert(bit_weight(10) == 1024);
            assert(bit_weight(i as int) <= 512) by {
                if i < 10 {
                    assert(bit_weight(9) == 512);
                    lemma_bit_weight_monotone(i as int, 9);
                }
            }
        }
        if preds[locs[i]] {
            loc = loc + weight;
        }
        weight = weight * 2;
        i = i + 1;
    }
    proof {
        reveal_with_fuel(bit_weight, 11);
    }
    loc
}

/// Law of niches: every phenotype lies in one of the `N_NICHES` niches.
pub proof fn lemma_niche_bound(preds: [bool; FLP_SIZE])
    ensures
        0 <= niche(preds) < N_NICHES,
{
    lemma_niche_upto_bound(preds, 10);
    reveal_with_fuel(bit_weight, 11);
}

proof fn lemma_niche_upto_bound(preds: [bool; FLP_SIZE], k: int)
    requires
        0 <= k <= 10,
    ensures
        0 <= niche_upto(preds, k) < bit_weight(k),
    decreases k,
{
    if k > 0 {
        lemma_niche_upto_bound(preds, k - 1);
    }
}

proof fn lemma_bit_weight_monotone(a: int, b: int)
    requires
        0 <= a <= b,
    ensures
        bit_weight(a) <= bit_weight(b),
    decreases b - a,
{
    if a < b {
        lemma_bit_weight_monotone(a, b - 1);
        assert(bit_weight(b) == 2 * bit_weight(b - 1));
        lemma_bit_weight_positive(b - 1);
    }
}

proof fn lemma_bit_weight_positive(a: int)
    ensures
        bit_weight(a) >= 1,
    decreases a,
{
    if a > 0 {
        lemma_bit_weight_positive(a - 1);
    }
}

/// The population.
pub struct BasicPop {
    pub progs: Vec<Program>,
    pub prog_defs: ProgDefaults,
    pub select_i: usize,
    pub pop_size: usize,
    pub init_size: usize,
    pub min_fit: FitType,
}

/// None of the programs from one to `dist - 1` places after `from`, going
/// round, has a fitness above `min_fit`.
pub open spec fn none_fit_before(progs: Seq<Program>, min_fit: FitType, from: int, dist: int) -> bool {
    forall|e: int|
        1 <= e < dist ==> !fit_gt(#[trigger] progs[(from + e) % (progs.len() as int)].fit, min_fit)
}

/// `s` is the first index after `from`, going round, whose program's
/// fitness exceeds `min_fit`.
pub open spec fn first_fit_after(progs: Seq<Program>, min_fit: FitType, from: int, s: int) -> bool {
    exists|dist: int|
        1 <= dist <= progs.len() && s == (from + dist) % (progs.len() as int) && fit_gt(
            progs[s].fit,
            min_fit,
        ) && #[trigger] none_fit_before(progs, min_fit, from, dist)
}

/// The programs that `init` adds: a random genome, developed and evaluated
/// by `eval`.
pub open spec fn born<F: Fn(&VLGeno) -> (FLPheno, FitType)>(
    p: Program,
    defs: ProgDefaults,
    eval: F,
) -> bool {
    &&& fresh_genome(p.geno@, defs)
    &&& call_ensures(eval, (&p.geno,), (p.pheno, p.fit))
}

/// Program `a` ranks above program `b`.
pub open spec fn better(a: Program, b: Program) -> bool {
    prog_order(a.fit, a.pheno.complexity, b.fit, b.pheno.complexity) == Ordering::Greater
}

/// Program `a` ranks below program `b`.
pub open spec fn worse(a: Program, b: Program) -> bool {
    prog_order(a.fit, a.pheno.complexity, b.fit, b.pheno.complexity) == Ordering::Less
}

/// Program `a` is not worse than program `b`.
pub open spec fn not_worse(a: Program, b: Program) -> bool {
    prog_order(a.fit, a.pheno.complexity, b.fit, b.pheno.complexity) != Ordering::Less
}

/// Law of the niches: when, offer after offer, a niche's occupant is not
/// worse than the previous occupant nor than the program offered (as
/// `try_add` ensures), the last occupant is not worse than any program
/// that ever held or was offered the niche.
pub proof fn lemma_niche_keeps_best(occupants: Seq<Program>, offers: Seq<Program>)
    requires
        occupants.len() == offers.len() + 1,
        forall|i: int|
            0 <= i < offers.len() ==> not_worse(occupants[i + 1], #[trigger] occupants[i])
                && not_worse(occupants[i + 1], offers[i]),
    ensures
        forall|i: int| 0 <= i < offers.len() ==> not_worse(occupants.last(), #[trigger] offers[i]),
        forall|i: int| 0 <= i < occupants.len() ==> not_worse(occupants.last(), #[trigger] occupants[i]),
    decreases offers.len(),
{
    if offers.len() > 0 {
        let n = offers.len() - 1;
        let occ = occupants.drop_last();
        let off = offers.drop_last();
        assert forall|i: int| 0 <= i < off.len() implies not_worse(occ[i + 1], #[trigger] occ[i])
            && not_worse(occ[i + 1], off[i]) by {
            assert(occ[i] == occupants[i] && occ[i + 1] == occupants[i + 1] && off[i] == offers[i]);
        }
        lemma_niche_keeps_best(occ, off);
        let last = occupants.last();
        assert(not_worse(last, occupants[n]));
        assert forall|i: int| 0 <= i < offers.len() implies not_worse(last, #[trigger] offers[i]) by {
            if i < n {
                assert(not_worse(occ.last(), off[i]));
            }
        }
        assert forall|i: int| 0 <= i < occupants.len() implies not_worse(last, #[trigger] occupants[i]) by {
            if i < n + 1 {
                assert(not_worse(occ.last(), occ[i]));
            }
        }
    }
}

/// Some program offered in `offers` went to niche `j` and is `p`.
pub open spec fn offered_to(offers: Seq<Program>, j: int, p: Program) -> bool {
    exists|t: int|
        0 <= t < offers.len() && #[trigger] offers[t] == p && niche(offers[t].pheno.preds) == j
}

/// What filling a population can come to: `pushed`, `pop_size` random
/// programs, are appended to `old`; then `offers`, `init_size - pop_size`
/// random programs (none when `init_size <= pop_size`), are offered to
/// their niches. Each slot ends with its appended-phase program or one of
/// the programs offered to it, never worse than the former, and never worse
/// than any program offered to it.
pub open spec fn init_outcome<F: Fn(&VLGeno) -> (FLPheno, FitType)>(
    old: Seq<Program>,
    pushed: Seq<Program>,
    offers: Seq<Program>,
    fin: Seq<Program>,
    defs: ProgDefaults,
    eval: F,
    pop_size: int,
    init_size: int,
) -> bool {
    let mid = old + pushed;
    &&& pushed.len() == pop_size
    &&& offers.len() == if init_size > pop_size {
        init_size - pop_size
    } else {
        0
    }
    &&& forall|i: int| 0 <= i < pushed.len() ==> born(#[trigger] pushed[i], defs, eval)
    &&& forall|t: int| 0 <= t < offers.len() ==> born(#[trigger] offers[t], defs, eval)
    &&& fin.len() == mid.len()
    &&& forall|j: int| 0 <= j < fin.len() ==> not_worse(#[trigger] fin[j], mid[j])
    &&& forall|j: int|
        0 <= j < fin.len() ==> #[trigger] fin[j] == mid[j] || offered_to(offers, j, fin[j])
    &&& forall|t: int|
        0 <= t < offers.len() ==> niche((#[trigger] offers[t]).pheno.preds) < fin.len()
            && not_worse(fin[niche(offers[t].pheno.preds)], offers[t])
}

/// No program of the population has a NaN fitness.
pub open spec fn fits_comparable(progs: Seq<Program>) -> bool {
    forall|i: int| 0 <= i < progs.len() ==> !fit_is_nan(#[trigger] progs[i].fit)
}

/// A population of programs that mutants are drawn from and offered to.
pub trait Population: Sized {
    /// The programs held.
    spec fn pop_progs(&self) -> Seq<Program>;

    /// The genome defaults.
    spec fn pop_defs(&self) -> ProgDefaults;

    /// A configuration a population can be made from.
    spec fn config_ok(args: KPopConfig) -> bool;

    /// The population can be filled.
    spec fn can_init(&self) -> bool;

    /// A phenotype and fitness that filling the population can take.
    spec fn can_take(&self, pheno: FLPheno, fit: FitType) -> bool;

    /// `prog` can be offered.
    spec fn can_add(&self, prog: Program) -> bool;

    /// A program can be selected to mutate.
    spec fn can_select(&self) -> bool;

    /// A population without programs.
    fn new(args: KPopConfig) -> (r: Self)
        requires
            Self::config_ok(args),
        ensures
            r.pop_progs().len() == 0,
    ;

    /// Fills the population with random programs that `eval` develops and
    /// evaluates into phenotype and fitness.
    fn init<F: Fn(&VLGeno) -> (FLPheno, FitType)>(&mut self, eval: &F)
        requires
            old(self).can_init(),
            forall|g: &VLGeno| #[trigger] call_requires(*eval, (g,)),
            forall|g: &VLGeno, out: (FLPheno, FitType)|
                #[trigger] call_ensures(*eval, (g,), out) ==> old(self).can_take(out.0, out.1),
        ensures
            final(self).pop_progs().len() >= old(self).pop_progs().len(),
    ;

    /// The programs.
    fn progs(&self) -> (r: &[Program])
        ensures
            r@ == self.pop_progs(),
    ;

    /// Offers a program; returns whether it was taken.
    fn try_add(&mut self, prog: Program) -> (r: bool)
        requires
            old(self).can_add(prog),
        ensures
            final(self).pop_progs().len() == old(self).pop_progs().len(),
    ;

    /// A mutant of a selected program.
    fn next_new(&mut self) -> (r: Genotype)
        requires
            old(self).can_select(),
        ensures
            exists|j: int|
                0 <= j < old(self).pop_progs().len() && mutant(
                    #[trigger] old(self).pop_progs()[j].geno@,
                    r@,
                    old(self).pop_defs(),
                ),
    ;

    /// The genome defaults.
    fn prog_defs(&self) -> (r: &ProgDefaults)
        ensures
            *r == self.pop_defs(),
    ;
}

impl Population for BasicPop {
    open spec fn pop_progs(&self) -> Seq<Program> {
        self.progs@
    }

    open spec fn pop_defs(&self) -> ProgDefaults {
        self.prog_defs
    }

    /// The population size may not exceed the initial population size.
    open spec fn config_ok(args: KPopConfig) -> bool {
        args.pop_defs.pop_size <= args.pop_defs.init_pop_size
    }

    /// The defaults can draw genomes, and when programs are to be offered
    /// no fitness held is NaN.
    open spec fn can_init(&self) -> bool {
        &&& defs_valid(self.prog_defs)
        &&& self.init_size > self.pop_size ==> fits_comparable(self.progs@)
    }

    /// When programs are to be offered, each evaluation must give a fitness
    /// that is not NaN and a niche that the population will hold once the
    /// first `pop_size` programs are in.
    open spec fn can_take(&self, pheno: FLPheno, fit: FitType) -> bool {
        self.init_size > self.pop_size ==> {
            &&& !fit_is_nan(fit)
            &&& niche(pheno.preds) < self.progs.len() + self.pop_size
        }
    }

    /// The program's niche is held, and neither fitness is NaN.
    open spec fn can_add(&self, prog: Program) -> bool {
        &&& niche(prog.pheno.preds) < self.progs.len()
        &&& !fit_is_nan(prog.fit)
        &&& !fit_is_nan(self.progs@[niche(prog.pheno.preds)].fit)
    }

    /// Some program's fitness exceeds the least fitness (else the search
    /// would not end), the selection can move on, and the defaults serve
    /// every mutation of every program that can be selected.
    open spec fn can_select(&self) -> bool {
        &&& self.progs.len() > 0
        &&& exists|j: int|
            0 <= j < self.progs.len() && fit_gt(#[trigger] self.progs@[j].fit, self.min_fit)
        &&& self.select_i < usize::MAX
        &&& forall|j: int|
            0 <= j < self.progs.len() && fit_gt(#[trigger] self.progs@[j].fit, self.min_fit)
                ==> mutation_defs_ok(self.progs@[j].geno@, self.prog_defs)
    }

    /// The genome defaults.
    fn prog_defs(&self) -> (r: &ProgDefaults)
        ensures
            *r == self.prog_defs,
    {
        &self.prog_defs
    }

    /// The programs.
    fn progs(&self) -> (r: &[Program])
        ensures
            r@ == self.progs@,
    {
        self.progs.as_slice()
    }

    /// An empty population for the configuration. The population size may
    /// not exceed the initial population size.
    fn new(args: KPopConfig) -> (r: BasicPop)
        ensures
            r.progs@.len() == 0,
            r.min_fit == args.pop_defs.min_fit,
            r.select_i == 0,
            r.prog_defs == args.prog_defs,
            r.pop_size == args.pop_defs.pop_size,
            r.init_size == args.pop_defs.init_pop_size,
    {
        let pop_size = args.pop_defs.pop_size;
        let init_pop_size = args.pop_defs.init_pop_size;
        let min_fit = args.pop_defs.min_fit;
        let progs: Vec<Program> = Vec::new();
        BasicPop {
            progs,
            min_fit,
            select_i: 0,
            prog_defs: args.prog_defs,
            pop_size: pop_size,
            init_size: init_pop_size,
        }
    }

    /// Offers a program to its niche. It replaces the occupant when it is
    /// better, stays out when it is worse, and on a tie a coin decides.
    /// Returns whether it was taken.
    fn try_add(&mut self, prog: Program) -> (r: bool)
        ensures
            ({
                let loc = niche(prog.pheno.preds);
                let occupant = old(self).progs@[loc];
                &&& better(prog, occupant) ==> r
                &&& worse(prog, occupant) ==> !r
                &&& final(self).progs@ == if r {
                    old(self).progs@.update(loc, prog)
                } else {
                    old(self).progs@
                }
                &&& not_worse(final(self).progs@[loc], occupant)
                &&& not_worse(final(self).progs@[loc], prog)
            }),
            final(self).prog_defs == old(self).prog_defs,
            final(self).select_i == old(self).select_i,
            final(self).pop_size == old(self).pop_size,
            final(self).init_size == old(self).init_size,
            final(self).min_fit == old(self).min_fit,
    {
        let loc = niche_of(&prog.pheno.preds);
        let replace = match basic_cmp_progs(&prog, &self.progs[loc]) {
            Ordering::Greater => true,
            Ordering::Less => false,
            Ordering::Equal => rand_bool(),
        };
        if replace {
            self.progs.set(loc, prog);
        }
        replace
    }

    /// Moves the selection on, going round, to the next program whose
    /// fitness exceeds the least fitness, and returns a mutant of it. Some
    /// program must exceed the least fitness, else the search would not end.
    fn next_new(&mut self) -> (r: Genotype)
        ensures
            first_fit_after(
                old(self).progs@,
                old(self).min_fit,
                old(self).select_i as int,
                final(self).select_i as int,
            ),
            mutant(old(self).progs@[final(self).select_i as int].geno@, r@, old(self).prog_defs),
            final(self).progs@ == old(self).progs@,
            final(self).prog_defs == old(self).prog_defs,
            final(self).pop_size == old(self).pop_size,
            final(self).init_size == old(self).init_size,
            final(self).min_fit == old(self).min_fit,
    {
        let len = self.progs.len();
        let ghost from = self.select_i as int;
        let ghost n = len as int;
        let ghost w = choose|j: int| 0 <= j < n && fit_gt(#[trigger] self.progs@[j].fit, self.min_fit);
        let mut cur = (self.select_i + 1) % len;
        let ghost mut dist: int = 1;
        while !fit_greater(self.progs[cur].fit, self.min_fit)
            invariant
                len == self.progs.len(),
                n == len,
                0 <= w < n,
                fit_gt(self.progs@[w].fit, self.min_fit),
                1 <= dist <= n,
                cur < len,
                cur == (from + dist) % n,
                none_fit_before(self.progs@, self.min_fit, from, dist),
            decreases n - dist,
        {
            proof {
                if dist == n {
                    let r = from % n;
                    let e = if w > r { w - r } else { w - r + n };
                    vstd::arithmetic::div_mod::lemma_fundamental_div_mod(from, n);
                    let q = from / n;
                    assert(w > r ==> from + e == q * n + w) by (nonlinear_arith)
                        requires
                            from == n * q + r,
                            w > r ==> e == w - r,
                    ;
                    assert(w <= r ==> from + e == (q + 1) * n + w) by (nonlinear_arith)
                        requires
                            from == n * q + r,
                            w <= r ==> e == w - r + n,
                    ;
                    if w > r {
                        vstd::arithmetic::div_mod::lemma_fundamental_div_mod_converse(from + e, n, from / n, w);
                    } else {
                        vstd::arithmetic::div_mod::lemma_fundamental_div_mod_converse(from + e, n, from / n + 1, w);
                    }
                    assert(1 <= e <= n);
                    if e < dist {
                        assert(!fit_gt(self.progs@[(from + e) % n].fit, self.min_fit));
                    }
                    assert(false);
                }
                vstd::arithmetic::div_mod::lemma_add_mod_noop(from + dist, 1, n);
                vstd::arithmetic::div_mod::lemma_mod_twice(from + dist, n);
                vstd::arithmetic::div_mod::lemma_small_mod(1, n as nat);
                vstd::arithmetic::div_mod::lemma_add_mod_noop(cur as int, 1, n);
                vstd::arithmetic::div_mod::lemma_small_mod(cur as nat, n as nat);
            }
            cur = (cur + 1) % len;
            proof {
                dist = dist + 1;
            }
        }
        self.select_i = cur;
        proof {
            assert(none_fit_before(self.progs@, self.min_fit, from, dist));
            assert(first_fit_after(self.progs@, self.min_fit, from, cur as int));
        }
        let r = mutate(&self.progs[cur].geno, &self.prog_defs);
        proof {
            assert(mutant(old(self).pop_progs()[cur as int].geno@, r@, old(self).pop_defs()));
        }
        r
    }

    /// Fills the population: `pop_size` random programs are added, then
    /// `init_size - pop_size` more are offered to their niches. `eval`
    /// develops and evaluates a genome into its phenotype and fitness.
    fn init<F: Fn(&VLGeno) -> (FLPheno, FitType)>(&mut self, eval: &F)
        ensures
            exists|pushed: Seq<Program>, offers: Seq<Program>|
                #[trigger] init_outcome(
                    old(self).progs@,
                    pushed,
                    offers,
                    final(self).progs@,
                    old(self).prog_defs,
                    *eval,
                    old(self).pop_size as int,
                    old(self).init_size as int,
                ),
            final(self).prog_defs == old(self).prog_defs,
            final(self).select_i == old(self).select_i,
            final(self).pop_size == old(self).pop_size,
            final(self).init_size == old(self).init_size,
            final(self).min_fit == old(self).min_fit,
    {
        let ghost old_progs = self.progs@;
        let ghost old_len = self.progs@.len();
        let ghost defs = self.prog_defs;
        let ghost pop_size = self.pop_size;
        let ghost init_size = self.init_size;
        let ghost mut pushed: Seq<Program> = Seq::empty();
        let mut i: usize = 0;
        while i < self.pop_size
            invariant
                defs == self.prog_defs,
                defs_valid(defs),
                forall|g: &VLGeno| #[trigger] call_requires(*eval, (g,)),
                forall|g: &VLGeno, out: (FLPheno, FitType)|
                    #[trigger] call_ensures(*eval, (g,), out) ==> (init_size > pop_size ==> (
                    !fit_is_nan(out.1) && niche(out.0.preds) < old_len + pop_size)),
                i <= self.pop_size,
                pop_size == self.pop_size,
                init_size == self.init_size,
                old_len == old_progs.len(),
                init_size > pop_size ==> fits_comparable(old_progs),
                self.select_i == old(self).select_i,
                self.min_fit == old(self).min_fit,
                pushed.len() == i,
                self.progs@ == old_progs + pushed,
                init_size > pop_size ==> fits_comparable(self.progs@),
                forall|k: int| 0 <= k < pushed.len() ==> born(#[trigger] pushed[k], defs, *eval),
            decreases self.pop_size - i,
        {
            let geno = VLGeno::new(&self.prog_defs);
            let (pheno, fit) = eval(&geno);
            let prog = Program { geno, pheno, fit };
            proof {
                assert(born(prog, defs, *eval));
                pushed = pushed.push(prog);
            }
            self.progs.push(prog);
            i = i + 1;
        }
        let ghost mid = self.progs@;
        let ghost mut offers: Seq<Program> = Seq::empty();
        if self.init_size > self.pop_size {
            let mut k: usize = self.pop_size;
            while k < self.init_size
                invariant
                    defs == self.prog_defs,
                    defs_valid(defs),
                    forall|g: &VLGeno| #[trigger] call_requires(*eval, (g,)),
                    forall|g: &VLGeno, out: (FLPheno, FitType)|
                        #[trigger] call_ensures(*eval, (g,), out) ==> !fit_is_nan(out.1) && niche(
                            out.0.preds,
                        ) < mid.len(),
                    pop_size == self.pop_size,
                    init_size == self.init_size,
                    self.select_i == old(self).select_i,
                    self.min_fit == old(self).min_fit,
                    pop_size <= k <= init_size,
                    offers.len() == k - pop_size,
                    self.progs.len() == mid.len(),
                    fits_comparable(self.progs@),
                    forall|t: int| 0 <= t < offers.len() ==> born(#[trigger] offers[t], defs, *eval),
                    forall|j: int| 0 <= j < mid.len() ==> not_worse(#[trigger] self.progs@[j], mid[j]),
                    forall|j: int|
                        0 <= j < mid.len() ==> #[trigger] self.progs@[j] == mid[j] || offered_to(
                            offers,
                            j,
                            self.progs@[j],
                        ),
                    forall|t: int|
                        0 <= t < offers.len() ==> niche((#[trigger] offers[t]).pheno.preds)
                            < mid.len() && not_worse(
                            self.progs@[niche(offers[t].pheno.preds)],
                            offers[t],
                        ),
                decreases self.init_size - k,
            {
                let geno = VLGeno::new(&self.prog_defs);
                let (pheno, fit) = eval(&geno);
                let prog = Program { geno, pheno, fit };
                proof {
                    assert(born(prog, defs, *eval));
                    assert(call_ensures(*eval, (&prog.geno,), (prog.pheno, prog.fit)));
                    lemma_niche_bound(prog.pheno.preds);
                    assert(niche(prog.pheno.preds) < mid.len());
                    assert(!fit_is_nan(self.progs@[niche(prog.pheno.preds)].fit));
                }
                let ghost before = self.progs@;
                let ghost offered = prog;
                let ghost loc = niche(prog.pheno.preds);
                let added = self.try_add(prog);
                proof {
                    let old_offers = offers;
                    offers = offers.push(offered);
                    assert(offers[offers.len() - 1] == offered);
                    assert forall|j: int| 0 <= j < mid.len() implies not_worse(
                        #[trigger] self.progs@[j],
                        mid[j],
                    ) by {
                        if j != loc {
                            assert(self.progs@[j] == before[j]);
                        } else {
                            assert(not_worse(before[j], mid[j]));
                        }
                    }
                    assert forall|j: int| 0 <= j < mid.len() implies #[trigger] self.progs@[j]
                        == mid[j] || offered_to(offers, j, self.progs@[j]) by {
                        if added && j == loc {
                            assert(self.progs@[j] == offered);
                            assert(offers[old_offers.len() as int] == offered);
                        } else {
                            assert(self.progs@[j] == before[j]);
                            if before[j] != mid[j] {
                                let t = choose|t: int|
                                    0 <= t < old_offers.len() && #[trigger] old_offers[t] == before[j]
                                        && niche(old_offers[t].pheno.preds) == j;
                                assert(offers[t] == old_offers[t]);
                            }
                        }
                    }
                    assert forall|t: int| 0 <= t < offers.len() implies niche(
                        (#[trigger] offers[t]).pheno.preds,
                    ) < mid.len() && not_worse(
                        self.progs@[niche(offers[t].pheno.preds)],
                        offers[t],
                    ) by {
                        if t < old_offers.len() {
                            assert(offers[t] == old_offers[t]);
                            let l = niche(old_offers[t].pheno.preds);
                            lemma_niche_bound(old_offers[t].pheno.preds);
                            if l == loc {
                                assert(not_worse(before[l], old_offers[t]));
                            } else {
                                assert(self.progs@[l] == before[l]);
                            }
                        }
                    }
                }
                k = k + 1;
            }
        }
        proof {
            assert(init_outcome(
                old_progs,
                pushed,
                offers,
                self.progs@,
                defs,
                *eval,
                pop_size as int,
                init_size as int,
            ));
        }
    }
}

} // verus!
