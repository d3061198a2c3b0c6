//! Mutation of variable-length genomes.
//!
//! Instructions are counted from one: gene `n` belongs to instruction
//! `op_count(genes[..=n])`, the number of operation genes up to and
//! including it (genes before the first operation belong to instruction
//! zero).
use super::gp_maps::{genes_valid, op_count, N_OPS};
use super::prog::{defs_fit_registers, fresh_genome, lemma_fresh_genes_valid};
use super::rng::{rand_range_i32, rand_range_usize, rand_u32};
use super::{defs_valid, GeneType, Genotype, Mutatable, ProgDefaults, VLGeno, GENE_MAX};
use vstd::prelude::*;

verus! {

/// Number of genes above `N_OPS`.
pub open spec fn genes_above_ops(genes: Seq<GeneType>) -> nat
    decreases genes.len(),
{
    if genes.len() == 0 {
        0
    } else {
        genes_above_ops(genes.drop_last()) + if genes.last() > N_OPS {
            1nat
        } else {
            0nat
        }
    }
}

/// Number of genes that belong to instruction `k`.
pub open spec fn n_sites(genes: Seq<GeneType>, k: int) -> nat
    decreases genes.len(),
{
    if genes.len() == 0 {
        0
    } else {
        n_sites(genes.drop_last(), k) + if op_count(genes) == k {
            1nat
        } else {
            0nat
        }
    }
}

/// The genes with a block of `len` fresh genes inserted before each gene
/// that belongs to instruction `k`; the blocks are taken from `fresh` in
/// order.
pub open spec fn inserted(genes: Seq<GeneType>, k: int, fresh: Seq<GeneType>, len: int) -> Seq<
    GeneType,
>
    decreases genes.len(),
{
    if genes.len() == 0 {
        Seq::empty()
    } else if op_count(genes) == k {
        inserted(genes.drop_last(), k, fresh.take(fresh.len() - len), len) + fresh.skip(
            fresh.len() - len,
        ) + seq![genes.last()]
    } else {
        inserted(genes.drop_last(), k, fresh, len) + seq![genes.last()]
    }
}

/// The genes without those that belong to instruction `k`.
pub open spec fn deleted(genes: Seq<GeneType>, k: int) -> Seq<GeneType>
    decreases genes.len(),
{
    if genes.len() == 0 {
        Seq::empty()
    } else if op_count(genes) == k {
        deleted(genes.drop_last(), k)
    } else {
        deleted(genes.drop_last(), k) + seq![genes.last()]
    }
}

/// A block of fresh genes: an operation, then arguments of any code.
pub open spec fn block_ok(block: Seq<GeneType>) -> bool {
    &&& block.len() >= 1
    &&& 0 <= block[0] < N_OPS
    &&& forall|j: int| 1 <= j < block.len() ==> N_OPS <= #[trigger] block[j] < GENE_MAX
}

/// `fresh` is `n` blocks of `len` genes, each an operation then arguments.
pub open spec fn blocks_ok(fresh: Seq<GeneType>, len: int, n: nat) -> bool
    decreases n,
{
    if n == 0 {
        fresh.len() == 0
    } else {
        &&& fresh.len() >= len
        &&& block_ok(fresh.skip(fresh.len() - len))
        &&& blocks_ok(fresh.take(fresh.len() - len), len, (n - 1) as nat)
    }
}

/// A gene that replaces `old` in a point mutation: an operation in place of
/// a gene in `[0, N_OPS]`, an argument in place of any other.
pub open spec fn point_gene_ok(old: GeneType, new: GeneType) -> bool {
    if 0 <= old <= N_OPS {
        0 <= new < N_OPS
    } else {
        N_OPS <= new < GENE_MAX
    }
}

/// The outcomes of a point mutation.
pub open spec fn micro_mutant(old: Seq<GeneType>, new: Seq<GeneType>, defs: ProgDefaults) -> bool {
    if old.len() == 0 {
        fresh_genome(new, defs)
    } else {
        exists|p: int, v: GeneType|
            0 <= p < old.len() && point_gene_ok(old[p], v) && new == old.update(p, v)
    }
}

/// `new` is `old` with blocks of `size + 1` genes from `fresh` inserted
/// before the genes of instruction `k`, which is below the number of genes
/// above `N_OPS`.
pub open spec fn insertion_of(
    old: Seq<GeneType>,
    new: Seq<GeneType>,
    k: int,
    size: int,
    fresh: Seq<GeneType>,
    defs: ProgDefaults,
) -> bool {
    &&& 0 <= k < genes_above_ops(old)
    &&& defs.min_il <= size < defs.max_il
    &&& blocks_ok(fresh, size + 1, n_sites(old, k))
    &&& new == inserted(old, k, fresh, size + 1)
}

/// The outcomes of an insertion.
pub open spec fn insert_mutant(old: Seq<GeneType>, new: Seq<GeneType>, defs: ProgDefaults) -> bool {
    if genes_above_ops(old) == 0 {
        fresh_genome(new, defs)
    } else {
        exists|k: int, size: int, fresh: Seq<GeneType>|
            #[trigger] insertion_of(old, new, k, size, fresh, defs)
    }
}

/// The outcomes of a deletion.
pub open spec fn del_mutant(old: Seq<GeneType>, new: Seq<GeneType>, defs: ProgDefaults) -> bool {
    if genes_above_ops(old) == 0 {
        fresh_genome(new, defs)
    } else {
        exists|k: int| 0 <= k < genes_above_ops(old) && new == deleted(old, k)
    }
}

/// The outcomes of a mutation.
pub open spec fn mutant(old: Seq<GeneType>, new: Seq<GeneType>, defs: ProgDefaults) -> bool {
    ||| micro_mutant(old, new, defs)
    ||| insert_mutant(old, new, defs)
    ||| del_mutant(old, new, defs)
}

proof fn lemma_n_sites_prefix(genes: Seq<GeneType>, k: int, i: int)
    requires
        0 <= i <= genes.len(),
    ensures
        n_sites(genes.take(i), k) <= n_sites(genes, k),
    decreases genes.len(),
{
    if i < genes.len() {
        lemma_n_sites_prefix(genes.drop_last(), k, i);
        assert(genes.drop_last().take(i) == genes.take(i));
    } else {
        assert(genes.take(i) == genes);
    }
}

proof fn lemma_blocks_len(fresh: Seq<GeneType>, len: int, n: nat)
    requires
        blocks_ok(fresh, len, n),
        len >= 1,
    ensures
        fresh.len() == n * len,
    decreases n,
{
    if n > 0 {
        lemma_blocks_len(fresh.take(fresh.len() - len), len, (n - 1) as nat);
        assert(fresh.len() == (n - 1) * len + len);
        assert((n - 1) * len + len == n * len) by (nonlinear_arith);
    } else {
        assert(0 * len == 0);
    }
}

proof fn lemma_blocks_valid(fresh: Seq<GeneType>, len: int, n: nat)
    requires
        blocks_ok(fresh, len, n),
        len >= 1,
    ensures
        genes_valid(fresh),
    decreases n,
{
    if n > 0 {
        let head = fresh.take(fresh.len() - len);
        let block = fresh.skip(fresh.len() - len);
        lemma_blocks_valid(head, len, (n - 1) as nat);
        assert forall|i: int| 0 <= i < fresh.len() implies 0 <= #[trigger] fresh[i] < GENE_MAX by {
            if i < head.len() {
                assert(fresh[i] == head[i]);
            } else {
                assert(fresh[i] == block[i - head.len()]);
            }
        }
    }
}

proof fn lemma_inserted_valid(genes: Seq<GeneType>, k: int, fresh: Seq<GeneType>, len: int)
    requires
        genes_valid(genes),
        genes_valid(fresh),
        len >= 1,
        fresh.len() == n_sites(genes, k) * len,
    ensures
        genes_valid(inserted(genes, k, fresh, len)),
    decreases genes.len(),
{
    if genes.len() > 0 {
        let prev = genes.drop_last();
        let r = inserted(genes, k, fresh, len);
        if op_count(genes) == k {
            let head = fresh.take(fresh.len() - len);
            let block = fresh.skip(fresh.len() - len);
            assert(fresh.len() - len == n_sites(prev, k) * len) by (nonlinear_arith)
                requires
                    fresh.len() == (n_sites(prev, k) + 1) * len,
            ;
            lemma_inserted_valid(prev, k, head, len);
            let a = inserted(prev, k, head, len);
            assert forall|i: int| 0 <= i < r.len() implies 0 <= #[trigger] r[i] < GENE_MAX by {
                if i < a.len() {
                    assert(r[i] == a[i]);
                } else if i < a.len() + block.len() {
                    assert(r[i] == fresh[fresh.len() - len + (i - a.len())]);
                } else {
                    assert(r[i] == genes[genes.len() - 1]);
                }
            }
        } else {
            lemma_inserted_valid(prev, k, fresh, len);
            let a = inserted(prev, k, fresh, len);
            assert forall|i: int| 0 <= i < r.len() implies 0 <= #[trigger] r[i] < GENE_MAX by {
                if i < a.len() {
                    assert(r[i] == a[i]);
                } else {
                    assert(r[i] == genes[genes.len() - 1]);
                }
            }
        }
    }
}

proof fn lemma_deleted_valid(genes: Seq<GeneType>, k: int)
    requires
        genes_valid(genes),
    ensures
        genes_valid(deleted(genes, k)),
    decreases genes.len(),
{
    if genes.len() > 0 {
        let prev = genes.drop_last();
        lemma_deleted_valid(prev, k);
        let a = deleted(prev, k);
        let r = deleted(genes, k);
        assert forall|i: int| 0 <= i < r.len() implies 0 <= #[trigger] r[i] < GENE_MAX by {
            if i < a.len() {
                assert(r[i] == a[i]);
            } else {
                assert(r[i] == genes[genes.len() - 1]);
            }
        }
    }
}

/// Law of the edits: an insertion adds every fresh gene, and a deletion
/// removes exactly the genes of the instruction.
pub proof fn lemma_edit_lengths(genes: Seq<GeneType>, k: int, fresh: Seq<GeneType>, len: int)
    requires
        len >= 1,
        fresh.len() == n_sites(genes, k) * len,
    ensures
        inserted(genes, k, fresh, len).len() == genes.len() + fresh.len(),
        deleted(genes, k).len() == genes.len() - n_sites(genes, k),
    decreases genes.len(),
{
    if genes.len() > 0 {
        let prev = genes.drop_last();
        if op_count(genes) == k {
            assert(fresh.len() - len == n_sites(prev, k) * len && n_sites(prev, k) * len >= 0)
                by (nonlinear_arith)
                requires
                    fresh.len() == (n_sites(prev, k) + 1) * len,
                    len >= 1,
            ;
            let head = fresh.take(fresh.len() - len);
            lemma_edit_lengths(prev, k, head, len);
        } else {
            lemma_edit_lengths(prev, k, fresh, len);
        }
    } else {
        assert(0 * len == 0);
    }
}

/// Law of mutation: a genome whose genes can all be decoded mutates into
/// one whose genes can all be decoded, when the defaults' registers fit.
pub proof fn lemma_mutation_keeps_genes_valid(
    old: Seq<GeneType>,
    new: Seq<GeneType>,
    defs: ProgDefaults,
)
    requires
        defs_valid(defs),
        defs_fit_registers(defs),
        genes_valid(old),
        mutant(old, new, defs),
    ensures
        genes_valid(new),
{
    if micro_mutant(old, new, defs) {
        if old.len() == 0 {
            lemma_fresh_genes_valid(new, defs);
        } else {
            let (p, v) = choose|p: int, v: GeneType|
                0 <= p < old.len() && point_gene_ok(old[p], v) && new == old.update(p, v);
            assert forall|i: int| 0 <= i < new.len() implies 0 <= #[trigger] new[i] < GENE_MAX by {
                if i != p {
                    assert(new[i] == old[i]);
                }
            }
        }
    } else if insert_mutant(old, new, defs) {
        if genes_above_ops(old) == 0 {
            lemma_fresh_genes_valid(new, defs);
        } else {
            let (k, size, fresh) = choose|k: int, size: int, fresh: Seq<GeneType>|
                #[trigger] insertion_of(old, new, k, size, fresh, defs);
            lemma_blocks_valid(fresh, size + 1, n_sites(old, k));
            lemma_blocks_len(fresh, size + 1, n_sites(old, k));
            lemma_inserted_valid(old, k, fresh, size + 1);
        }
    } else {
        if genes_above_ops(old) == 0 {
            lemma_fresh_genes_valid(new, defs);
        } else {
            let k = choose|k: int| 0 <= k < genes_above_ops(old) && new == deleted(old, k);
            lemma_deleted_valid(old, k);
        }
    }
}

/// Instruction counts of the genes: the number of genes above `N_OPS`.
pub fn count_ops(genome: &[GeneType]) -> (r: usize)
    ensures
        r == genes_above_ops(genome@),
{
    let mut count: usize = 0;
    let mut i: usize = 0;
    while i < genome.len()
        invariant
            i <= genome.len(),
            count == genes_above_ops(genome@.take(i as int)),
            count <= i,
        decreases genome.len() - i,
    {
        proof {
            assert(genome@.take(i + 1).drop_last() == genome@.take(i as int));
        }
        if genome[i] > N_OPS {
            count = count + 1;
        }
        i = i + 1;
    }
    proof {
        assert(genome@.take(i as int) == genome@);
    }
    count
}

/// Number of genes that belong to instruction `k`.
pub fn count_sites(genome: &[GeneType], k: usize) -> (r: usize)
    ensures
        r == n_sites(genome@, k as int),
{
    let mut count: usize = 0;
    let mut instr_count: usize = 0;
    let mut i: usize = 0;
    while i < genome.len()
        invariant
            i <= genome.len(),
            count == n_sites(genome@.take(i as int), k as int),
            instr_count == op_count(genome@.take(i as int)),
            count <= i,
            instr_count <= i,
        decreases genome.len() - i,
    {
        proof {
            assert(genome@.take(i + 1).drop_last() == genome@.take(i as int));
        }
        if genome[i] < N_OPS {
            instr_count = instr_count + 1;
        }
        if instr_count == k {
            count = count + 1;
        }
        i = i + 1;
    }
    proof {
        assert(genome@.take(i as int) == genome@);
    }
    count
}

/// Inserts a block of `instr_len` genes from `fresh` before each gene that
/// belongs to instruction `insert_before`, the blocks in order.
pub fn insert_instructions(
    genome: &[GeneType],
    insert_before: usize,
    instr_len: usize,
    fresh: &[GeneType],
) -> (r: Vec<GeneType>)
    requires
        fresh.len() == n_sites(genome@, insert_before as int) * instr_len,
    ensures
        r@ == inserted(genome@, insert_before as int, fresh@, instr_len as int),
{
    let ghost k = insert_before as int;
    let ghost len = instr_len as int;
    let mut new_geno: Vec<GeneType> = Vec::new();
    let mut instr_count: usize = 0;
    let mut used: usize = 0;
    let mut i: usize = 0;
    proof {
        assert(genome@.take(0) =~= Seq::<GeneType>::empty());
        assert(0 * len == 0);
    }
    while i < genome.len()
        invariant
            k == insert_before,
            len == instr_len,
            fresh.len() == n_sites(genome@, k) * len,
            i <= genome.len(),
            instr_count == op_count(genome@.take(i as int)),
            instr_count <= i,
            used == n_sites(genome@.take(i as int), k) * len,
            new_geno@ == inserted(genome@.take(i as int), k, fresh@.take(used as int), len),
        decreases genome.len() - i,
    {
        let gene = genome[i];
        let ghost prefix = genome@.take(i + 1);
        proof {
            assert(prefix.drop_last() == genome@.take(i as int));
            assert(prefix.last() == gene);
            lemma_n_sites_prefix(genome@, k, i + 1);
        }
        if gene < N_OPS {
            instr_count = instr_count + 1;
        }
        if instr_count == insert_before {
            proof {
                assert(n_sites(prefix, k) == n_sites(genome@.take(i as int), k) + 1);
                assert(used + len <= fresh.len()) by (nonlinear_arith)
                    requires
                        used == n_sites(genome@.take(i as int), k) * len,
                        fresh.len() == n_sites(genome@, k) * len,
                        n_sites(genome@.take(i as int), k) + 1 <= n_sites(genome@, k),
                        len >= 0,
                ;
                assert((n_sites(genome@.take(i as int), k) + 1) * len == used + len)
                    by (nonlinear_arith)
                    requires
                        used == n_sites(genome@.take(i as int), k) * len,
                ;
            }
            let mut j: usize = 0;
            while j < instr_len
                invariant
                    used + instr_len <= fresh.len(),
                    j <= instr_len,
                    new_geno@ == inserted(genome@.take(i as int), k, fresh@.take(used as int), len)
                        + fresh@.subrange(used as int, used + j),
                decreases instr_len - j,
            {
                new_geno.push(fresh[used + j]);
                proof {
                    assert(fresh@.subrange(used as int, used + j + 1) == fresh@.subrange(
                        used as int,
                        used + j,
                    ).push(fresh@[used + j]));
                }
                j = j + 1;
            }
            proof {
                let f2 = fresh@.take(used + len);
                assert(f2.take(f2.len() - len) == fresh@.take(used as int));
                assert(f2.skip(f2.len() - len) == fresh@.subrange(used as int, used + len));
            }
            used = used + instr_len;
        }
        new_geno.push(gene);
        i = i + 1;
    }
    proof {
        assert(genome@.take(i as int) == genome@);
        assert(fresh@.take(used as int) == fresh@);
    }
    new_geno
}

/// Removes the genes that belong to instruction `del_ind`.
pub fn delete_instruction(genome: &[GeneType], del_ind: usize) -> (r: Vec<GeneType>)
    ensures
        r@ == deleted(genome@, del_ind as int),
{
    let mut new_geno: Vec<GeneType> = Vec::new();
    let mut instr_count: usize = 0;
    let mut i: usize = 0;
    while i < genome.len()
        invariant
            i <= genome.len(),
            instr_count == op_count(genome@.take(i as int)),
            instr_count <= i,
            new_geno@ == deleted(genome@.take(i as int), del_ind as int),
        decreases genome.len() - i,
    {
        let gene = genome[i];
        proof {
            assert(genome@.take(i + 1).drop_last() == genome@.take(i as int));
            assert(genome@.take(i + 1).last() == gene);
        }
        if gene < N_OPS {
            instr_count = instr_count + 1;
        }
        if instr_count != del_ind {
            new_geno.push(gene);
        }
        i = i + 1;
    }
    proof {
        assert(genome@.take(i as int) == genome@);
    }
    new_geno
}

/// Defaults that every kind of mutation of `genes` can use: the argument
/// count range is not empty, and a genome that would be replaced by a random
/// one can be drawn.
pub open spec fn mutation_defs_ok(genes: Seq<GeneType>, defs: ProgDefaults) -> bool {
    &&& defs.min_il < defs.max_il
    &&& genes_above_ops(genes) == 0 ==> defs_valid(defs)
}

impl VLGeno {
    /// A mutated copy of the genome.
    pub fn copy_mutate(&self, defs: &ProgDefaults) -> (r: Genotype)
        requires
            mutation_defs_ok(self@, *defs),
        ensures
            mutant(self@, r@, *defs),
    {
        mutate(self, defs)
    }
}

/// Mutates a genome: a point mutation with probability 1/2, an insertion
/// with probability 1/4 and a deletion with probability 1/4, as
/// `mutate_with` decides from a uniform `u32`.
pub fn mutate(genome: &Genotype, defs: &ProgDefaults) -> (r: Genotype)
    requires
        mutation_defs_ok(genome@, *defs),
    ensures
        mutant(genome@, r@, *defs),
{
    let r = rand_u32();
    mutate_with(genome, defs, r)
}

/// Mutates a genome by the kind that `r` picks: a value below `2^31` (a
/// uniform number in `[0, 1)` below 1/2) picks a point mutation, one below
/// `3 * 2^30` (below 3/4) an insertion, any other a deletion.
pub fn mutate_with(genome: &Genotype, defs: &ProgDefaults, r: u32) -> (res: Genotype)
    requires
        r < 0x8000_0000 ==> (genome@.len() == 0 ==> defs_valid(*defs)),
        0x8000_0000 <= r < 0xC000_0000 ==> mutation_defs_ok(genome@, *defs),
        0xC000_0000 <= r ==> (genes_above_ops(genome@) == 0 ==> defs_valid(*defs)),
    ensures
        r < 0x8000_0000 ==> micro_mutant(genome@, res@, *defs),
        0x8000_0000 <= r < 0xC000_0000 ==> insert_mutant(genome@, res@, *defs),
        0xC000_0000 <= r ==> del_mutant(genome@, res@, *defs),
{
    if r < 0x8000_0000 {
        micro_mutate(genome, defs)
    } else if r < 0xC000_0000 {
        insert_mutate(genome, defs)
    } else {
        del_mutate(genome, defs)
    }
}

/// Replaces one gene, at a random position: a gene in `[0, N_OPS]` by a
/// random operation, any other by a random argument. An empty genome is
/// replaced by a random one.
pub fn micro_mutate(genome: &Genotype, defs: &ProgDefaults) -> (r: Genotype)
    requires
        genome@.len() == 0 ==> defs_valid(*defs),
    ensures
        micro_mutant(genome@, r@, *defs),
{
    let len = genome.len();
    if len == 0 {
        return Genotype::new(defs);
    }
    let mut new = genome.copy();
    let mut_point = rand_range_usize(0, len);
    let old_gene = new.raw_seq[mut_point];
    let new_gene = if 0 <= old_gene && old_gene <= N_OPS {
        rand_range_i32(0, N_OPS)
    } else {
        rand_range_i32(N_OPS, GENE_MAX)
    };
    let genes = new.show_mutable_geno();
    genes[mut_point] = new_gene;
    assert(point_gene_ok(genome@[mut_point as int], new_gene));
    new
}

/// Inserts a random instruction (a random operation and random arguments,
/// their number drawn from `[min_il, max_il)`) before each gene of a random
/// instruction, counted from zero up to the number of genes above `N_OPS`.
/// A genome without such genes is replaced by a random one.
pub fn insert_mutate(genome: &Genotype, defs: &ProgDefaults) -> (r: Genotype)
    requires
        mutation_defs_ok(genome@, *defs),
    ensures
        insert_mutant(genome@, r@, *defs),
{
    let nops = count_ops(genome.raw_seq.as_slice());
    if nops == 0 {
        return Genotype::new(defs);
    }
    let insert_before = rand_range_usize(0, nops);
    let instr_size = rand_range_usize(defs.min_il, defs.max_il);
    let n_blocks = count_sites(genome.raw_seq.as_slice(), insert_before);
    let mut fresh: Vec<GeneType> = Vec::new();
    let ghost len = instr_size + 1;
    let mut b: usize = 0;
    while b < n_blocks
        invariant
            instr_size < defs.max_il,
            len == instr_size + 1,
            b <= n_blocks,
            blocks_ok(fresh@, len, b as nat),
        decreases n_blocks - b,
    {
        let ghost before = fresh@;
        fresh.push(rand_range_i32(0, N_OPS));
        let mut a: usize = 0;
        while a < instr_size
            invariant
                a <= instr_size,
                fresh@.len() == before.len() + a + 1,
                fresh@.take(before.len() as int) == before,
                0 <= fresh@[before.len() as int] < N_OPS,
                forall|j: int|
                    before.len() < j < fresh@.len() ==> N_OPS <= #[trigger] fresh@[j] < GENE_MAX,
            decreases instr_size - a,
        {
            fresh.push(rand_range_i32(N_OPS, GENE_MAX));
            a = a + 1;
        }
        proof {
            let block = fresh@.skip(fresh@.len() - len);
            assert(fresh@.len() - len == before.len());
            assert(block_ok(block)) by {
                assert forall|j: int| 1 <= j < block.len() implies N_OPS <= #[trigger] block[j]
                    < GENE_MAX by {
                    assert(block[j] == fresh@[before.len() + j]);
                }
            }
            assert(fresh@.take(fresh@.len() - len) == before);
        }
        b = b + 1;
    }
    proof {
        lemma_blocks_len(fresh@, len, n_blocks as nat);
    }
    let new_geno = insert_instructions(
        genome.raw_seq.as_slice(),
        insert_before,
        instr_size + 1,
        fresh.as_slice(),
    );
    proof {
        assert(insertion_of(
            genome@,
            new_geno@,
            insert_before as int,
            instr_size as int,
            fresh@,
            *defs,
        ));
    }
    VLGeno { raw_seq: new_geno }
}

/// Removes the genes of a random instruction, counted from zero up to the
/// number of genes above `N_OPS`. A genome without such genes is replaced
/// by a random one.
pub fn del_mutate(genome: &Genotype, defs: &ProgDefaults) -> (r: Genotype)
    requires
        genes_above_ops(genome@) == 0 ==> defs_valid(*defs),
    ensures
        del_mutant(genome@, r@, *defs),
{
    let nops = count_ops(genome.raw_seq.as_slice());
    if nops == 0 {
        return Genotype::new(defs);
    }
    let del_ind = rand_range_usize(0, nops);
    let new_geno = delete_instruction(genome.raw_seq.as_slice(), del_ind);
    VLGeno { raw_seq: new_geno }
}

} // verus!
