use klgp::dataset::params::NFEAT;
use klgp::evosys::gp_maps::{decode_program, Arg, MAX_REGS, N_OPS};
use klgp::evosys::mutators::{
    count_ops, count_sites, del_mutate, delete_instruction, insert_instructions, insert_mutate,
    micro_mutate, mutate, mutate_with,
};
use klgp::evosys::{KProgDefaults, Mutatable, VLGeno, GENE_MAX};

fn defaults() -> KProgDefaults {
    KProgDefaults { min_il: 1, max_il: 5, min_ins: 1, max_ins: 10, eff_regs: 5 }
}

fn feat(i: i32) -> i32 {
    N_OPS + i
}

fn reg(i: i32) -> i32 {
    N_OPS + NFEAT as i32 + i
}

#[test]
fn decode_gathers_arguments_per_operation() {
    let genes = vec![feat(0), feat(1), 0, reg(0), 1, feat(2)];
    let p = decode_program(&genes);
    assert_eq!(p.instrs.len(), 2);
    assert_eq!(p.instrs[0].op, 0);
    assert_eq!(p.instrs[0].target, 0);
    assert_eq!((p.instrs[0].arg_start, p.instrs[0].arg_end), (0, 2));
    assert_eq!(p.instrs[1].op, 1);
    assert_eq!(p.instrs[1].target, 1);
    assert_eq!((p.instrs[1].arg_start, p.instrs[1].arg_end), (2, 3));
    assert_eq!(p.args.len(), 4);
    assert!(matches!(p.args[0], Arg::Feature(0)));
    assert!(matches!(p.args[1], Arg::Feature(1)));
    assert!(matches!(p.args[2], Arg::Register(0)));
    assert!(matches!(p.args[3], Arg::Feature(2)));
    assert_eq!(p.result, Some(1));
}

#[test]
fn decode_without_operations_has_no_output() {
    let p = decode_program(&[feat(3), reg(7)]);
    assert_eq!(p.instrs.len(), 0);
    assert_eq!(p.result, None);
}

#[test]
fn decode_registers_come_round() {
    let genes = vec![0; MAX_REGS + 1];
    let p = decode_program(&genes);
    assert_eq!(p.instrs[MAX_REGS].target, 0);
    assert_eq!(p.result, Some(0));
    let genes = vec![3; MAX_REGS];
    let p = decode_program(&genes);
    assert_eq!(p.instrs[MAX_REGS - 1].target, MAX_REGS - 1);
    assert_eq!(p.result, None);
}

#[test]
fn count_ops_counts_genes_above_n_ops() {
    assert_eq!(count_ops(&[0, 6, 7, 8, 1, 20]), 3);
    assert_eq!(count_ops(&[]), 0);
}

#[test]
fn sites_are_the_genes_of_an_instruction() {
    let g = [0, 7, 8, 1, 9, 2];
    assert_eq!(count_sites(&g, 0), 0);
    assert_eq!(count_sites(&g, 1), 3);
    assert_eq!(count_sites(&g, 2), 2);
    assert_eq!(count_sites(&g, 3), 1);
    assert_eq!(count_sites(&g, 4), 0);
    assert_eq!(count_sites(&[7, 0], 0), 1);
}

#[test]
fn insertion_before_each_gene_of_an_instruction() {
    let g = [0, 7, 8, 1, 9];
    let r = insert_instructions(&g, 2, 2, &[3, 10, 4, 11]);
    assert_eq!(r, vec![0, 7, 8, 3, 10, 1, 4, 11, 9]);
    let r = insert_instructions(&g, 5, 2, &[]);
    assert_eq!(r, g.to_vec());
}

#[test]
fn deletion_removes_one_instruction() {
    let g = [0, 7, 8, 1, 9, 2];
    assert_eq!(delete_instruction(&g, 1), vec![1, 9, 2]);
    assert_eq!(delete_instruction(&g, 2), vec![0, 7, 8, 2]);
    assert_eq!(delete_instruction(&g, 0), g.to_vec());
    assert_eq!(delete_instruction(&[7, 0, 8], 0), vec![0, 8]);
}

fn check_fresh(g: &[i32], defs: &KProgDefaults) {
    assert!(g[0] >= 0 && g[0] < N_OPS);
    let n_ops = g.iter().filter(|x| **x < N_OPS).count();
    assert!(n_ops >= defs.min_ins && n_ops < defs.max_ins);
    let mut regs = defs.eff_regs;
    let mut run = 0;
    for (i, gene) in g.iter().enumerate() {
        if *gene < N_OPS {
            if i > 0 {
                assert!(run >= defs.min_il && run < defs.max_il);
            }
            run = 0;
        } else {
            let max_val = reg(0) + regs;
            assert!(*gene < max_val);
            if *gene == max_val - 1 {
                regs += 1;
            }
            run += 1;
        }
        assert!(*gene >= 0 && *gene < GENE_MAX);
    }
    assert!(run >= defs.min_il && run < defs.max_il);
}

#[test]
fn random_genomes_have_the_drawn_shape() {
    let defs = defaults();
    let mut lengths = std::collections::BTreeSet::new();
    for _ in 0..200 {
        let g = VLGeno::new(&defs);
        lengths.insert(g.raw_seq.len());
        check_fresh(&g.raw_seq, &defs);
        assert_eq!(g.len(), g.raw_seq.len());
        assert_eq!(g.show_geno(), g.raw_seq.as_slice());
    }
    assert!(lengths.len() > 1);
}

#[test]
fn copy_keeps_the_genes() {
    let g = VLGeno { raw_seq: vec![1, 7, 2] };
    let mut c = g.copy();
    assert_eq!(c.raw_seq, g.raw_seq);
    c.show_mutable_geno()[1] = 9;
    assert_eq!(c.raw_seq, vec![1, 9, 2]);
}

#[test]
fn point_mutation_changes_at_most_one_gene() {
    let defs = defaults();
    let g = VLGeno { raw_seq: vec![0, 6, 7, 20, 3, 143] };
    for _ in 0..200 {
        let m = micro_mutate(&g, &defs);
        assert_eq!(m.raw_seq.len(), g.raw_seq.len());
        let diffs: Vec<usize> = (0..g.raw_seq.len()).filter(|i| m.raw_seq[*i] != g.raw_seq[*i]).collect();
        assert!(diffs.len() <= 1);
        for i in diffs {
            if g.raw_seq[i] <= N_OPS {
                assert!(m.raw_seq[i] >= 0 && m.raw_seq[i] < N_OPS);
            } else {
                assert!(m.raw_seq[i] >= N_OPS && m.raw_seq[i] < GENE_MAX);
            }
        }
    }
    let empty = VLGeno { raw_seq: vec![] };
    check_fresh(&micro_mutate(&empty, &defs).raw_seq, &defs);
}

#[test]
fn insertion_and_deletion_keep_the_old_genes_in_order() {
    let defs = defaults();
    let g = VLGeno { raw_seq: vec![0, 7, 8, 1, 9, 2, 10] };
    for _ in 0..200 {
        let ins = insert_mutate(&g, &defs);
        assert!(ins.raw_seq.len() >= g.raw_seq.len());
        let mut it = ins.raw_seq.iter();
        assert!(g.raw_seq.iter().all(|x| it.any(|y| y == x)));
        assert!(ins.raw_seq.iter().all(|x| *x >= 0 && *x < GENE_MAX));
        let del = del_mutate(&g, &defs);
        let mut it = g.raw_seq.iter();
        assert!(del.raw_seq.iter().all(|x| it.any(|y| y == x)));
    }
    let no_args = VLGeno { raw_seq: vec![0, 6, 1] };
    check_fresh(&insert_mutate(&no_args, &defs).raw_seq, &defs);
    check_fresh(&del_mutate(&no_args, &defs).raw_seq, &defs);
}

#[test]
fn mutants_stay_decodable() {
    let defs = defaults();
    let mut g = VLGeno::new(&defs);
    for _ in 0..500 {
        g = mutate(&g, &defs);
        assert!(g.raw_seq.iter().all(|x| *x >= 0 && *x < GENE_MAX));
        let _ = decode_program(&g.raw_seq);
        g = g.copy_mutate(&defs);
    }
}

#[test]
fn mutation_kind_follows_the_draw() {
    let defs = defaults();
    // Each instruction index below the argument count has genes to act on.
    let g = VLGeno { raw_seq: vec![feat(0), 0, feat(1), 1, reg(0)] };
    for r in [0u32, 1, 0x7FFF_FFFF] {
        let m = mutate_with(&g, &defs, r);
        assert_eq!(m.raw_seq.len(), g.raw_seq.len());
        let changed = m.raw_seq.iter().zip(g.raw_seq.iter()).filter(|(a, b)| a != b).count();
        assert!(changed <= 1);
    }
    for r in [0x8000_0000u32, 0xA000_0000, 0xBFFF_FFFF] {
        let m = mutate_with(&g, &defs, r);
        assert!(m.raw_seq.len() > g.raw_seq.len());
    }
    for r in [0xC000_0000u32, 0xE000_0000, u32::MAX] {
        let m = mutate_with(&g, &defs, r);
        assert!(m.raw_seq.len() < g.raw_seq.len());
        let outcomes =
            [vec![0, feat(1), 1, reg(0)], vec![feat(0), 1, reg(0)], vec![feat(0), 0, feat(1)]];
        assert!(outcomes.contains(&m.raw_seq));
    }
}

#[test]
fn basic_defaults() {
    let d = KProgDefaults::basic();
    assert_eq!((d.min_il, d.max_il, d.min_ins, d.max_ins, d.eff_regs), (1, 5, 1, 10, 5));
    assert!(d.can_draw());
}

#[test]
fn trailing_arguments_leave_the_program_unchanged() {
    let p = vec![feat(0), 0, reg(2), feat(3), 4, feat(1)];
    let mut pq = p.clone();
    pq.extend_from_slice(&[feat(5), reg(0), reg(127)]);
    let a = decode_program(&p);
    let b = decode_program(&pq);
    assert_eq!(a.result, b.result);
    assert_eq!(a.result, Some(1));
    assert_eq!(a.instrs.len(), b.instrs.len());
    for (x, y) in a.instrs.iter().zip(b.instrs.iter()) {
        assert_eq!((x.op, x.target, x.arg_start, x.arg_end), (y.op, y.target, y.arg_start, y.arg_end));
        assert!(y.arg_end <= a.args.len());
    }
    assert_eq!(b.args.len(), a.args.len() + 3);
}

#[test]
fn defaults_without_arguments_need_no_registers() {
    let d = KProgDefaults { min_il: 0, max_il: 1, min_ins: 1, max_ins: 4, eff_regs: -1000 };
    assert!(d.can_draw());
    let g = VLGeno::new(&d);
    assert!(!g.raw_seq.is_empty() && g.raw_seq.len() < 4);
    assert!(g.raw_seq.iter().all(|x| (0..N_OPS).contains(x)));
    let big = KProgDefaults { min_il: 0, max_il: 3, min_ins: 0, max_ins: 1, eff_regs: i32::MAX };
    assert!(big.can_draw());
    assert!(VLGeno::new(&big).raw_seq.is_empty());
    let bad = KProgDefaults { min_il: 0, max_il: 2, min_ins: 1, max_ins: 4, eff_regs: -1000 };
    assert!(!bad.can_draw());
}
