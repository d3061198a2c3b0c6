use klgp::evosys::ea::{report_due, EARunner, PConfig};
use klgp::evosys::gp_maps::{agreement_count, basic_cmp_progs, basic_lgp_map, fit_greater};
use klgp::evosys::pop::{niche_of, NICHE_LOCS, N_NICHES};
use klgp::evosys::{
    BasicPop, FLPheno, KPopConfig, KProg, KProgDefaults, Mutatable, Population, VLGeno, FLP_SIZE,
};
use std::cmp::Ordering;

fn defaults() -> KProgDefaults {
    KProgDefaults { min_il: 1, max_il: 5, min_ins: 1, max_ins: 10, eff_regs: 5 }
}

fn prog(genes: Vec<i32>, niche: usize, fit: f32) -> KProg {
    let mut preds = [false; FLP_SIZE];
    for (bit, loc) in NICHE_LOCS.iter().enumerate() {
        preds[*loc] = niche & (1 << bit) != 0;
    }
    let complexity = genes.len();
    KProg { geno: VLGeno { raw_seq: genes }, pheno: FLPheno { preds, complexity }, fit: fit.to_bits() }
}

fn config(pop_size: usize, init_pop_size: usize, min_fit: f32) -> KPopConfig {
    KPopConfig {
        pop_defs: PConfig {
            loc: String::from("data.csv"),
            min_fit: min_fit.to_bits(),
            n_eval: 10,
            pop_size,
            init_pop_size,
            mutation_method: 0,
            compare_method: 0,
        },
        prog_defs: defaults(),
    }
}

#[test]
fn programs_compare_by_fitness_then_complexity() {
    let a = prog(vec![0, 7], 0, 0.5);
    let b = prog(vec![0, 7, 8], 0, 0.5);
    let c = prog(vec![0], 0, 0.75);
    let d = prog(vec![1, 8], 0, -0.0);
    let e = prog(vec![2, 9], 0, 0.0);
    let f = prog(vec![2, 9], 0, -1.5);
    assert_eq!(basic_cmp_progs(&a, &b), Ordering::Less);
    assert_eq!(basic_cmp_progs(&b, &a), Ordering::Greater);
    assert_eq!(basic_cmp_progs(&a, &c), Ordering::Less);
    assert_eq!(basic_cmp_progs(&c, &b), Ordering::Greater);
    assert_eq!(basic_cmp_progs(&d, &e), Ordering::Equal);
    assert_eq!(basic_cmp_progs(&f, &d), Ordering::Less);
    assert_eq!(basic_cmp_progs(&a, &a), Ordering::Equal);
}

#[test]
fn fitness_comparison_follows_the_numbers() {
    assert!(fit_greater(0.5f32.to_bits(), 0.25f32.to_bits()));
    assert!(!fit_greater(0.25f32.to_bits(), 0.5f32.to_bits()));
    assert!(fit_greater(0.0f32.to_bits(), (-0.5f32).to_bits()));
    assert!(fit_greater((-0.25f32).to_bits(), (-0.5f32).to_bits()));
    assert!(!fit_greater(0.0f32.to_bits(), (-0.0f32).to_bits()));
    assert!(!fit_greater(f32::NAN.to_bits(), 0.0f32.to_bits()));
    assert!(!fit_greater(1.0f32.to_bits(), f32::NAN.to_bits()));
    assert!(fit_greater(f32::INFINITY.to_bits(), f32::MAX.to_bits()));
}

#[test]
fn niches_come_from_ten_predictions() {
    assert_eq!(niche_of(&[false; FLP_SIZE]), 0);
    assert_eq!(niche_of(&[true; FLP_SIZE]), N_NICHES - 1);
    let mut preds = [false; FLP_SIZE];
    preds[7] = true;
    preds[59] = true;
    preds[0] = true;
    assert_eq!(niche_of(&preds), 2 + 512);
    for n in [0usize, 1, 5, 300, 1023] {
        assert_eq!(niche_of(&prog(vec![0], n, 0.0).pheno.preds), n);
    }
}

fn full_pop(fit: f32) -> BasicPop {
    let mut pop = BasicPop::new(config(N_NICHES, N_NICHES, fit));
    for n in 0..N_NICHES {
        pop.progs.push(prog(vec![0, 7], n, 0.5));
    }
    pop
}

#[test]
fn try_add_keeps_the_better_program() {
    let mut pop = full_pop(0.0);
    assert!(pop.try_add(prog(vec![1, 7], 3, 0.75)));
    assert_eq!(pop.progs()[3].geno.raw_seq, vec![1, 7]);
    assert!(!pop.try_add(prog(vec![2, 7], 3, 0.5)));
    assert_eq!(pop.progs()[3].geno.raw_seq, vec![1, 7]);
    assert!(pop.try_add(prog(vec![2, 7, 8], 5, 0.5)));
    assert_eq!(pop.progs()[5].geno.raw_seq, vec![2, 7, 8]);
    assert!(!pop.try_add(prog(vec![2], 6, 0.5)));
    let tie = pop.try_add(prog(vec![3, 9], 9, 0.5));
    assert_eq!(pop.progs()[9].geno.raw_seq == vec![3, 9], tie);
    assert_eq!(pop.progs().len(), N_NICHES);
}

#[test]
fn next_new_selects_the_next_fit_program() {
    let mut pop = full_pop(0.6);
    pop.progs[10] = prog(vec![0, 7, 1, 8], 10, 0.9);
    pop.progs[20] = prog(vec![0, 7, 1, 8], 20, 0.9);
    let _ = pop.next_new();
    assert_eq!(pop.select_i, 10);
    let _ = pop.next_new();
    assert_eq!(pop.select_i, 20);
    let _ = pop.next_new();
    assert_eq!(pop.select_i, 10);
    pop.select_i = 1000;
    let _ = pop.next_new();
    assert_eq!(pop.select_i, 10);
}

#[test]
fn init_adds_pop_size_programs() {
    let eval = |g: &VLGeno| {
        let mut pheno = FLPheno::new_blank();
        pheno.complexity = g.len();
        pheno.preds[1] = g.raw_seq.len() % 2 == 0;
        (pheno, (g.raw_seq.len() as f32).to_bits())
    };
    let mut pop = BasicPop::new(config(5, 5, 0.0));
    pop.init(&eval);
    assert_eq!(pop.progs().len(), 5);
    for p in pop.progs() {
        assert_eq!(f32::from_bits(p.fit), p.geno.raw_seq.len() as f32);
    }
    let mut pop = BasicPop::new(config(N_NICHES, N_NICHES + 50, 0.0));
    pop.init(&eval);
    assert_eq!(pop.progs().len(), N_NICHES);
    assert_eq!(pop.prog_defs().max_ins, 10);
}

#[test]
fn phenotype_holds_the_predictions() {
    let g = VLGeno { raw_seq: vec![0, 7, 8] };
    let p = basic_lgp_map(&g, &[true, false, true]);
    assert!(p.preds[0] && !p.preds[1] && p.preds[2]);
    assert!(p.preds[3..].iter().all(|b| !b));
    assert_eq!(p.complexity, 3);
    let blank = FLPheno::new_blank();
    assert!(blank.preds.iter().all(|b| !b));
    assert_eq!(blank.complexity, 0);
}

#[test]
fn agreement_counts_equal_positions() {
    assert_eq!(agreement_count(&[true, false, true, true], &[true, true, true, false]), 2);
    assert_eq!(agreement_count(&[], &[]), 0);
}

fn runner() -> EARunner {
    EARunner {
        locs: vec![String::from("a.csv"), String::from("b.csv")],
        min_fits: vec![0.0f32.to_bits(), 0.5f32.to_bits(), 0.75f32.to_bits()],
        n_evals: vec![100],
        pop_sizes: vec![1024],
        init_pop_sizes: vec![2048, 4096],
        mutation_methods: vec![0],
        compare_methods: vec![0],
        current_i: 0,
    }
}

#[test]
fn runner_hands_out_each_combination_once() {
    let mut r = runner();
    let mut seen = Vec::new();
    while let Some(c) = r.next_config() {
        seen.push((c.loc.clone(), c.min_fit, c.init_pop_size, c.pop_size, c.n_eval));
    }
    assert_eq!(seen.len(), 12);
    assert_eq!(r.current_i, 13);
    for i in 0..seen.len() {
        for j in 0..i {
            assert_ne!(seen[i], seen[j]);
        }
    }
    assert_eq!(seen[0], (String::from("a.csv"), 0.0f32.to_bits(), 2048, 1024, 100));
    assert_eq!(seen[1], (String::from("a.csv"), 0.0f32.to_bits(), 4096, 1024, 100));
    assert_eq!(seen[2], (String::from("a.csv"), 0.5f32.to_bits(), 2048, 1024, 100));
    assert_eq!(seen[11], (String::from("b.csv"), 0.75f32.to_bits(), 4096, 1024, 100));
}

#[test]
fn empty_runner_ends_at_once() {
    let mut r = runner();
    r.locs.clear();
    assert!(r.next_config().is_none());
    assert_eq!(r.current_i, 1);
}

#[test]
fn defaults_that_can_draw() {
    assert!(defaults().can_draw());
    let mut d = defaults();
    d.min_il = 5;
    assert!(!d.can_draw());
    let mut d = defaults();
    d.min_ins = 10;
    assert!(!d.can_draw());
    let mut d = defaults();
    d.eff_regs = -(klgp::dataset::params::NFEAT as i32);
    assert!(!d.can_draw());
    let mut d = defaults();
    d.max_ins = usize::MAX;
    assert!(!d.can_draw());
    d.max_il = 1;
    d.min_il = 0;
    assert!(d.can_draw());
}

#[test]
fn runner_can_advance() {
    let r = runner();
    assert!(r.can_advance());
    let mut r = runner();
    r.locs.clear();
    assert!(r.can_advance());
    r.current_i = 1;
    assert!(!r.can_advance());
    let mut r = runner();
    r.n_evals = vec![1; 1 << 20];
    r.pop_sizes = vec![1; 1 << 20];
    r.init_pop_sizes = vec![1; 1 << 20];
    r.min_fits = vec![1; 1 << 20];
    assert!(!r.can_advance());
}

#[test]
fn niche_occupant_is_never_worse_than_an_offer() {
    let mut pop = full_pop(0.0);
    let offers = [0.25f32, 0.9, 0.1, 0.9, 0.5, -1.0, 0.95, 0.3];
    let mut best = (0.5f32, 2usize);
    for (k, f) in offers.iter().enumerate() {
        let genes = vec![0; 1 + k % 3];
        let len = genes.len();
        pop.try_add(prog(genes, 42, *f));
        if (*f, len) > best {
            best = (*f, len);
        }
        let occ = &pop.progs()[42];
        assert_eq!(basic_cmp_progs(occ, &prog(vec![0; len], 42, *f)) != Ordering::Less, true);
    }
    let occ = &pop.progs()[42];
    assert_eq!(f32::from_bits(occ.fit), best.0);
}

#[test]
fn init_offers_the_extra_programs_to_their_niches() {
    let seen: std::cell::RefCell<Vec<KProg>> = std::cell::RefCell::new(Vec::new());
    let eval = |g: &VLGeno| {
        let complexity = g.raw_seq.len();
        let code: i64 = g.raw_seq.iter().map(|x| *x as i64).sum();
        let n = (code.rem_euclid(8)) as usize;
        let mut preds = [false; FLP_SIZE];
        for (bit, loc) in NICHE_LOCS.iter().enumerate() {
            preds[*loc] = n & (1 << bit) != 0;
        }
        let fit = ((code % 13) as f32 / 13.0).to_bits();
        seen.borrow_mut().push(KProg {
            geno: VLGeno { raw_seq: g.raw_seq.clone() },
            pheno: FLPheno { preds, complexity },
            fit,
        });
        (FLPheno { preds, complexity }, fit)
    };
    let mut pop = BasicPop::new(config(N_NICHES, N_NICHES + 200, 0.0));
    pop.init(&eval);
    let seen = seen.borrow();
    assert_eq!(seen.len(), N_NICHES + 200);
    assert_eq!(pop.progs().len(), N_NICHES);
    let (pushed, offers) = seen.split_at(N_NICHES);
    for o in offers {
        let n = niche_of(&o.pheno.preds);
        assert_ne!(basic_cmp_progs(&pop.progs()[n], o), Ordering::Less);
    }
    for (j, p) in pop.progs().iter().enumerate() {
        assert_ne!(basic_cmp_progs(p, &pushed[j]), Ordering::Less);
        let from_offer = offers
            .iter()
            .any(|o| niche_of(&o.pheno.preds) == j && o.geno.raw_seq == p.geno.raw_seq);
        assert!(p.geno.raw_seq == pushed[j].geno.raw_seq || from_offer);
        if j >= 8 {
            assert_eq!(p.geno.raw_seq, pushed[j].geno.raw_seq);
        }
    }
}

#[test]
fn reports_fall_on_positive_multiples() {
    assert!(!report_due(0, 5));
    assert!(!report_due(3, 5));
    assert!(report_due(5, 5));
    assert!(report_due(10, 5));
    assert!(!report_due(11, 5));
    assert!(report_due(1, 1));
    assert!(!report_due(0, 1));
}
