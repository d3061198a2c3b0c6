//! The experiment runner: every combination of the configured settings, one
//! after the other.
//!
//! The runner's counter is read as a mixed-radix number whose digits, least
//! significant first, index the compare methods, the mutation methods, the
//! initial population sizes, the population sizes, the evaluation counts,
//! the least fitnesses and the data locations.
use super::FitType;
use vstd::arithmetic::div_mod::{
    lemma_div_denominator, lemma_fundamental_div_mod, lemma_fundamental_div_mod_converse,
};
use vstd::arithmetic::mul::{lemma_mul_is_associative, lemma_mul_strict_inequality};
use vstd::prelude::*;

verus! {

/// One experiment configuration.
#[derive(Debug)]
pub struct PConfig {
    pub loc: String,
    pub min_fit: FitType,
    pub n_eval: usize,
    pub pop_size: usize,
    pub init_pop_size: usize,
    pub mutation_method: usize,
    pub compare_method: usize,
}

/// The settings to run every combination of, and how many combinations
/// have been handed out.
pub struct EARunner {
    pub locs: Vec<String>,
    pub min_fits: Vec<FitType>,
    pub n_evals: Vec<usize>,
    pub pop_sizes: Vec<usize>,
    pub init_pop_sizes: Vec<usize>,
    pub mutation_methods: Vec<usize>,
    pub compare_methods: Vec<usize>,
    pub current_i: usize,
}

/// Product of the first `k` radices.
pub open spec fn prefix_prod(d: Seq<int>, k: int) -> int
    decreases k,
{
    if k <= 0 {
        1
    } else {
        prefix_prod(d, k - 1) * d[k - 1]
    }
}

/// Digit `k` of `i` in the mixed radix `d`, least significant first.
pub open spec fn digit(d: Seq<int>, i: int, k: int) -> int {
    (i / prefix_prod(d, k)) % d[k]
}

/// `i` and `j` have the same digits in the mixed radix `d`.
pub open spec fn same_digits(d: Seq<int>, i: int, j: int) -> bool {
    forall|k: int| 0 <= k < d.len() ==> digit(d, i, k) == #[trigger] digit(d, j, k)
}

/// The digits of `i` in the mixed radix `d` are `c`.
pub open spec fn digits_are(d: Seq<int>, i: int, c: Seq<int>) -> bool {
    forall|k: int| 0 <= k < d.len() ==> #[trigger] digit(d, i, k) == c[k]
}

/// Every entry of `c` is a digit below its radix in `d`.
pub open spec fn digit_tuple(d: Seq<int>, c: Seq<int>) -> bool {
    &&& c.len() == d.len()
    &&& forall|k: int| 0 <= k < d.len() ==> 0 <= #[trigger] c[k] < d[k]
}

/// Every radix is positive.
pub open spec fn radices_positive(d: Seq<int>) -> bool {
    forall|k: int| 0 <= k < d.len() ==> #[trigger] d[k] > 0
}

proof fn lemma_prefix_prod_positive(d: Seq<int>, k: int)
    requires
        radices_positive(d),
        0 <= k <= d.len(),
    ensures
        prefix_prod(d, k) > 0,
    decreases k,
{
    if k > 0 {
        lemma_prefix_prod_positive(d, k - 1);
        assert(d[k - 1] > 0);
        vstd::arithmetic::mul::lemma_mul_strictly_positive(prefix_prod(d, k - 1), d[k - 1]);
    }
}

proof fn lemma_prefix_prod_shift(d: Seq<int>, k: int)
    requires
        d.len() > 0,
        0 <= k < d.len(),
    ensures
        prefix_prod(d, k + 1) == d[0] * prefix_prod(d.drop_first(), k),
    decreases k,
{
    let rest = d.drop_first();
    if k > 0 {
        lemma_prefix_prod_shift(d, k - 1);
        lemma_mul_is_associative(d[0], prefix_prod(rest, k - 1), d[k]);
        assert(rest[k - 1] == d[k]);
        assert(prefix_prod(rest, k) == prefix_prod(rest, k - 1) * rest[k - 1]);
        assert(prefix_prod(d, k + 1) == prefix_prod(d, k) * d[k]);
    } else {
        assert(prefix_prod(d, 0) == 1);
        assert(prefix_prod(rest, 0) == 1);
        assert(prefix_prod(d, 1) == prefix_prod(d, 0) * d[0]);
        assert(prefix_prod(d, 1) == d[0]);
    }
}

proof fn lemma_digit_shift(d: Seq<int>, i: int, k: int)
    requires
        radices_positive(d),
        0 <= i,
        0 <= k < d.len() - 1,
    ensures
        digit(d, i, k + 1) == digit(d.drop_first(), i / d[0], k),
{
    lemma_prefix_prod_shift(d, k);
    lemma_prefix_prod_positive(d.drop_first(), k);
    assert(d[0] > 0);
    let p = prefix_prod(d.drop_first(), k);
    lemma_div_denominator(i, d[0], p);
    assert((i / d[0]) / p == i / (d[0] * p));
    assert(prefix_prod(d, k + 1) == d[0] * p);
    assert(d.drop_first()[k] == d[k + 1]);
    assert(digit(d, i, k + 1) == (i / (d[0] * p)) % d[k + 1]);
    assert(digit(d.drop_first(), i / d[0], k) == ((i / d[0]) / p) % d[k + 1]);
}

proof fn lemma_digits_injective(d: Seq<int>, i: int, j: int)
    requires
        radices_positive(d),
        0 <= i < prefix_prod(d, d.len() as int),
        0 <= j < prefix_prod(d, d.len() as int),
        forall|k: int| 0 <= k < d.len() ==> digit(d, i, k) == #[trigger] digit(d, j, k),
    ensures
        i == j,
    decreases d.len(),
{
    if d.len() > 0 {
        let d0 = d[0];
        let rest = d.drop_first();
        let n = d.len() - 1;
        assert(d0 > 0);
        lemma_prefix_prod_shift(d, n);
        lemma_prefix_prod_positive(rest, n);
        assert(radices_positive(rest)) by {
            assert forall|k: int| 0 <= k < rest.len() implies #[trigger] rest[k] > 0 by {
                assert(rest[k] == d[k + 1]);
            }
        }
        assert forall|k: int| 0 <= k < rest.len() implies digit(rest, i / d0, k)
            == #[trigger] digit(rest, j / d0, k) by {
            lemma_digit_shift(d, i, k);
            lemma_digit_shift(d, j, k);
            assert(digit(d, i, k + 1) == digit(d, j, k + 1));
        }
        assert(i / d0 < prefix_prod(rest, n)) by {
            lemma_fundamental_div_mod(i, d0);
            if i / d0 >= prefix_prod(rest, n) {
                vstd::arithmetic::mul::lemma_mul_inequality(prefix_prod(rest, n), i / d0, d0);
                vstd::arithmetic::mul::lemma_mul_is_commutative(d0, i / d0);
                vstd::arithmetic::mul::lemma_mul_is_commutative(d0, prefix_prod(rest, n));
            }
        }
        assert(j / d0 < prefix_prod(rest, n)) by {
            lemma_fundamental_div_mod(j, d0);
            if j / d0 >= prefix_prod(rest, n) {
                vstd::arithmetic::mul::lemma_mul_inequality(prefix_prod(rest, n), j / d0, d0);
                vstd::arithmetic::mul::lemma_mul_is_commutative(d0, j / d0);
                vstd::arithmetic::mul::lemma_mul_is_commutative(d0, prefix_prod(rest, n));
            }
        }
        vstd::arithmetic::div_mod::lemma_div_pos_is_pos(i, d0);
        vstd::arithmetic::div_mod::lemma_div_pos_is_pos(j, d0);
        lemma_digits_injective(rest, i / d0, j / d0);
        assert(digit(d, i, 0) == digit(d, j, 0));
        assert(prefix_prod(d, 0) == 1);
        assert(i / 1 == i && j / 1 == j);
        lemma_fundamental_div_mod(i, d0);
        lemma_fundamental_div_mod(j, d0);
    }
}

proof fn lemma_digits_surjective(d: Seq<int>, c: Seq<int>) -> (i: int)
    requires
        radices_positive(d),
        c.len() == d.len(),
        forall|k: int| 0 <= k < d.len() ==> 0 <= #[trigger] c[k] < d[k],
    ensures
        0 <= i < prefix_prod(d, d.len() as int),
        forall|k: int| 0 <= k < d.len() ==> #[trigger] digit(d, i, k) == c[k],
    decreases d.len(),
{
    if d.len() == 0 {
        0
    } else {
        let d0 = d[0];
        let rest = d.drop_first();
        let n = d.len() - 1;
        assert(d0 > 0);
        assert(radices_positive(rest)) by {
            assert forall|k: int| 0 <= k < rest.len() implies #[trigger] rest[k] > 0 by {
                assert(rest[k] == d[k + 1]);
            }
        }
        assert forall|k: int| 0 <= k < rest.len() implies 0 <= #[trigger] c.drop_first()[k]
            < rest[k] by {
            assert(c.drop_first()[k] == c[k + 1]);
            assert(rest[k] == d[k + 1]);
        }
        let q = lemma_digits_surjective(rest, c.drop_first());
        let i = q * d0 + c[0];
        assert(0 <= c[0] < d0);
        lemma_fundamental_div_mod_converse(i, d0, q, c[0]);
        lemma_prefix_prod_shift(d, n);
        assert(i < prefix_prod(d, d.len() as int)) by {
            lemma_mul_strict_inequality(q, prefix_prod(rest, n), d0);
            vstd::arithmetic::mul::lemma_mul_is_commutative(d0, prefix_prod(rest, n));
            vstd::arithmetic::mul::lemma_mul_inequality(q + 1, prefix_prod(rest, n), d0);
            vstd::arithmetic::mul::lemma_mul_is_distributive_add_other_way(d0, q, 1);
        }
        assert(0 <= i) by {
            vstd::arithmetic::mul::lemma_mul_nonnegative(q, d0);
        }
        assert forall|k: int| 0 <= k < d.len() implies #[trigger] digit(d, i, k) == c[k] by {
            if k == 0 {
                assert(prefix_prod(d, 0) == 1);
                assert(i / 1 == i);
            } else {
                lemma_digit_shift(d, i, k - 1);
                assert(digit(rest, q, k - 1) == c.drop_first()[k - 1]);
            }
        }
        i
    }
}

/// Law of mixed-radix counting: with positive radices, the counters below
/// the product of the radices and the digit tuples correspond one to one.
/// Two such counters with the same digits are equal, and every tuple of
/// digits, each below its radix, is the digits of such a counter.
pub proof fn lemma_mixed_radix_bijection(d: Seq<int>)
    requires
        radices_positive(d),
    ensures
        forall|i: int, j: int|
            0 <= i < prefix_prod(d, d.len() as int) && 0 <= j < prefix_prod(d, d.len() as int)
                && #[trigger] same_digits(d, i, j) ==> i == j,
        forall|c: Seq<int>|
            #[trigger] digit_tuple(d, c) ==> exists|i: int|
                0 <= i < prefix_prod(d, d.len() as int) && #[trigger] digits_are(d, i, c),
{
    assert forall|i: int, j: int|
        0 <= i < prefix_prod(d, d.len() as int) && 0 <= j < prefix_prod(d, d.len() as int)
            && #[trigger] same_digits(d, i, j) implies i == j by {
        lemma_digits_injective(d, i, j);
    }
    assert forall|c: Seq<int>| #[trigger] digit_tuple(d, c) implies exists|i: int|
        0 <= i < prefix_prod(d, d.len() as int) && #[trigger] digits_are(d, i, c) by {
        let i = lemma_digits_surjective(d, c);
        assert(digits_are(d, i, c));
    }
}

impl EARunner {
    /// The radices: the numbers of compare methods, mutation methods,
    /// initial population sizes, population sizes, evaluation counts, least
    /// fitnesses and data locations.
    pub open spec fn dims(&self) -> Seq<int> {
        seq![
            self.compare_methods.len() as int,
            self.mutation_methods.len() as int,
            self.init_pop_sizes.len() as int,
            self.pop_sizes.len() as int,
            self.n_evals.len() as int,
            self.min_fits.len() as int,
            self.locs.len() as int,
        ]
    }

    /// Number of combinations of the settings.
    pub open spec fn total(&self) -> int {
        prefix_prod(self.dims(), 7)
    }

    /// `c` is the combination of settings that counter `i` stands for.
    pub open spec fn config_at(&self, i: int, c: PConfig) -> bool {
        let d = self.dims();
        &&& c.compare_method == self.compare_methods@[digit(d, i, 0)]
        &&& c.mutation_method == self.mutation_methods@[digit(d, i, 1)]
        &&& c.init_pop_size == self.init_pop_sizes@[digit(d, i, 2)]
        &&& c.pop_size == self.pop_sizes@[digit(d, i, 3)]
        &&& c.n_eval == self.n_evals@[digit(d, i, 4)]
        &&& c.min_fit == self.min_fits@[digit(d, i, 5)]
        &&& c.loc@ == self.locs@[digit(d, i, 6)]@
    }

    /// The settings are the same in both runners.
    pub open spec fn same_settings(&self, other: &EARunner) -> bool {
        &&& self.locs@ == other.locs@
        &&& self.min_fits@ == other.min_fits@
        &&& self.n_evals@ == other.n_evals@
        &&& self.pop_sizes@ == other.pop_sizes@
        &&& self.init_pop_sizes@ == other.init_pop_sizes@
        &&& self.mutation_methods@ == other.mutation_methods@
        &&& self.compare_methods@ == other.compare_methods@
    }

    /// The runner can count on: every product of the first radices fits in
    /// `usize`, the counter can be incremented, and a runner without any
    /// combination is asked only once.
    pub open spec fn can_step(&self) -> bool {
        &&& forall|k: int| 0 <= k <= 7 ==> #[trigger] prefix_prod(self.dims(), k) <= usize::MAX
        &&& self.current_i < usize::MAX
        &&& self.total() == 0 ==> self.current_i == 0
    }

    /// Whether `next_config` can be called: see `can_step`.
    pub fn can_advance(&self) -> (r: bool)
        ensures
            r == self.can_step(),
    {
        let ghost d = self.dims();
        let lens = [
            self.compare_methods.len(),
            self.mutation_methods.len(),
            self.init_pop_sizes.len(),
            self.pop_sizes.len(),
            self.n_evals.len(),
            self.min_fits.len(),
            self.locs.len(),
        ];
        proof {
            assert(forall|k: int| 0 <= k < 7 ==> lens@[k] == d[k]);
        }
        let mut prod: usize = 1;
        let mut k: usize = 0;
        while k < 7
            invariant
                d == self.dims(),
                forall|j: int| 0 <= j < 7 ==> lens@[j] == d[j],
                k <= 7,
                prod == prefix_prod(d, k as int),
                forall|j: int| 0 <= j <= k ==> #[trigger] prefix_prod(d, j) <= usize::MAX,
            decreases 7 - k,
        {
            match prod.checked_mul(lens[k]) {
                None => {
                    assert(prefix_prod(d, k + 1) == prod * lens[k as int]);
                    return false;
                },
                Some(p) => {
                    prod = p;
                },
            }
            k = k + 1;
        }
        if self.current_i == usize::MAX {
            return false;
        }
        prod != 0 || self.current_i == 0
    }

    /// Hands out the next combination of settings, or `None` once every
    /// combination has been handed out; the counter moves on either way.
    pub fn next_config(&mut self) -> (r: Option<PConfig>)
        requires
            old(self).can_step(),
        ensures
            final(self).current_i == old(self).current_i + 1,
            final(self).same_settings(old(self)),
            r is None <==> old(self).current_i == old(self).total(),
            r matches Some(c) ==> old(self).config_at(old(self).current_i as int, c),
    {
        let ghost d = self.dims();
        let i = self.current_i;
        self.current_i = self.current_i + 1;
        let d0 = self.compare_methods.len();
        let d1 = self.mutation_methods.len();
        let d2 = self.init_pop_sizes.len();
        let d3 = self.pop_sizes.len();
        let d4 = self.n_evals.len();
        let d5 = self.min_fits.len();
        let d6 = self.locs.len();
        proof {
            reveal_with_fuel(prefix_prod, 8);
            assert(prefix_prod(d, 1) == d0);
            assert(prefix_prod(d, 2) == d0 * d1);
            assert(prefix_prod(d, 3) == d0 * d1 * d2);
            assert(prefix_prod(d, 4) == d0 * d1 * d2 * d3);
            assert(prefix_prod(d, 5) == d0 * d1 * d2 * d3 * d4);
            assert(prefix_prod(d, 6) == d0 * d1 * d2 * d3 * d4 * d5);
            assert(prefix_prod(d, 7) == d0 * d1 * d2 * d3 * d4 * d5 * d6);
        }
        let p1 = d0;
        let p2 = p1 * d1;
        let p3 = p2 * d2;
        let p4 = p3 * d3;
        let p5 = p4 * d4;
        let p6 = p5 * d5;
        let p7 = p6 * d6;
        if i == p7 {
            return None;
        }
        proof {
            assert(p7 != 0);
            assert(p6 > 0 && d6 > 0) by (nonlinear_arith)
                requires
                    p7 == p6 * d6,
                    p7 != 0,
            ;
            assert(p5 > 0 && d5 > 0) by (nonlinear_arith)
                requires
                    p6 == p5 * d5,
                    p6 != 0,
            ;
            assert(p4 > 0 && d4 > 0) by (nonlinear_arith)
                requires
                    p5 == p4 * d4,
                    p5 != 0,
            ;
            assert(p3 > 0 && d3 > 0) by (nonlinear_arith)
                requires
                    p4 == p3 * d3,
                    p4 != 0,
            ;
            assert(p2 > 0 && d2 > 0) by (nonlinear_arith)
                requires
                    p3 == p2 * d2,
                    p3 != 0,
            ;
            assert(p1 > 0 && d1 > 0) by (nonlinear_arith)
                requires
                    p2 == p1 * d1,
                    p2 != 0,
            ;
        }
        let i0 = (i / 1) % d0;
        let i1 = (i / p1) % d1;
        let i2 = (i / p2) % d2;
        let i3 = (i / p3) % d3;
        let i4 = (i / p4) % d4;
        let i5 = (i / p5) % d5;
        let i6 = (i / p6) % d6;
        let compare_method = self.compare_methods[i0];
        let mutation_method = self.mutation_methods[i1];
        let init_pop_size = self.init_pop_sizes[i2];
        let pop_size = self.pop_sizes[i3];
        let n_eval = self.n_evals[i4];
        let min_fit = self.min_fits[i5];
        let loc = self.locs[i6].clone();
        Some(
            PConfig { compare_method, mutation_method, init_pop_size, pop_size, n_eval, min_fit, loc },
        )
    }
}

/// Law of the runner: as the counter runs from zero to the number of
/// combinations, `next_config` hands out each combination of settings (one
/// index into each list of settings) exactly once.
pub proof fn lemma_runner_covers_each_combination_once(r: &EARunner)
    requires
        radices_positive(r.dims()),
    ensures
        forall|i: int, j: int|
            0 <= i < r.total() && 0 <= j < r.total() && #[trigger] same_digits(r.dims(), i, j)
                ==> i == j,
        forall|c: Seq<int>|
            #[trigger] digit_tuple(r.dims(), c) ==> exists|i: int|
                0 <= i < r.total() && #[trigger] digits_are(r.dims(), i, c),
{
    lemma_mixed_radix_bijection(r.dims());
}

/// Whether a report is due after evaluation `eval_i` when reports come
/// every `interval` evaluations: at each positive multiple of `interval`.
pub fn report_due(eval_i: usize, interval: usize) -> (r: bool)
    requires
        interval > 0,
    ensures
        r == (eval_i % interval == 0 && eval_i > 0),
{
    eval_i % interval == 0 && eval_i > 0
}

} // verus!
