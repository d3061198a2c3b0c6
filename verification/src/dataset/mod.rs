//! The data set that programs are developed and evaluated on: a fixed
//! number of rows, each a feature vector and a label, and the row ranges
//! used for training (`..tr_end`) and cross validation (`tr_end..cv_end`).
//!
//! The feature vectors are carried as values of a type parameter: the data
//! set only moves them between rows.
pub mod params;
pub mod samples;

use crate::evosys::rng::shuffle_usize;
use params::NSAMP_TOT;
use vstd::arithmetic::div_mod::{lemma_add_mod_noop, lemma_mod_bound, lemma_small_mod, lemma_sub_mod_noop};
use vstd::prelude::*;

pub use samples::{DataLabelCV, DataLabelTR, DataY, DataYFull, SampleY};

verus! {

/// A label.
pub type YType = bool;

/// Label of a blank row.
pub const DEFAULT_Y: YType = false;

/// The label a record's label column holds: `0` is `false` and `1` is
/// `true`; any other text is not a label.
pub open spec fn label_of_text(s: Seq<char>) -> Option<YType> {
    if s == seq!['0'] {
        Some(false)
    } else if s == seq!['1'] {
        Some(true)
    } else {
        None
    }
}

/// Reads a record's label column.
pub fn label_from_text(s: &str) -> (r: Option<YType>)
    ensures
        r == label_of_text(s@),
{
    if s.unicode_len() != 1 {
        return None;
    }
    let c = s.get_char(0);
    proof {
        if s@.len() == 1 {
            assert(s@ == seq![s@[0]]);
        }
    }
    if c == '0' {
        Some(false)
    } else if c == '1' {
        Some(true)
    } else {
        None
    }
}

/// A data set of `NSAMP_TOT` rows with features of type `X`.
#[derive(Copy, Clone)]
pub struct KDataSet<X> {
    /// `inds[k]` is the row that row `k` was moved to by the last shuffle.
    pub inds: [usize; NSAMP_TOT],
    pub x: [X; NSAMP_TOT],
    pub y: [YType; NSAMP_TOT],
    pub tr_end: usize,
    pub cv_end: usize,
}

/// `s` with every entry moved `n` places on, going round.
pub open spec fn shifted<T>(s: Seq<T>, n: int) -> Seq<T> {
    Seq::new(s.len(), |j: int| s[(j - n) % (s.len() as int)])
}

/// The row that moves to row `j` when `m` rows are shifted `n` places on.
pub open spec fn pre_shift(j: int, n: int, m: int) -> int {
    (j - n) % m
}

/// `p` reorders `n` rows: each of `0..n` once.
pub open spec fn is_permutation(p: Seq<usize>, n: nat) -> bool {
    &&& p.len() == n
    &&& p.no_duplicates()
    &&& forall|k: int| 0 <= k < p.len() ==> #[trigger] p[k] < n
}

/// Law of shifting: shifting by `a` and then by `b` is shifting by
/// `a + b`, and shifting by the number of rows changes nothing.
pub proof fn lemma_shift_compose<T>(s: Seq<T>, a: int, b: int)
    requires
        s.len() > 0,
    ensures
        shifted(shifted(s, a), b) == shifted(s, a + b),
        shifted(s, s.len() as int) == s,
{
    let n = s.len() as int;
    assert forall|j: int| 0 <= j < n implies #[trigger] shifted(shifted(s, a), b)[j] == shifted(
        s,
        a + b,
    )[j] by {
        lemma_mod_bound(j - b, n);
        lemma_sub_mod_noop(j - b, a, n);
        lemma_mod_bound(a, n);
        vstd::arithmetic::div_mod::lemma_mod_twice(j - b, n);
        assert((((j - b) % n) - a) % n == (j - b - a) % n) by {
            lemma_sub_mod_noop(j - b, a, n);
            vstd::arithmetic::div_mod::lemma_sub_mod_noop_right(j - b, a, n);
            vstd::arithmetic::div_mod::lemma_add_mod_noop_right(-a, j - b, n);
            vstd::arithmetic::div_mod::lemma_add_mod_noop(j - b, -a, n);
            vstd::arithmetic::div_mod::lemma_mod_twice(j - b, n);
        }
    }
    assert(shifted(shifted(s, a), b) =~= shifted(s, a + b));
    assert forall|j: int| 0 <= j < n implies #[trigger] shifted(s, n)[j] == s[j] by {
        vstd::arithmetic::div_mod::lemma_mod_sub_multiples_vanish(j, n);
        lemma_small_mod(j as nat, n as nat);
    }
    assert(shifted(s, n) =~= s);
}

/// Law of reordering: moving each entry `k` of `s` to position `p[k]`, for
/// a permutation `p`, keeps every entry as often as before.
pub proof fn lemma_permuted_multiset<T>(s: Seq<T>, t: Seq<T>, p: Seq<usize>)
    requires
        t.len() == s.len(),
        is_permutation(p, s.len()),
        forall|k: int| 0 <= k < s.len() ==> t[#[trigger] p[k] as int] == s[k],
    ensures
        t.to_multiset() =~= s.to_multiset(),
    decreases s.len(),
{
    broadcast use vstd::seq_lib::group_to_multiset_ensures;
    broadcast use vstd::multiset::group_multiset_axioms;

    if s.len() == 0 {
        assert(t.to_multiset() =~= vstd::multiset::Multiset::empty());
        assert(s.to_multiset() =~= vstd::multiset::Multiset::empty());
    } else {
        let n = s.len() - 1;
        let j = p[n] as int;
        let s2 = s.drop_last();
        let t2 = t.remove(j);
        let p2 = Seq::new(
            n as nat,
            |k: int|
                if p[k] > j {
                    (p[k] - 1) as usize
                } else {
                    p[k]
                },
        );
        assert forall|k: int| 0 <= k < n implies p[k] != j by {
            assert(p[k] != p[n]);
        }
        assert(p2.no_duplicates()) by {
            assert forall|a: int, b: int| 0 <= a < p2.len() && 0 <= b < p2.len() && a != b implies p2[a]
                != p2[b] by {
                assert(p[a] != p[b]);
                assert(p[a] != j && p[b] != j);
            }
        }
        assert forall|k: int| 0 <= k < p2.len() implies #[trigger] p2[k] < n by {
            assert(p[k] < s.len());
            assert(p[k] != j);
        }
        assert forall|k: int| 0 <= k < s2.len() implies t2[#[trigger] p2[k] as int] == s2[k] by {
            assert(t[p[k] as int] == s[k]);
            assert(p[k] != j);
        }
        lemma_permuted_multiset(s2, t2, p2);
        assert(s2.push(s.last()) =~= s);
        assert(t[j] == s[n]);
        assert(t.to_multiset().count(t[j]) > 0) by {
            assert(t.contains(t[j]));
        }
        assert(t.to_multiset() =~= t2.to_multiset().insert(t[j]));
    }
}

proof fn lemma_pre_shift_unique(i: int, n: int, m: int)
    requires
        0 <= i < m,
        0 <= n,
    ensures
        forall|j: int|
            0 <= j < m ==> (#[trigger] pre_shift(j, n, m) == i <==> j == (i + n) % m),
{
    assert forall|j: int| 0 <= j < m implies (#[trigger] pre_shift(j, n, m) == i <==> j == (i + n)
        % m) by {
        lemma_mod_bound(j - n, m);
        lemma_mod_bound(i + n, m);
        if j == (i + n) % m {
            vstd::arithmetic::div_mod::lemma_sub_mod_noop_right(i + n, n, m);
            lemma_sub_mod_noop(i + n, n, m);
            lemma_small_mod(i as nat, m as nat);
            assert((j - n) % m == ((i + n) - n) % m) by {
                lemma_sub_mod_noop(j, n, m);
                lemma_sub_mod_noop(i + n, n, m);
                vstd::arithmetic::div_mod::lemma_mod_twice(i + n, m);
                lemma_small_mod(j as nat, m as nat);
            }
        }
        if (j - n) % m == i {
            assert(j % m == (i + n) % m) by {
                lemma_add_mod_noop(j - n, n, m);
                vstd::arithmetic::div_mod::lemma_add_mod_noop(i, n, m);
                lemma_small_mod(i as nat, m as nat);
            }
            lemma_small_mod(j as nat, m as nat);
        }
    }
}

impl<X: Copy> KDataSet<X> {
    /// A data set whose rows all have features `blank` and label `false`,
    /// with empty training and validation ranges.
    pub fn new_blank(blank: X) -> (r: KDataSet<X>)
        ensures
            forall|k: int| 0 <= k < NSAMP_TOT ==> #[trigger] r.x@[k] == blank,
            forall|k: int| 0 <= k < NSAMP_TOT ==> !#[trigger] r.y@[k],
            forall|k: int| 0 <= k < NSAMP_TOT ==> #[trigger] r.inds@[k] == 0,
            r.tr_end == 0,
            r.cv_end == 0,
    {
        KDataSet {
            inds: [0; NSAMP_TOT],
            x: [blank; NSAMP_TOT],
            y: [DEFAULT_Y; NSAMP_TOT],
            tr_end: 0,
            cv_end: 0,
        }
    }

    /// A data set whose first `xs.len()` rows hold the records read, in
    /// order, and whose other rows are blank; the first `ntr` rows train and
    /// the next `ncv` validate. There must be room for every record, and the
    /// two ranges must fit in the rows.
    pub fn from_records(blank: X, xs: &Vec<X>, ys: &Vec<YType>, ntr: usize, ncv: usize) -> (r:
        KDataSet<X>)
        requires
            ntr + ncv <= NSAMP_TOT,
            xs.len() == ys.len(),
            xs.len() <= NSAMP_TOT,
        ensures
            forall|k: int| 0 <= k < xs.len() ==> #[trigger] r.x@[k] == xs@[k],
            forall|k: int| 0 <= k < ys.len() ==> #[trigger] r.y@[k] == ys@[k],
            forall|k: int| xs.len() <= k < NSAMP_TOT ==> #[trigger] r.x@[k] == blank,
            forall|k: int| ys.len() <= k < NSAMP_TOT ==> !#[trigger] r.y@[k],
            forall|k: int| 0 <= k < NSAMP_TOT ==> #[trigger] r.inds@[k] == 0,
            r.tr_end == ntr,
            r.cv_end == ntr + ncv,
    {
        let mut data = Self::new_blank(blank);
        let n = xs.len();
        let mut i: usize = 0;
        while i < n
            invariant
                n == xs.len(),
                n == ys.len(),
                n <= NSAMP_TOT,
                i <= n,
                forall|k: int| 0 <= k < i ==> #[trigger] data.x@[k] == xs@[k],
                forall|k: int| 0 <= k < i ==> #[trigger] data.y@[k] == ys@[k],
                forall|k: int| i <= k < NSAMP_TOT ==> #[trigger] data.x@[k] == blank,
                forall|k: int| i <= k < NSAMP_TOT ==> !#[trigger] data.y@[k],
                forall|k: int| 0 <= k < NSAMP_TOT ==> #[trigger] data.inds@[k] == 0,
            decreases n - i,
        {
            data.x[i] = xs[i];
            data.y[i] = ys[i];
            i = i + 1;
        }
        data.tr_end = ntr;
        data.cv_end = ntr + ncv;
        data
    }

    /// Whether the training range is empty.
    pub fn is_empty(&self) -> (r: bool)
        ensures
            r == (self.tr_end == 0),
    {
        self.tr_end == 0
    }

    /// The number of rows.
    pub fn len(&self) -> (r: usize)
        ensures
            r == NSAMP_TOT,
    {
        NSAMP_TOT
    }

    /// Copies row `from` of `other` into row `to`.
    pub fn copy_row(&mut self, other: &KDataSet<X>, to: usize, from: usize)
        requires
            to < NSAMP_TOT,
            from < NSAMP_TOT,
        ensures
            final(self).x@ == old(self).x@.update(to as int, other.x@[from as int]),
            final(self).y@ == old(self).y@.update(to as int, other.y@[from as int]),
            final(self).inds@ == old(self).inds@,
            final(self).tr_end == old(self).tr_end,
            final(self).cv_end == old(self).cv_end,
    {
        self.y[to] = other.y[from];
        self.x[to] = other.x[from];
    }

    /// Moves every row `n` places on, going round; the row ranges and the
    /// shuffle record stay.
    pub fn shift_by(&mut self, n: usize)
        requires
            n <= usize::MAX - NSAMP_TOT,
        ensures
            final(self).x@ == shifted(old(self).x@, n as int),
            final(self).y@ == shifted(old(self).y@, n as int),
            final(self).inds@ == old(self).inds@,
            final(self).tr_end == old(self).tr_end,
            final(self).cv_end == old(self).cv_end,
    {
        let temp = *self;
        let len = self.len();
        let ghost m = NSAMP_TOT as int;
        let mut i: usize = 0;
        while i < len
            invariant
                len == NSAMP_TOT,
                m == NSAMP_TOT,
                n <= usize::MAX - NSAMP_TOT,
                i <= len,
                self.inds@ == temp.inds@,
                self.tr_end == temp.tr_end,
                self.cv_end == temp.cv_end,
                forall|j: int|
                    0 <= j < m ==> #[trigger] self.x@[j] == if pre_shift(j, n as int, m) < i {
                        temp.x@[pre_shift(j, n as int, m)]
                    } else {
                        temp.x@[j]
                    },
                forall|j: int|
                    0 <= j < m ==> #[trigger] self.y@[j] == if pre_shift(j, n as int, m) < i {
                        temp.y@[pre_shift(j, n as int, m)]
                    } else {
                        temp.y@[j]
                    },
            decreases len - i,
        {
            let t = (i + n) % len;
            proof {
                lemma_pre_shift_unique(i as int, n as int, m);
                lemma_mod_bound((i + n) as int, m);
            }
            self.copy_row(&temp, t, i);
            i = i + 1;
        }
        proof {
            assert forall|j: int| 0 <= j < m implies #[trigger] pre_shift(j, n as int, m) < i by {
                lemma_mod_bound(j - n, m);
            }
            assert(self.x@ =~= shifted(temp.x@, n as int));
            assert(self.y@ =~= shifted(temp.y@, n as int));
        }
    }

    /// Moves the rows into a random order: row `k` goes to row `inds[k]`,
    /// `inds` being a random permutation; the row ranges stay.
    pub fn shuffle(&mut self)
        ensures
            is_permutation(final(self).inds@, NSAMP_TOT as nat),
            forall|k: int|
                0 <= k < NSAMP_TOT ==> #[trigger] final(self).x@[final(self).inds@[k] as int]
                    == old(self).x@[k] && final(self).y@[final(self).inds@[k] as int]
                    == old(self).y@[k],
            final(self).x@.to_multiset() == old(self).x@.to_multiset(),
            final(self).y@.to_multiset() == old(self).y@.to_multiset(),
            final(self).tr_end == old(self).tr_end,
            final(self).cv_end == old(self).cv_end,
    {
        let temp = *self;
        let mut ids: Vec<usize> = Vec::new();
        let mut c: usize = 0;
        while c < NSAMP_TOT
            invariant
                c <= NSAMP_TOT,
                ids@ == Seq::new(c as nat, |k: int| k as usize),
            decreases NSAMP_TOT - c,
        {
            ids.push(c);
            c = c + 1;
        }
        let ghost initial = ids@;
        shuffle_usize(&mut ids);
        proof {
            broadcast use vstd::seq_lib::group_to_multiset_ensures;
            assert(initial.no_duplicates());
            initial.lemma_multiset_has_no_duplicates();
            assert forall|v: usize| ids@.to_multiset().contains(v) implies ids@.to_multiset().count(v)
                == 1 by {
                assert(initial.to_multiset().contains(v));
            }
            ids@.lemma_multiset_has_no_duplicates_conv();
            assert(ids@.to_multiset().len() == initial.to_multiset().len());
            assert(ids@.len() == initial.len());
            assert forall|k: int| 0 <= k < ids@.len() implies #[trigger] ids@[k] < NSAMP_TOT by {
                assert(ids@.contains(ids@[k]));
                assert(initial.to_multiset().count(ids@[k]) > 0);
                assert(initial.contains(ids@[k]));
            }
            assert(is_permutation(ids@, NSAMP_TOT as nat));
        }
        let mut orig_i: usize = 0;
        while orig_i < NSAMP_TOT
            invariant
                orig_i <= NSAMP_TOT,
                is_permutation(ids@, NSAMP_TOT as nat),
                self.tr_end == temp.tr_end,
                self.cv_end == temp.cv_end,
                forall|k: int|
                    0 <= k < orig_i ==> #[trigger] self.inds@[k] == ids@[k] && self.x@[ids@[k] as int]
                        == temp.x@[k] && self.y@[ids@[k] as int] == temp.y@[k],
            decreases NSAMP_TOT - orig_i,
        {
            let new_i = ids[orig_i];
            let ghost before = *self;
            self.copy_row(&temp, new_i, orig_i);
            self.inds[orig_i] = new_i;
            proof {
                assert forall|k: int| 0 <= k < orig_i + 1 implies #[trigger] self.inds@[k] == ids@[k]
                    && self.x@[ids@[k] as int] == temp.x@[k] && self.y@[ids@[k] as int]
                    == temp.y@[k] by {
                    if k < orig_i {
                        assert(before.inds@[k] == ids@[k]);
                        assert(ids@[k] != ids@[orig_i as int]);
                    }
                }
            }
            orig_i = orig_i + 1;
        }
        proof {
            assert(self.inds@ == ids@);
            lemma_permuted_multiset(temp.x@, self.x@, ids@);
            lemma_permuted_multiset(temp.y@, self.y@, ids@);
        }
    }
}

} // verus!
