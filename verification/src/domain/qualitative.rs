//! Qualitative domains: ordered labels with structural predicates.

use vstd::prelude::*;
use crate::domain::Domain;
use crate::domain::Quantitative;
use crate::fuzzy::Label;
use crate::fuzzy::membership::Trapezoidal;
use crate::fuzzy::membership::piecewise::LinearFunction;
use crate::fuzzy::membership::piecewise::PiecewiseLinearFunction;
use crate::fuzzy::membership::piecewise::piecewise_linear_function::Piece;
use crate::fuzzy::membership::piecewise::piecewise_linear_function::lemma_add_to_empty;
use crate::fuzzy::membership::piecewise::piecewise_linear_function::lemma_max_mag;
use crate::fuzzy::membership::piecewise::piecewise_linear_function::mags_total;
use crate::fuzzy::membership::piecewise::piecewise_linear_function::max_mag;
use crate::fuzzy::membership::piecewise::piecewise_linear_function::merge_spec;
use crate::fuzzy::membership::piecewise::piecewise_linear_function::pieces_mag_le;
use crate::fuzzy::membership::trapezoidal::trap_pieces;
use crate::utilities::math::spec_approx_equal;
use crate::utilities::math::approx_equal;

verus! {

/// A qualitative domain: an ordered sequence of labels with pairwise
/// distinct names, assumed to follow ascending position along the
/// assessed axis.
#[derive(Debug, PartialEq)]
pub struct Qualitative {
    labels: Vec<Label>,
}

/// Qualitative errors types.
#[derive(Clone, Debug, PartialEq)]
pub enum QualitativeError {
    /// Two labels carry the same name.
    DuplicateName { name: String },
}

impl Domain for Qualitative {

}

/// Some earlier label carries this name.
pub open spec fn name_seen(s: Seq<Label>, upto: int, n: Seq<char>) -> bool {
    exists|i: int| 0 <= i < upto && (#[trigger] s[i]).spec_name() == n
}

/// The name of the first label that repeats an earlier one, scanning in
/// order.
pub open spec fn first_duplicate(s: Seq<Label>, k: int) -> Option<Seq<char>>
    decreases s.len() - k,
    when 0 <= k <= s.len()
{
    if k >= s.len() {
        None
    } else if name_seen(s, k, s[k].spec_name()) {
        Some(s[k].spec_name())
    } else {
        first_duplicate(s, k + 1)
    }
}

/// Twice the midpoint of a label's plateau: the label's center on the
/// axis, kept doubled so that no rounding intervenes.
pub open spec fn center2(l: Label) -> int {
    l.spec_membership().b + l.spec_membership().c
}

/// Twice the symmetry axis of the domain: twice the middle label's
/// centroid for an odd count, the sum of the two middle labels' centroids
/// for an even one.
pub open spec fn axis2(s: Seq<Label>) -> int {
    if s.len() % 2 == 1 {
        2 * s[s.len() as int / 2].spec_membership().spec_centroid()
    } else {
        s[s.len() as int / 2 - 1].spec_membership().spec_centroid() + s[s.len() as int
            / 2].spec_membership().spec_centroid()
    }
}

/// The mirror image of `t` about half of `r2` coincides with `o` at five
/// decimals, point for point.
pub open spec fn mirrored5(t: Trapezoidal, o: Trapezoidal, r2: int) -> bool {
    spec_approx_equal(r2 - t.d, o.a as int, 5) && spec_approx_equal(r2 - t.c, o.b as int, 5)
        && spec_approx_equal(r2 - t.b, o.c as int, 5) && spec_approx_equal(
        r2 - t.a,
        o.d as int,
        5,
    )
}

/// Every label pair `(i, n-1-i)` mirrors about the domain's axis; for an
/// odd count the middle label must mirror itself.
pub open spec fn spec_symmetrical(s: Seq<Label>) -> bool {
    forall|i: int| 0 <= i < s.len() ==> mirrored5(
        (#[trigger] s[i]).spec_membership(),
        s[s.len() - 1 - i].spec_membership(),
        axis2(s),
    )
}

/// Consecutive label centers are equally spaced, at five decimals.
pub open spec fn spec_uniform(s: Seq<Label>) -> bool {
    forall|i: int| 0 <= i < s.len() - 2 ==> spec_approx_equal(
        center2(s[i + 1]) - center2(#[trigger] s[i]),
        center2(s[i + 2]) - center2(s[i + 1]),
        5,
    )
}

/// The piecewise forms of the labels, merged in order into the empty
/// function.
pub open spec fn domain_fold(acc: Seq<Piece>, rest: Seq<Label>) -> Seq<Piece>
    decreases rest.len(),
{
    if rest.len() == 0 {
        acc
    } else {
        domain_fold(
            merge_spec(acc, trap_pieces(rest[0].spec_membership())),
            rest.drop_first(),
        )
    }
}

/// The merged piecewise form of the whole domain.
pub open spec fn domain_pieces(s: Seq<Label>) -> Seq<Piece> {
    domain_fold(Seq::<Piece>::empty(), s)
}

/// The constant function one over the unit range: what a Ruspini
/// partition's labels must sum to.
pub open spec fn unit_partition() -> Seq<Piece> {
    seq![
        (
            Quantitative { inf: 0, sup: 100000 },
            LinearFunction { slope: 0, intercept: 100000 },
        ),
    ]
}

/// Every label is triangular.
pub open spec fn spec_triangular(s: Seq<Label>) -> bool {
    forall|i: int| 0 <= i < s.len() ==> (#[trigger] s[i]).spec_membership().b
        == s[i].spec_membership().c
}

/// The domain is triangular, odd and Ruspini: an odd count of triangular
/// labels whose membership degrees sum to one over the unit range.
pub open spec fn spec_tor(s: Seq<Label>) -> bool {
    s.len() % 2 == 1 && spec_triangular(s) && domain_pieces(s) == unit_partition()
}

/// The domain is a basic linguistic term set: triangular, odd and
/// Ruspini, and also symmetric and uniform.
pub open spec fn spec_blts(s: Seq<Label>) -> bool {
    spec_tor(s) && spec_symmetrical(s) && spec_uniform(s)
}

impl Qualitative {
    /// The labels, in their given order.
    pub closed spec fn spec_labels(self) -> Seq<Label> {
        self.labels@
    }

    /// Every label's membership function is well formed.
    pub open spec fn labels_wf(self) -> bool {
        forall|i: int| 0 <= i < self.spec_labels().len() ==> (#[trigger] self.spec_labels()[i]).spec_membership().wf()
    }

    /// Builds a domain; rejects a repeated label name, reporting the
    /// first name that repeats an earlier one.
    pub fn new(labels: Vec<Label>) -> (r: Result<Self, QualitativeError>)
        ensures
            match r {
                Ok(d) => d.spec_labels() == labels@ && first_duplicate(labels@, 0) is None,
                Err(e) => match e {
                    QualitativeError::DuplicateName { name } => first_duplicate(labels@, 0)
                        == Some(name@),
                },
            },
    {
        let n = labels.len();
        let mut j: usize = 1;
        if n == 0 {
            return Ok(Self { labels });
        }
        proof {
            assert(!name_seen(labels@, 0, labels@[0].spec_name()));
        }
        while j < n
            invariant
                n == labels@.len(),
                1 <= j <= n,
                first_duplicate(labels@, 0) == first_duplicate(labels@, j as int),
            decreases n - j,
        {
            let mut i: usize = 0;
            let mut seen = false;
            while i < j
                invariant
                    n == labels@.len(),
                    0 <= i <= j < n,
                    seen == name_seen(labels@, i as int, labels@[j as int].spec_name()),
                decreases j - i,
            {
                if *labels[i].name() == *labels[j].name() {
                    proof {
                        assert(labels@[i as int].spec_name() == labels@[j as int].spec_name());
                        assert(name_seen(labels@, i as int + 1, labels@[j as int].spec_name()));
                    }
                    seen = true;
                } else {
                    proof {
                        if name_seen(labels@, i as int + 1, labels@[j as int].spec_name()) {
                            let w = choose|w: int|
                                0 <= w < i + 1 && labels@[w].spec_name() == labels@[j as int].spec_name();
                            if w == i {
                                assert(false);
                            }
                        }
                    }
                }
                i = i + 1;
            }
            if seen {
                return Err(
                    QualitativeError::DuplicateName { name: labels[j].name().clone() },
                );
            }
            j = j + 1;
        }
        Ok(Self { labels })
    }

    /// Returns the number of labels.
    pub fn cardinality(&self) -> (r: usize)
        ensures
            r == self.spec_labels().len(),
    {
        self.labels.len()
    }

    /// Checks whether the domain contains a label with the given name.
    pub fn contains_label(&self, name: &str) -> (r: bool)
        ensures
            r == name_seen(self.spec_labels(), self.spec_labels().len() as int, name@),
    {
        self.label_index(name).is_some()
    }

    /// Returns the index of the first label with the given name, if any.
    pub fn label_index(&self, name: &str) -> (r: Option<usize>)
        ensures
            match r {
                Some(i) => i < self.spec_labels().len() && self.spec_labels()[i as int].spec_name()
                    == name@ && !name_seen(self.spec_labels(), i as int, name@),
                None => !name_seen(self.spec_labels(), self.spec_labels().len() as int, name@),
            },
    {
        let owned: String = name.to_owned();
        let n = self.labels.len();
        let mut i: usize = 0;
        while i < n
            invariant
                n == self.spec_labels().len(),
                0 <= i <= n,
                owned@ == name@,
                !name_seen(self.spec_labels(), i as int, name@),
            decreases n - i,
        {
            if *self.labels[i].name() == owned {
                return Some(i);
            }
            proof {
                if name_seen(self.spec_labels(), i as int + 1, name@) {
                    let w = choose|w: int|
                        0 <= w < i + 1 && self.spec_labels()[w].spec_name() == name@;
                    if w == i {
                        assert(false);
                    }
                }
            }
            i = i + 1;
        }
        None
    }

    /// Returns the label at `index`, if it exists.
    pub fn get_label_by_index(&self, index: usize) -> (r: Option<&Label>)
        ensures
            match r {
                Some(l) => index < self.spec_labels().len() && *l == self.spec_labels()[index as int],
                None => index >= self.spec_labels().len(),
            },
    {
        if index < self.labels.len() {
            Some(&self.labels[index])
        } else {
            None
        }
    }

    /// Returns the first label with the given name, if any.
    pub fn get_label_by_name(&self, name: &str) -> (r: Option<&Label>)
        ensures
            match r {
                Some(l) => exists|i: int|
                    0 <= i < self.spec_labels().len() && *l == (#[trigger] self.spec_labels()[i])
                        && l.spec_name() == name@,
                None => !name_seen(self.spec_labels(), self.spec_labels().len() as int, name@),
            },
    {
        match self.label_index(name) {
            Some(index) => Some(&self.labels[index]),
            None => None,
        }
    }

    /// Returns the labels' names, in order.
    pub fn get_labels_names(&self) -> (r: Vec<String>)
        ensures
            r@.len() == self.spec_labels().len(),
            forall|i: int| 0 <= i < self.spec_labels().len() ==> (#[trigger] r@[i])@
                == self.spec_labels()[i].spec_name(),
    {
        crate::fuzzy::label::get_labels_names(&self.labels)
    }

    /// Checks whether the domain has an odd number of labels.
    pub fn is_odd(&self) -> (r: bool)
        ensures
            r == (self.spec_labels().len() % 2 == 1),
    {
        self.labels.len() % 2 != 0
    }

    /// Checks whether every label's membership function is triangular.
    pub fn is_triangular(&self) -> (r: bool)
        ensures
            r == spec_triangular(self.spec_labels()),
    {
        let n = self.labels.len();
        let mut i: usize = 0;
        while i < n
            invariant
                n == self.spec_labels().len(),
                0 <= i <= n,
                forall|k: int| 0 <= k < i ==> (#[trigger] self.spec_labels()[k]).spec_membership().b
                    == self.spec_labels()[k].spec_membership().c,
            decreases n - i,
        {
            if !self.labels[i].membership().is_triangular() {
                return false;
            }
            i = i + 1;
        }
        true
    }

    /// Merges every label's piecewise form into one piecewise linear
    /// function: where labels overlap, their membership degrees add.
    pub fn to_piecewise(&self) -> (r: PiecewiseLinearFunction)
        requires
            self.labels_wf(),
            self.spec_labels().len() <= 1000,
        ensures
            r@ == domain_pieces(self.spec_labels()),
            r.wf(),
    {
        let ghost s = self.spec_labels();
        let mut result = PiecewiseLinearFunction::new();
        let n = self.labels.len();
        let mut k: usize = 0;
        proof {
            assert(s.skip(0) =~= s);
            lemma_max_mag(result@);
        }
        while k < n
            invariant
                n == s.len() <= 1000,
                s == self.spec_labels(),
                self.labels_wf(),
                0 <= k <= n,
                result.wf(),
                max_mag(result@) <= 3000000000000 * k,
                domain_fold(result@, s.skip(k as int)) == domain_fold(Seq::<Piece>::empty(), s),
            decreases n - k,
        {
            let lbl_plf = self.labels[k].membership().to_piecewise();
            proof {
                lemma_mags_total_bound(lbl_plf@, 1000000000000);
                assert(s.skip(k as int)[0] == s[k as int]);
                assert(s.skip(k as int).drop_first() =~= s.skip(k as int + 1));
            }
            let merged = result.merge(&lbl_plf);
            result = merged;
            k = k + 1;
        }
        proof {
            assert(s.skip(n as int) =~= Seq::<Label>::empty());
        }
        result
    }

    /// Checks whether the domain is a Ruspini fuzzy partition: merging
    /// every label's piecewise form yields exactly the constant one over
    /// the unit range, so the membership degrees sum to one everywhere.
    pub fn is_fuzzy_partition(&self) -> (r: bool)
        requires
            self.labels_wf(),
            self.spec_labels().len() <= 1000,
        ensures
            r == (domain_pieces(self.spec_labels()) == unit_partition()),
    {
        let mut expected = PiecewiseLinearFunction::new();
        let one = LinearFunction::new(0, 100000);
        proof {
            lemma_add_to_empty(Quantitative { inf: 0, sup: 100000 }, one);
            lemma_max_mag(expected@);
        }
        let _ = expected.add(0, 100000, one);
        proof {
            assert(expected@ =~= unit_partition());
        }
        let merged = self.to_piecewise();
        merged == expected
    }

    /// Checks whether the domain is triangular, odd and Ruspini.
    pub fn is_tor(&self) -> (r: bool)
        requires
            self.labels_wf(),
            self.spec_labels().len() <= 1000,
        ensures
            r == spec_tor(self.spec_labels()),
    {
        self.is_odd() && self.is_triangular() && self.is_fuzzy_partition()
    }

    /// Checks whether the domain is symmetric: every label pair
    /// `(i, n-1-i)` mirrors about the domain's axis — the middle label's
    /// centroid for an odd count, the midpoint of the two middle labels'
    /// centroids for an even one.
    pub fn is_symmetrical(&self) -> (r: bool)
        requires
            self.labels_wf(),
        ensures
            r == spec_symmetrical(self.spec_labels()),
    {
        let ghost s = self.spec_labels();
        let n = self.labels.len();
        if n == 0 {
            return true;
        }
        let axis_double: i64 = if n % 2 == 1 {
            2 * self.labels[n / 2].membership().centroid()
        } else {
            self.labels[n / 2 - 1].membership().centroid()
                + self.labels[n / 2].membership().centroid()
        };
        let mut i: usize = 0;
        while i < n
            invariant
                n == s.len(),
                s == self.spec_labels(),
                self.labels_wf(),
                0 <= i <= n,
                n >= 1,
                -40000000 <= axis_double <= 40000000,
                axis_double == axis2(s),
                forall|k: int| 0 <= k < i ==> mirrored5(
                    (#[trigger] s[k]).spec_membership(),
                    s[s.len() - 1 - k].spec_membership(),
                    axis2(s),
                ),
            decreases n - i,
        {
            let t: Trapezoidal = *self.labels[i].membership();
            let o: Trapezoidal = *self.labels[n - 1 - i].membership();
            let ok = approx_equal(axis_double - t.d, o.a, 5) && approx_equal(
                axis_double - t.c,
                o.b,
                5,
            ) && approx_equal(axis_double - t.b, o.c, 5) && approx_equal(
                axis_double - t.a,
                o.d,
                5,
            );
            if !ok {
                return false;
            }
            i = i + 1;
        }
        true
    }

    /// Checks whether the domain is uniform: consecutive label centers
    /// are equally spaced, at five decimals.
    pub fn is_uniform(&self) -> (r: bool)
        requires
            self.labels_wf(),
        ensures
            r == spec_uniform(self.spec_labels()),
    {
        let ghost s = self.spec_labels();
        let n = self.labels.len();
        if n < 3 {
            return true;
        }
        let mut i: usize = 0;
        while i < n - 2
            invariant
                n == s.len(),
                s == self.spec_labels(),
                self.labels_wf(),
                0 <= i <= n - 2,
                n >= 3,
                forall|k: int| 0 <= k < i ==> spec_approx_equal(
                    center2(s[k + 1]) - center2(#[trigger] s[k]),
                    center2(s[k + 2]) - center2(s[k + 1]),
                    5,
                ),
            decreases n - 2 - i,
        {
            let m0: i64 = self.labels[i].membership().b + self.labels[i].membership().c;
            let m1: i64 = self.labels[i + 1].membership().b + self.labels[i + 1].membership().c;
            let m2: i64 = self.labels[i + 2].membership().b + self.labels[i + 2].membership().c;
            if !approx_equal(m1 - m0, m2 - m1, 5) {
                return false;
            }
            i = i + 1;
        }
        true
    }

    /// Checks whether the domain is a basic linguistic term set:
    /// triangular, odd and Ruspini, and also symmetric and uniform.
    pub fn is_blts(&self) -> (r: bool)
        requires
            self.labels_wf(),
            self.spec_labels().len() <= 1000,
        ensures
            r == spec_blts(self.spec_labels()),
    {
        self.is_tor() && self.is_symmetrical() && self.is_uniform()
    }
}

impl Clone for Qualitative {
    /// Cloning copies every label.
    fn clone(&self) -> (r: Self)
        ensures
            r.spec_labels() == self.spec_labels(),
    {
        let n = self.labels.len();
        let mut labels: Vec<Label> = Vec::new();
        let mut k: usize = 0;
        while k < n
            invariant
                n == self.spec_labels().len(),
                0 <= k <= n,
                labels@ == self.spec_labels().take(k as int),
            decreases n - k,
        {
            labels.push(self.labels[k].clone());
            proof {
                assert(labels@ =~= self.spec_labels().take(k as int + 1));
            }
            k = k + 1;
        }
        proof {
            assert(self.spec_labels().take(n as int) =~= self.spec_labels());
        }
        Self { labels }
    }
}

/// A uniform coefficient bound gives a total bounded by the count times
/// the bound.
pub proof fn lemma_mags_total_bound(s: Seq<Piece>, m: int)
    requires
        pieces_mag_le(s, m),
        m >= 0,
    ensures
        0 <= mags_total(s) <= s.len() * m,
    decreases s.len(),
{
    if s.len() == 0 {
    } else {
        assert(pieces_mag_le(s.drop_first(), m)) by {
            assert forall|i: int|
                0 <= i < s.drop_first().len() implies crate::fuzzy::membership::piecewise::piecewise_linear_function::fn_mag(
                (#[trigger] s.drop_first()[i]).1,
            ) <= m by {
                assert(s.drop_first()[i] == s[i + 1]);
            }
        }
        lemma_mags_total_bound(s.drop_first(), m);
        assert(s.len() * m == (s.len() - 1) * m + m) by (nonlinear_arith);
    }
}

} // verus!
