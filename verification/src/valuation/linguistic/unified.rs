//! Unified linguistic valuations: one membership degree per label of a
//! basic linguistic term set.

use vstd::prelude::*;
use crate::domain::Qualitative;
use crate::domain::qualitative::spec_blts;
use crate::fuzzy::Label;
use crate::utilities::math::rounded_div;
use crate::utilities::math::round_div;
use crate::valuation::Valuation;
use crate::valuation::linguistic::Linguistic;

verus! {

/// A unified linguistic valuation: a membership degree in `[0, 1]` for
/// each label of a basic linguistic term set.
#[derive(Debug, PartialEq)]
pub struct Unified {
    domain: Qualitative,
    measures: Vec<i64>,
}

/// Unified errors types.
#[derive(Clone, Debug, PartialEq)]
pub enum UnifiedError {
    /// The domain is not a basic linguistic term set.
    NonBLTSDomain,
    /// The measure count differs from the label count.
    InvalidMeasures { measures: Vec<i64> },
    /// A measure lies outside `[0, 1]`.
    InvalidMeasureValue { measure: i64 },
}

impl Linguistic for Unified {

}

impl Valuation for Unified {

}

/// Every measure is a degree in `[0, 1]`.
pub open spec fn measures_in_range(s: Seq<i64>) -> bool {
    forall|i: int| 0 <= i < s.len() ==> 0 <= #[trigger] s[i] <= 100000
}

/// The first measure outside `[0, 1]`, scanning in order.
pub open spec fn first_out_of_range(s: Seq<i64>, k: int) -> Option<i64>
    decreases s.len() - k,
    when 0 <= k <= s.len()
{
    if k >= s.len() {
        None
    } else if s[k] < 0 || s[k] > 100000 {
        Some(s[k])
    } else {
        first_out_of_range(s, k + 1)
    }
}

/// The sum of all measures.
pub open spec fn measures_sum(s: Seq<i64>) -> int
    decreases s.len(),
{
    if s.len() == 0 {
        0
    } else {
        measures_sum(s.drop_last()) + s.last()
    }
}

/// The index-weighted sum of all measures.
pub open spec fn measures_weighted(s: Seq<i64>) -> int
    decreases s.len(),
{
    if s.len() == 0 {
        0
    } else {
        measures_weighted(s.drop_last()) + s.last() * (s.len() - 1)
    }
}

/// The value that resumes a measure vector: the measure-weighted mean
/// label index, on the fixed-point grid, zero when every measure is zero.
pub open spec fn spec_chi(s: Seq<i64>) -> int {
    if measures_sum(s) > 0 {
        rounded_div(measures_weighted(s) * 100000, measures_sum(s))
    } else {
        0
    }
}

/// Prefix sums stay within the count times the largest degree, and grow
/// one measure at a time.
proof fn lemma_measure_sums(s: Seq<i64>, k: int)
    requires
        0 <= k <= s.len(),
        measures_in_range(s),
    ensures
        0 <= measures_sum(s.take(k)) <= k * 100000,
        0 <= measures_weighted(s.take(k)) <= k * k * 100000,
        k < s.len() ==> measures_sum(s.take(k + 1)) == measures_sum(s.take(k)) + s[k],
        k < s.len() ==> measures_weighted(s.take(k + 1)) == measures_weighted(s.take(k)) + s[k]
            * k,
    decreases k,
{
    if k == 0 {
        assert(s.take(0) =~= Seq::<i64>::empty());
        if k < s.len() {
            assert(s.take(1).drop_last() =~= Seq::<i64>::empty());
            assert(s.take(1).last() == s[0]);
        }
    } else {
        lemma_measure_sums(s, k - 1);
        assert(s.take(k).drop_last() =~= s.take(k - 1));
        assert(s.take(k).last() == s[k - 1]);
        if k < s.len() {
            assert(s.take(k + 1).drop_last() =~= s.take(k));
            assert(s.take(k + 1).last() == s[k]);
        }
        assert(0 <= measures_weighted(s.take(k)) <= k * k * 100000) by (nonlinear_arith)
            requires
                0 <= measures_weighted(s.take(k - 1)) <= (k - 1) * (k - 1) * 100000,
                measures_weighted(s.take(k)) == measures_weighted(s.take(k - 1)) + s.take(k).last()
                    * (k - 1),
                0 <= s.take(k).last() <= 100000,
                k >= 1,
        ;
    }
}

impl Unified {
    /// The valuation's domain, as its labels.
    pub closed spec fn spec_domain(self) -> Seq<Label> {
        self.domain.spec_labels()
    }

    /// The valuation's measures.
    pub closed spec fn spec_measures(self) -> Seq<i64> {
        self.measures@
    }

    /// One degree per label, each in `[0, 1]`, over a basic linguistic
    /// term set.
    pub open spec fn wf(self) -> bool {
        self.spec_measures().len() == self.spec_domain().len() && measures_in_range(
            self.spec_measures(),
        ) && spec_blts(self.spec_domain())
    }

    /// Creates a new valuation: the domain must be a basic linguistic
    /// term set, the measures must count one per label, and every measure
    /// must be a degree in `[0, 1]`.
    pub fn new(domain: &Qualitative, measures: Vec<i64>) -> (r: Result<Self, UnifiedError>)
        requires
            domain.labels_wf(),
            domain.spec_labels().len() <= 1000,
        ensures
            match r {
                Ok(v) => spec_blts(domain.spec_labels()) && measures@.len()
                    == domain.spec_labels().len() && measures_in_range(measures@)
                    && v.spec_domain() == domain.spec_labels() && v.spec_measures() == measures@
                    && v.wf(),
                Err(e) => match e {
                    UnifiedError::NonBLTSDomain => !spec_blts(domain.spec_labels()),
                    UnifiedError::InvalidMeasures { measures: m } => spec_blts(
                        domain.spec_labels(),
                    ) && m@ == measures@ && measures@.len() != domain.spec_labels().len(),
                    UnifiedError::InvalidMeasureValue { measure } => spec_blts(
                        domain.spec_labels(),
                    ) && measures@.len() == domain.spec_labels().len() && first_out_of_range(
                        measures@,
                        0,
                    ) == Some(measure) && !measures_in_range(measures@),
                },
            },
    {
        if !domain.is_blts() {
            return Err(UnifiedError::NonBLTSDomain);
        }
        if measures.len() != domain.cardinality() {
            return Err(UnifiedError::InvalidMeasures { measures });
        }
        let n = measures.len();
        let mut k: usize = 0;
        while k < n
            invariant
                n == measures@.len(),
                0 <= k <= n,
                spec_blts(domain.spec_labels()),
                measures@.len() == domain.spec_labels().len(),
                first_out_of_range(measures@, 0) == first_out_of_range(measures@, k as int),
            decreases n - k,
        {
            let m = measures[k];
            if m < 0 || m > 100000 {
                proof {
                    assert(first_out_of_range(measures@, k as int) == Some(m));
                    assert(!measures_in_range(measures@));
                }
                return Err(UnifiedError::InvalidMeasureValue { measure: m });
            }
            k = k + 1;
        }
        proof {
            assert forall|i: int| 0 <= i < measures@.len() implies 0 <= #[trigger] measures@[i]
                <= 100000 by {
                lemma_first_out_of_range_none(measures@, 0, i);
            }
        }
        Ok(Self { domain: domain.clone(), measures })
    }

    /// Returns the valuation's measures.
    pub fn measures(&self) -> (r: &Vec<i64>)
        ensures
            r@ == self.spec_measures(),
    {
        &self.measures
    }

    /// Returns the valuation's domain.
    pub fn domain(&self) -> (r: &Qualitative)
        ensures
            r.spec_labels() == self.spec_domain(),
    {
        &self.domain
    }

    /// The value that resumes the valuation: the measure-weighted mean
    /// label index, on the fixed-point grid, zero when every measure is
    /// zero.
    pub fn chi(&self) -> (r: i64)
        requires
            self.wf(),
            self.spec_measures().len() <= 1000,
        ensures
            r == spec_chi(self.spec_measures()),
    {
        let ghost s = self.spec_measures();
        let n = self.measures.len();
        let mut numerator: i64 = 0;
        let mut denominator: i64 = 0;
        let mut k: usize = 0;
        proof {
            assert(s.take(0) =~= Seq::<i64>::empty());
        }
        while k < n
            invariant
                n == s.len() <= 1000,
                s == self.spec_measures(),
                measures_in_range(s),
                0 <= k <= n,
                numerator == measures_weighted(s.take(k as int)),
                denominator == measures_sum(s.take(k as int)),
                0 <= numerator <= 100000000000,
                0 <= denominator <= 100000000,
            decreases n - k,
        {
            proof {
                lemma_measure_sums(s, k as int);
                assert(k as int * k as int <= 1000000) by (nonlinear_arith)
                    requires
                        0 <= k < 1000,
                ;
                assert((k as int + 1) * (k as int + 1) * 100000 <= 100000000000)
                    by (nonlinear_arith)
                    requires
                        0 <= k < 1000,
                ;
                lemma_measure_sums(s, k as int + 1);
            }
            let m = self.measures[k];
            numerator = numerator + m * (k as i64);
            denominator = denominator + m;
            k = k + 1;
        }
        proof {
            assert(s.take(n as int) =~= s);
        }
        if denominator > 0 {
            round_div(numerator * 100000, denominator)
        } else {
            0
        }
    }
}

/// When the scan found no measure out of range up to the end, every
/// measure is in range.
proof fn lemma_first_out_of_range_none(s: Seq<i64>, k: int, i: int)
    requires
        0 <= k <= i < s.len(),
        first_out_of_range(s, k) is None,
    ensures
        0 <= s[i] <= 100000,
    decreases i - k,
{
    if k < i {
        lemma_first_out_of_range_none(s, k + 1, i);
    }
}

} // verus!
