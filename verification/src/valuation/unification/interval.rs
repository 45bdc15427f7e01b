//! Transformation of interval valuations into other quantitative domains.

use vstd::prelude::*;
use crate::domain::Qualitative;
use crate::domain::Quantitative;
use crate::domain::qualitative::spec_blts;
use crate::utilities::math::rounded_div;
use crate::utilities::math::spec_transform_range;
use crate::utilities::math::transform_range;
use crate::valuation::Interval;
use crate::valuation::Unified;
use crate::valuation::UnifiedError;

verus! {

impl Interval {
    /// Unifies the valuation into a qualitative domain: both ends are
    /// normalized onto the unit range, and each label contributes the
    /// membership degree its shape reports over that normalized range.
    pub fn unification(&self, domain: &Qualitative) -> (r: Result<Unified, UnifiedError>)
        requires
            self.wf(),
            !self.spec_domain().spec_degenerate(),
            -10000000000000 <= self.spec_domain().inf,
            self.spec_domain().sup <= 10000000000000,
            domain.labels_wf(),
            domain.spec_labels().len() <= 1000,
        ensures
            match r {
                Ok(u) => spec_blts(domain.spec_labels()) && u.spec_domain()
                    == domain.spec_labels() && u.spec_measures().len()
                    == domain.spec_labels().len() && {
                    let lo = rounded_div(
                        (self.spec_min() - self.spec_domain().inf) * 100000,
                        self.spec_domain().sup - self.spec_domain().inf,
                    );
                    let hi = rounded_div(
                        (self.spec_max() - self.spec_domain().inf) * 100000,
                        self.spec_domain().sup - self.spec_domain().inf,
                    );
                    forall|i: int|
                        0 <= i < domain.spec_labels().len() ==> #[trigger] u.spec_measures()[i]
                            == (#[trigger] domain.spec_labels()[i]).spec_membership().spec_max_min(
                            lo,
                            hi,
                        )
                },
                Err(e) => e == UnifiedError::NonBLTSDomain && !spec_blts(domain.spec_labels()),
            },
    {
        let normalized = self.normalize();
        let (lo, hi) = normalized.value();
        let n = domain.cardinality();
        let mut measures: Vec<i64> = Vec::new();
        let mut k: usize = 0;
        while k < n
            invariant
                n == domain.spec_labels().len(),
                domain.labels_wf(),
                domain.spec_labels().len() <= 1000,
                forall|i: int| 0 <= i < k ==> 0 <= #[trigger] measures@[i] <= 100000,
                0 <= lo <= 100000,
                0 <= hi <= 100000,
                lo == rounded_div(
                    (self.spec_min() - self.spec_domain().inf) * 100000,
                    self.spec_domain().sup - self.spec_domain().inf,
                ),
                hi == rounded_div(
                    (self.spec_max() - self.spec_domain().inf) * 100000,
                    self.spec_domain().sup - self.spec_domain().inf,
                ),
                0 <= k <= n,
                measures@.len() == k,
                forall|i: int|
                    0 <= i < k ==> #[trigger] measures@[i] == (
                    #[trigger] domain.spec_labels()[i]).spec_membership().spec_max_min(
                        lo as int,
                        hi as int,
                    ),
            decreases n - k,
        {
            let degree = domain.get_label_by_index(k).unwrap().membership().max_min(lo, hi);
            measures.push(degree);
            k = k + 1;
        }
        Unified::new(domain, measures)
    }
    /// Transforms the valuation into a different quantitative domain:
    /// both ends keep their relative positions, mapped linearly between
    /// the ranges.
    pub fn transform_in_domain(&self, domain: &Quantitative) -> (r: Interval)
        requires
            self.wf(),
            domain.spec_valid(),
            !self.spec_domain().spec_degenerate(),
            -1000000000000000 <= self.spec_domain().inf,
            self.spec_domain().sup <= 1000000000000000,
            -1000000000000000 <= domain.inf,
            domain.sup <= 1000000000000000,
        ensures
            r.spec_domain() == *domain,
            r.spec_min() == spec_transform_range(
                self.spec_min() as int,
                self.spec_domain().inf as int,
                self.spec_domain().sup as int,
                domain.inf as int,
                domain.sup as int,
            ),
            r.spec_max() == spec_transform_range(
                self.spec_max() as int,
                self.spec_domain().inf as int,
                self.spec_domain().sup as int,
                domain.inf as int,
                domain.sup as int,
            ),
            r.wf(),
    {
        let source = self.domain();
        let min: i64 = transform_range(
            self.value().0,
            source.inf,
            source.sup,
            domain.inf,
            domain.sup,
        );
        let max: i64 = transform_range(
            self.value().1,
            source.inf,
            source.sup,
            domain.inf,
            domain.sup,
        );
        proof {
            lemma_transform_monotone(
                self.spec_min() as int,
                self.spec_max() as int,
                source.inf as int,
                source.sup as int,
                domain.inf as int,
                domain.sup as int,
            );
        }
        match Interval::new(domain, min, max) {
            Ok(v) => v,
            Err(_) => {
                proof {
                    assert(false);
                }
                Interval::new(domain, domain.inf, domain.sup).unwrap()
            },
        }
    }
}

/// The linear range mapping is monotone in the value.
proof fn lemma_transform_monotone(
    v1: int,
    v2: int,
    source_min: int,
    source_max: int,
    target_min: int,
    target_max: int,
)
    requires
        source_min < source_max,
        target_min <= target_max,
        v1 <= v2,
    ensures
        spec_transform_range(v1, source_min, source_max, target_min, target_max)
            <= spec_transform_range(v2, source_min, source_max, target_min, target_max),
{
    assert(((v1 - source_min) * (target_max - target_min)) / (source_max - source_min) <= ((v2
        - source_min) * (target_max - target_min)) / (source_max - source_min))
        by (nonlinear_arith)
        requires
            source_min < source_max,
            target_min <= target_max,
            v1 <= v2,
    ;
}

} // verus!
