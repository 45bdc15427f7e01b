//! Transformation of numeric valuations into other quantitative domains.

use vstd::prelude::*;
use crate::domain::Qualitative;
use crate::domain::Quantitative;
use crate::domain::qualitative::spec_blts;
use crate::utilities::math::rounded_div;
use crate::utilities::math::spec_transform_range;
use crate::utilities::math::transform_range;
use crate::valuation::Numeric;
use crate::valuation::Unified;
use crate::valuation::UnifiedError;

verus! {

impl Numeric {
    /// Unifies the valuation into a qualitative domain: the value is
    /// normalized onto the unit range, and each label contributes its
    /// membership degree at that point.
    pub fn unification(&self, domain: &Qualitative) -> (r: Result<Unified, UnifiedError>)
        requires
            self.wf(),
            !self.spec_domain().spec_degenerate(),
            -10000000000000 <= self.spec_domain().inf,
            self.spec_domain().sup <= 10000000000000,
            domain.labels_wf(),
            domain.spec_labels().len() <= 1000,
        ensures
            match r {
                Ok(u) => spec_blts(domain.spec_labels()) && u.spec_domain()
                    == domain.spec_labels() && u.spec_measures().len()
                    == domain.spec_labels().len() && {
                    let v = rounded_div(
                        (self.spec_value() - self.spec_domain().inf) * 100000,
                        self.spec_domain().sup - self.spec_domain().inf,
                    );
                    forall|i: int|
                        0 <= i < domain.spec_labels().len() ==> #[trigger] u.spec_measures()[i]
                            == (#[trigger] domain.spec_labels()[i]).spec_membership().spec_membership_value(
                            v,
                        )
                },
                Err(e) => e == UnifiedError::NonBLTSDomain && !spec_blts(domain.spec_labels()),
            },
    {
        let value: i64 = self.normalize().value();
        let n = domain.cardinality();
        let mut measures: Vec<i64> = Vec::new();
        let mut k: usize = 0;
        while k < n
            invariant
                n == domain.spec_labels().len(),
                domain.labels_wf(),
                domain.spec_labels().len() <= 1000,
                forall|i: int| 0 <= i < k ==> 0 <= #[trigger] measures@[i] <= 100000,
                0 <= value <= 100000,
                value == rounded_div(
                    (self.spec_value() - self.spec_domain().inf) * 100000,
                    self.spec_domain().sup - self.spec_domain().inf,
                ),
                0 <= k <= n,
                measures@.len() == k,
                forall|i: int|
                    0 <= i < k ==> #[trigger] measures@[i] == (
                    #[trigger] domain.spec_labels()[i]).spec_membership().spec_membership_value(
                        value as int,
                    ),
            decreases n - k,
        {
            let degree = domain.get_label_by_index(k).unwrap().membership().membership_value(
                value,
            );
            measures.push(degree);
            k = k + 1;
        }
        Unified::new(domain, measures)
    }
    /// Transforms the valuation into a different quantitative domain: the
    /// value keeps its relative position, mapped linearly between the
    /// ranges.
    pub fn transform_in_domain(&self, domain: &Quantitative) -> (r: Numeric)
        requires
            self.wf(),
            domain.spec_valid(),
            !self.spec_domain().spec_degenerate(),
            -1000000000000000 <= self.spec_domain().inf,
            self.spec_domain().sup <= 1000000000000000,
            -1000000000000000 <= domain.inf,
            domain.sup <= 1000000000000000,
        ensures
            r.spec_domain() == *domain,
            r.spec_value() == spec_transform_range(
                self.spec_value() as int,
                self.spec_domain().inf as int,
                self.spec_domain().sup as int,
                domain.inf as int,
                domain.sup as int,
            ),
            r.wf(),
    {
        let value: i64 = transform_range(
            self.value(),
            self.domain().inf,
            self.domain().sup,
            domain.inf,
            domain.sup,
        );
        match Numeric::new(domain, value) {
            Ok(v) => v,
            Err(_) => {
                proof {
                    assert(false);
                }
                Numeric::new(domain, domain.inf).unwrap()
            },
        }
    }
}

} // verus!
