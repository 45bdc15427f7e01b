//! Unification of single linguistic valuations into other domains.

use vstd::prelude::*;
use crate::domain::Qualitative;
use crate::domain::qualitative::spec_blts;
use crate::valuation::Single;
use crate::valuation::Unified;
use crate::valuation::UnifiedError;

verus! {

/// The label index a valuation moves to when its domain of `n1` labels is
/// rescaled onto one of `n2` labels.
pub open spec fn spec_transformed_index(index: int, n1: int, n2: int) -> int {
    (index * (n2 - 1)) / (n1 - 1)
}

/// Rescaling an index within its domain lands within the target domain.
proof fn lemma_transformed_index_bounds(index: int, n1: int, n2: int)
    requires
        0 <= index < n1,
        2 <= n1,
        1 <= n2,
    ensures
        0 <= spec_transformed_index(index, n1, n2) <= n2 - 1,
{
    assert(0 <= (index * (n2 - 1)) / (n1 - 1) <= n2 - 1) by (nonlinear_arith)
        requires
            0 <= index < n1,
            2 <= n1,
            1 <= n2,
    ;
}

impl Single {
    /// Unifies the valuation into another domain: one full degree at the
    /// label index rescaled onto the new domain, zero everywhere else.
    pub fn unification_in_domain(&self, domain: &Qualitative) -> (r: Result<
        Unified,
        UnifiedError,
    >)
        requires
            self.wf(),
            2 <= self.spec_domain().len() <= 1000,
            domain.labels_wf(),
            1 <= domain.spec_labels().len() <= 1000,
        ensures
            match r {
                Ok(u) => spec_blts(domain.spec_labels()) && u.spec_domain()
                    == domain.spec_labels() && u.spec_measures().len()
                    == domain.spec_labels().len() && {
                    let idx = spec_transformed_index(
                        self.spec_index() as int,
                        self.spec_domain().len() as int,
                        domain.spec_labels().len() as int,
                    );
                    u.spec_measures()[idx] == 100000 && forall|i: int|
                        0 <= i < u.spec_measures().len() && i != idx
                            ==> #[trigger] u.spec_measures()[i] == 0
                },
                Err(e) => e == UnifiedError::NonBLTSDomain && !spec_blts(domain.spec_labels()),
            },
    {
        let n2 = domain.cardinality();
        let n1 = self.domain().cardinality();
        proof {
            lemma_transformed_index_bounds(self.spec_index() as int, n1 as int, n2 as int);
            assert(self.spec_index() * (n2 - 1) <= 1000000) by (nonlinear_arith)
                requires
                    0 <= self.spec_index() < 1000,
                    0 <= n2 <= 1000,
            ;
        }
        let idx: usize = self.index() * (n2 - 1) / (n1 - 1);
        let mut measures: Vec<i64> = Vec::new();
        let mut k: usize = 0;
        while k < n2
            invariant
                0 <= k <= n2,
                n2 == domain.spec_labels().len() <= 1000,
                domain.labels_wf(),
                0 <= idx < n2,
                idx == spec_transformed_index(
                    self.spec_index() as int,
                    self.spec_domain().len() as int,
                    domain.spec_labels().len() as int,
                ),
                measures@.len() == k,
                forall|i: int| 0 <= i < k ==> #[trigger] measures@[i] == 0,
            decreases n2 - k,
        {
            measures.push(0);
            k = k + 1;
        }
        measures.set(idx, 100000);
        Unified::new(domain, measures)
    }

    /// Transforms the valuation into another domain: the label index is
    /// rescaled onto the new domain.
    #[verifier::rlimit(60)]
    pub fn transform_in_domain(&self, domain: &Qualitative) -> (r: Result<Single, UnifiedError>)
        requires
            self.wf(),
            2 <= self.spec_domain().len() <= 1000,
            domain.labels_wf(),
            1 <= domain.spec_labels().len() <= 1000,
        ensures
            match r {
                Ok(s) => spec_blts(domain.spec_labels()) && s.spec_domain()
                    == domain.spec_labels() && s.spec_index() == spec_transformed_index(
                    self.spec_index() as int,
                    self.spec_domain().len() as int,
                    domain.spec_labels().len() as int,
                ),
                Err(e) => e == UnifiedError::NonBLTSDomain && !spec_blts(domain.spec_labels()),
            },
    {
        if !domain.is_blts() {
            return Err(UnifiedError::NonBLTSDomain);
        }
        let n2 = domain.cardinality();
        let n1 = self.domain().cardinality();
        proof {
            lemma_transformed_index_bounds(self.spec_index() as int, n1 as int, n2 as int);
            assert(self.spec_index() * (n2 - 1) <= 1000000) by (nonlinear_arith)
                requires
                    0 <= self.spec_index() < 1000,
                    0 <= n2 <= 1000,
            ;
        }
        let idx: usize = self.index() * (n2 - 1) / (n1 - 1);
        match Single::new_by_label_index(domain, idx) {
            Ok(s) => Ok(s),
            Err(_) => {
                proof {
                    assert(false);
                }
                Err(UnifiedError::NonBLTSDomain)
            },
        }
    }
}

} // verus!
