//! Unification of two-tuple linguistic valuations into other domains.

use vstd::prelude::*;
use crate::domain::Qualitative;
use crate::domain::qualitative::spec_blts;
use crate::utilities::math::rounded_div;
use crate::utilities::math::round_div;
use crate::utilities::math::spec_round_decimals;
use crate::valuation::TwoTuple;
use crate::valuation::Unified;
use crate::valuation::UnifiedError;
use crate::valuation::linguistic::two_tuple::spec_delta_index;

verus! {

/// The position a two-tuple valuation moves to when its domain of `n1`
/// labels is rescaled onto one of `n2` labels: its inverse delta scaled
/// between the index ranges, rounded onto the fixed-point grid.
pub open spec fn spec_rescaled_beta(invd: int, n1: int, n2: int) -> int {
    rounded_div(invd * (n2 - 1), n1 - 1)
}

/// Splitting a non-negative position at its nearest label leaves a
/// translation in `[-0.5, 0.5)`.
proof fn lemma_delta_alpha_range(beta: int)
    requires
        beta >= 0,
    ensures
        0 <= spec_delta_index(beta),
        -50000 <= beta - spec_delta_index(beta) * 100000 < 50000,
{
    assert(0 <= (2 * beta + 100000) / 200000 && -50000 <= beta - ((2 * beta + 100000) / 200000)
        * 100000 < 50000) by (nonlinear_arith)
        requires
            beta >= 0,
    ;
}

/// A valuation's position stays within its domain's index range, and the
/// rescaled position within the target's.
proof fn lemma_rescaled_beta_bounds(invd: int, n1: int, n2: int)
    requires
        0 <= invd <= (n1 - 1) * 100000,
        2 <= n1,
        1 <= n2,
    ensures
        0 <= spec_rescaled_beta(invd, n1, n2) <= (n2 - 1) * 100000,
        spec_delta_index(spec_rescaled_beta(invd, n1, n2)) <= n2 - 1,
{
    assert(0 <= invd * (n2 - 1) <= ((n2 - 1) * 100000) * (n1 - 1)) by (nonlinear_arith)
        requires
            0 <= invd <= (n1 - 1) * 100000,
            2 <= n1,
            1 <= n2,
    ;
    crate::utilities::math::lemma_rounded_div_le(invd * (n2 - 1), n1 - 1, (n2 - 1) * 100000);
    crate::utilities::math::lemma_round_div_magnitude(invd * (n2 - 1), n1 - 1);
    let beta = spec_rescaled_beta(invd, n1, n2);
    crate::utilities::math::lemma_rounded_div_le(beta, 100000, n2 - 1);
}

/// The valuation's position lies within its domain's index range.
proof fn lemma_inverse_delta_bounds(t: TwoTuple)
    requires
        t.wf(),
    ensures
        0 <= t.spec_index() * 100000 + t.spec_alpha() <= (t.spec_domain().len() - 1) * 100000,
{
    assert(t.spec_index() * 100000 + t.spec_alpha() <= (t.spec_domain().len() - 1) * 100000
        && 0 <= t.spec_index() * 100000 + t.spec_alpha()) by (nonlinear_arith)
        requires
            t.spec_index() < t.spec_domain().len(),
            -50000 <= t.spec_alpha() < 50000,
            t.spec_index() == 0 ==> t.spec_alpha() >= 0,
            t.spec_index() == t.spec_domain().len() - 1 ==> t.spec_alpha() <= 0,
    ;
}

impl TwoTuple {
    /// Transforms the valuation into another domain: the position is
    /// rescaled onto the new domain's index range and split into index
    /// and translation again.
    pub fn transform_in_domain(&self, domain: &Qualitative) -> (r: Result<TwoTuple, UnifiedError>)
        requires
            self.wf(),
            2 <= self.spec_domain().len() <= 1000000,
            domain.labels_wf(),
            1 <= domain.spec_labels().len() <= 1000,
        ensures
            match r {
                Ok(t) => spec_blts(domain.spec_labels()) && ({
                    let beta = spec_rescaled_beta(
                        self.spec_index() * 100000 + self.spec_alpha(),
                        self.spec_domain().len() as int,
                        domain.spec_labels().len() as int,
                    );
                    let index = spec_delta_index(beta);
                    t.spec_domain() == domain.spec_labels() && t.spec_index() == index
                        && t.spec_alpha() == spec_round_decimals(beta - index * 100000, 5)
                }),
                Err(e) => e == UnifiedError::NonBLTSDomain && !spec_blts(domain.spec_labels()),
            },
    {
        if !domain.is_blts() {
            return Err(UnifiedError::NonBLTSDomain);
        }
        let n2 = domain.cardinality();
        let n1 = self.domain().cardinality();
        let invd: i64 = self.inverse_delta();
        proof {
            lemma_inverse_delta_bounds(*self);
            lemma_rescaled_beta_bounds(invd as int, n1 as int, n2 as int);
            assert(invd * ((n2 - 1) as i64) <= 100000000000 * 1000) by (nonlinear_arith)
                requires
                    0 <= invd <= 100000000000,
                    0 <= n2 <= 1000,
            ;
        }
        let beta: i64 = round_div(invd * ((n2 - 1) as i64), (n1 - 1) as i64);
        proof {
            lemma_delta_alpha_range(beta as int);
        }
        match TwoTuple::delta(domain, beta) {
            Ok(t) => Ok(t),
            Err(_) => {
                proof {
                    assert(false);
                }
                Err(UnifiedError::NonBLTSDomain)
            },
        }
    }

    /// Unifies the valuation into another domain: the rescaled position
    /// splits its full degree between the nearest label and, when the
    /// translation is not zero, the neighbour it leans toward.
    #[verifier::rlimit(100)]
    pub fn unification_in_domain(&self, domain: &Qualitative) -> (r: Result<
        Unified,
        UnifiedError,
    >)
        requires
            self.wf(),
            2 <= self.spec_domain().len() <= 1000000,
            domain.labels_wf(),
            1 <= domain.spec_labels().len() <= 1000,
        ensures
            match r {
                Ok(u) => spec_blts(domain.spec_labels()) && ({
                    let beta = spec_rescaled_beta(
                        self.spec_index() * 100000 + self.spec_alpha(),
                        self.spec_domain().len() as int,
                        domain.spec_labels().len() as int,
                    );
                    let index = spec_delta_index(beta);
                    let a5 = spec_round_decimals(beta - index * 100000, 5);
                    let away = if a5 >= 0 {
                        a5
                    } else {
                        -a5
                    };
                    u.spec_domain() == domain.spec_labels() && u.spec_measures().len()
                        == domain.spec_labels().len() && u.spec_measures()[index] == 100000 - away
                        && (a5 > 0 ==> u.spec_measures()[index + 1] == away) && (a5 < 0
                        ==> u.spec_measures()[index - 1] == away) && forall|i: int|
                        0 <= i < u.spec_measures().len() && i != index && i != (if a5 > 0 {
                            index + 1
                        } else if a5 < 0 {
                            index - 1
                        } else {
                            index
                        }) ==> #[trigger] u.spec_measures()[i] == 0
                }),
                Err(e) => e == UnifiedError::NonBLTSDomain && !spec_blts(domain.spec_labels()),
            },
    {
        let transformed = match self.transform_in_domain(domain) {
            Ok(t) => t,
            Err(e) => {
                return Err(e);
            },
        };
        let n2 = domain.cardinality();
        let index = transformed.index();
        let a5 = transformed.alpha();
        proof {
            let ghost beta = spec_rescaled_beta(
                self.spec_index() * 100000 + self.spec_alpha(),
                self.spec_domain().len() as int,
                domain.spec_labels().len() as int,
            );
            lemma_inverse_delta_bounds(*self);
            lemma_rescaled_beta_bounds(
                self.spec_index() * 100000 + self.spec_alpha(),
                self.spec_domain().len() as int,
                domain.spec_labels().len() as int,
            );
            lemma_delta_alpha_range(beta);
            // a translation toward a neighbour means that neighbour exists
            assert(a5 > 0 ==> index as int + 1 < domain.spec_labels().len());
            assert(a5 < 0 ==> index as int >= 1);
        }
        let measures = split_degree(n2, index, a5);
        match Unified::new(domain, measures) {
            Ok(u) => Ok(u),
            Err(_) => {
                proof {
                    assert(false);
                }
                Err(UnifiedError::NonBLTSDomain)
            },
        }
    }
}

/// One full degree split at a position between labels: the nearest label
/// receives the remainder and, when the translation is not zero, the
/// neighbour it leans toward receives the translation's magnitude.
fn split_degree(n: usize, index: usize, a5: i64) -> (r: Vec<i64>)
    requires
        index < n,
        -50000 <= a5 < 50000,
        a5 > 0 ==> index + 1 < n,
        a5 < 0 ==> index >= 1,
    ensures
        r@.len() == n,
        forall|i: int| 0 <= i < n ==> 0 <= #[trigger] r@[i] <= 100000,
        ({
            let away = if a5 >= 0 {
                a5 as int
            } else {
                -(a5 as int)
            };
            r@[index as int] == 100000 - away && (a5 > 0 ==> r@[index + 1] == away) && (a5 < 0
                ==> r@[index - 1] == away) && forall|i: int|
                0 <= i < n && i != index && i != (if a5 > 0 {
                    index + 1
                } else if a5 < 0 {
                    index as int - 1
                } else {
                    index as int
                }) ==> #[trigger] r@[i] == 0
        }),
{
    let away: i64 = if a5 >= 0 {
        a5
    } else {
        -a5
    };
    let mut measures: Vec<i64> = Vec::new();
    let mut k: usize = 0;
    while k < n
        invariant
            0 <= k <= n,
            measures@.len() == k,
            forall|i: int| 0 <= i < k ==> #[trigger] measures@[i] == 0,
        decreases n - k,
    {
        measures.push(0);
        k = k + 1;
    }
    measures.set(index, 100000 - away);
    if a5 > 0 {
        measures.set(index + 1, away);
    } else if a5 < 0 {
        measures.set(index - 1, away);
    }
    measures
}

} // verus!
