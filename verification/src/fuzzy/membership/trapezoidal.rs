//! Trapezoidal membership functions: the atomic fuzzy-set shape.

use vstd::prelude::*;
use crate::domain::Quantitative;
use crate::fuzzy::membership::Membership;
use crate::fuzzy::membership::piecewise::LinearFunction;
use crate::fuzzy::membership::piecewise::PiecewiseLinearFunction;
use crate::fuzzy::membership::piecewise::piecewise_linear_function::Piece;
use crate::fuzzy::membership::piecewise::piecewise_linear_function::added;
use crate::fuzzy::membership::piecewise::piecewise_linear_function::fn_mag;
use crate::fuzzy::membership::piecewise::piecewise_linear_function::lemma_add_to_empty;
use crate::fuzzy::membership::piecewise::piecewise_linear_function::lemma_added_disjoint;
use crate::fuzzy::membership::piecewise::piecewise_linear_function::lemma_simplified_single;
use crate::fuzzy::membership::piecewise::piecewise_linear_function::lemma_simplified_three;
use crate::fuzzy::membership::piecewise::piecewise_linear_function::lemma_simplified_three_merge;
use crate::fuzzy::membership::piecewise::piecewise_linear_function::lemma_simplified_two;
use crate::fuzzy::membership::piecewise::piecewise_linear_function::lemma_simplified_two_merge;
use crate::fuzzy::membership::piecewise::piecewise_linear_function::max_mag;
use crate::fuzzy::membership::piecewise::piecewise_linear_function::merge_pair;
use crate::fuzzy::membership::piecewise::piecewise_linear_function::mergeable;
use crate::fuzzy::membership::piecewise::piecewise_linear_function::pieces_mag_le;
use crate::fuzzy::membership::piecewise::piecewise_linear_function::pieces_wf;
use crate::fuzzy::membership::piecewise::piecewise_linear_function::seq_insert;
use crate::fuzzy::membership::piecewise::piecewise_linear_function::simplified;
use crate::utilities::math::quantized;
use crate::utilities::math::rounded_div;
use crate::utilities::math::round_div;
use crate::utilities::math::spec_approx_equal;
use crate::utilities::math::approx_equal;

verus! {

/// A trapezoidal membership function, defined by four ordered points
/// `(a, b, c, d)`: zero outside `[a, d]`, one on the plateau `[b, c]`,
/// linear in between. With `b == c` the shape is *triangular*.
///
/// The points are fixed-point values bounded by one hundred in magnitude
/// (`10000000` fixed-point units), which keeps every internal product
/// within machine range. The fields are exposed so that specifications
/// can state the geometry structurally; [`Trapezoidal::new`] is the
/// validating constructor.
#[derive(Clone, Copy, Debug, Hash, PartialEq, Eq, Structural)]
pub struct Trapezoidal {
    /// Left foot.
    pub a: i64,
    /// Left shoulder.
    pub b: i64,
    /// Right shoulder.
    pub c: i64,
    /// Right foot.
    pub d: i64,
}

/// Trapezoidal errors types.
#[derive(Clone, Debug, PartialEq)]
pub enum TrapezoidalError {
    /// Fewer than three points were given.
    NotEnoughValues { limits: Vec<i64> },
    /// More than four points were given.
    TooManyValues { limits: Vec<i64> },
    /// The points were not in ascending order.
    UnorderedValues { limits: Vec<i64> },
}

impl Membership for Trapezoidal {

}

/// The points are ascending, each at most one hundred in magnitude.
pub open spec fn limits_ascending(s: Seq<i64>) -> bool {
    forall|i: int| 0 <= i < s.len() - 1 ==> #[trigger] s[i] <= s[i + 1]
}

impl Trapezoidal {
    /// The shape the constructor builds from three or four ascending
    /// points: with three, the plateau collapses to the middle point.
    pub open spec fn spec_from_limits(s: Seq<i64>) -> Trapezoidal {
        Trapezoidal { a: s[0], b: s[1], c: s[s.len() - 2], d: s[s.len() - 1] }
    }

    /// The points are ordered and within the coordinate bound.
    pub open spec fn wf(self) -> bool {
        -10000000 <= self.a <= self.b <= self.c <= self.d <= 10000000
    }

    /// The membership degree at `x`, a fixed-point value in `[0, 1]`:
    /// zero outside the open support `(a, d)`, one on the plateau, and
    /// the exact linear interpolation rounded to the fixed-point grid on
    /// the two ramps.
    pub open spec fn spec_membership_value(self, x: int) -> int {
        if x <= self.a || x >= self.d {
            0
        } else if self.b <= x <= self.c {
            100000
        } else if x < self.b {
            rounded_div((x - self.a) * 100000, self.b - self.a)
        } else {
            rounded_div((self.d - x) * 100000, self.d - self.c)
        }
    }

    /// The greatest membership reported over `[min, max]`: one when the
    /// range reaches the plateau, otherwise the degree at `max` left of
    /// the plateau and the degree at `min` elsewhere. The rule is
    /// deliberately asymmetric rather than a full maximum over the range.
    pub open spec fn spec_max_min(self, min: int, max: int) -> int {
        if max >= self.b && min <= self.c {
            100000
        } else if max < self.b {
            self.spec_membership_value(max)
        } else {
            self.spec_membership_value(min)
        }
    }

    /// The area-weighted centroid: left triangle, middle rectangle and
    /// right triangle combined, rounded to the fixed-point grid. A shape
    /// with no area at all answers its single point.
    pub open spec fn spec_centroid(self) -> int {
        if self.a == self.d {
            self.a as int
        } else {
            let n = (self.a + 2 * self.b) * (self.b - self.a) + 3 * (self.b + self.c) * (self.c
                - self.b) + (2 * self.c + self.d) * (self.d - self.c);
            let den = 3 * (self.b - self.a) + 6 * (self.c - self.b) + 3 * (self.d - self.c);
            rounded_div(n, den)
        }
    }

    /// The mirror image of `self` about `center` coincides with `other`
    /// at five decimals, point for point.
    pub open spec fn spec_symmetrical_respect_center(
        self,
        other: Trapezoidal,
        center: int,
    ) -> bool {
        let r = 2 * center;
        spec_approx_equal(r - self.d, other.a as int, 5) && spec_approx_equal(
            r - self.c,
            other.b as int,
            5,
        ) && spec_approx_equal(r - self.b, other.c as int, 5) && spec_approx_equal(
            r - self.a,
            other.d as int,
            5,
        )
    }

    /// Builds a trapezoidal membership function from three or four
    /// ascending points; three points collapse the plateau to the middle
    /// one. Rejects fewer than three points, more than four, and points
    /// out of order.
    pub fn new(limits: Vec<i64>) -> (r: Result<Self, TrapezoidalError>)
        requires
            forall|i: int| 0 <= i < limits@.len() ==> -10000000 <= #[trigger] limits@[i]
                <= 10000000,
        ensures
            match r {
                Ok(t) => 3 <= limits@.len() <= 4 && limits_ascending(limits@) && t
                    == Trapezoidal::spec_from_limits(limits@) && t.wf(),
                Err(e) => match e {
                    TrapezoidalError::NotEnoughValues { limits: l } => l@ == limits@
                        && limits@.len() < 3,
                    TrapezoidalError::TooManyValues { limits: l } => l@ == limits@
                        && limits@.len() > 4,
                    TrapezoidalError::UnorderedValues { limits: l } => l@ == limits@ && 3
                        <= limits@.len() <= 4 && !limits_ascending(limits@),
                },
            },
    {
        let len = limits.len();
        if len < 3 {
            return Err(TrapezoidalError::NotEnoughValues { limits });
        }
        if len > 4 {
            return Err(TrapezoidalError::TooManyValues { limits });
        }
        let mut i: usize = 0;
        while i < len - 1
            invariant
                len == limits@.len(),
                3 <= len <= 4,
                0 <= i <= len - 1,
                forall|k: int| 0 <= k < i ==> #[trigger] limits@[k] <= limits@[k + 1],
            decreases len - 1 - i,
        {
            if limits[i] > limits[i + 1] {
                return Err(TrapezoidalError::UnorderedValues { limits });
            }
            i = i + 1;
        }
        let t = Self {
            a: limits[0],
            b: limits[1],
            c: limits[len - 2],
            d: limits[len - 1],
        };
        proof {
            assert(limits@[0] <= limits@[1] && limits@[1] <= limits@[2]);
            if len == 4 {
                assert(limits@[2] <= limits@[3]);
            }
        }
        Ok(t)
    }

    /// Returns the plateau `(b, c)`.
    pub fn center(&self) -> (r: (i64, i64))
        ensures
            r == (self.b, self.c),
    {
        (self.b, self.c)
    }

    /// Returns the support `(a, d)`.
    pub fn coverage(&self) -> (r: (i64, i64))
        ensures
            r == (self.a, self.d),
    {
        (self.a, self.d)
    }

    /// Checks whether the shape is triangular: the plateau is a single
    /// point.
    pub fn is_triangular(&self) -> (r: bool)
        ensures
            r == (self.b == self.c),
    {
        self.b == self.c
    }

    /// Returns the membership degree at `x`, a fixed-point value in
    /// `[0, 1]`.
    pub fn membership_value(&self, x: i64) -> (r: i64)
        requires
            self.wf(),
            -10000000 <= x <= 10000000,
        ensures
            r == self.spec_membership_value(x as int),
            0 <= r <= 100000,
    {
        if x <= self.a || x >= self.d {
            0
        } else if x >= self.b && x <= self.c {
            100000
        } else if x < self.b {
            proof {
                assert((x - self.a) * 100000 <= (self.b - self.a) * 100000 && 0 <= (x - self.a)
                    * 100000 < 3000000000000) by (nonlinear_arith)
                    requires
                        self.a < x < self.b,
                        -10000000 <= self.a,
                        self.b <= 10000000,
                ;
                crate::utilities::math::lemma_rounded_div_le(
                    (x - self.a) * 100000,
                    self.b - self.a,
                    100000,
                );
            }
            round_div((x - self.a) * 100000, self.b - self.a)
        } else {
            proof {
                assert((self.d - x) * 100000 <= (self.d - self.c) * 100000 && 0 <= (self.d - x)
                    * 100000 < 3000000000000) by (nonlinear_arith)
                    requires
                        self.c < x < self.d,
                        -10000000 <= self.c,
                        self.d <= 10000000,
                ;
                crate::utilities::math::lemma_rounded_div_le(
                    (self.d - x) * 100000,
                    self.d - self.c,
                    100000,
                );
            }
            round_div((self.d - x) * 100000, self.d - self.c)
        }
    }

    /// Returns the greatest membership degree reported over `[min, max]`,
    /// by the deliberately asymmetric rule of [`Trapezoidal::spec_max_min`].
    pub fn max_min(&self, min: i64, max: i64) -> (r: i64)
        requires
            self.wf(),
            -10000000 <= min <= 10000000,
            -10000000 <= max <= 10000000,
        ensures
            r == self.spec_max_min(min as int, max as int),
            0 <= r <= 100000,
    {
        if max >= self.b && min <= self.c {
            100000
        } else if max < self.b {
            self.membership_value(max)
        } else {
            self.membership_value(min)
        }
    }

    /// Returns the area-weighted centroid of the shape.
    pub fn centroid(&self) -> (r: i64)
        requires
            self.wf(),
        ensures
            r == self.spec_centroid(),
            -10000000 <= r <= 10000000,
    {
        if self.a == self.d {
            return self.a;
        }
        proof {
            lemma_centroid_bounds(*self);
            assert(-900000000000000 <= (self.a + 2 * self.b) * (self.b - self.a)
                <= 900000000000000 && -3000000000000000 <= 3 * (self.b + self.c) * (self.c
                - self.b) <= 3000000000000000 && -900000000000000 <= (2 * self.c + self.d) * (
            self.d - self.c) <= 900000000000000) by (nonlinear_arith)
                requires
                    self.wf(),
            ;
        }
        let n: i64 = (self.a + 2 * self.b) * (self.b - self.a) + 3 * (self.b + self.c) * (self.c
            - self.b) + (2 * self.c + self.d) * (self.d - self.c);
        let den: i64 = 3 * (self.b - self.a) + 6 * (self.c - self.b) + 3 * (self.d - self.c);
        round_div(n, den)
    }

    /// Checks whether the shape is symmetric about its own middle: the
    /// two ramps have the same width, within a hundredth.
    pub fn is_symmetrical(&self) -> (r: bool)
        requires
            self.wf(),
        ensures
            r == (-1000 < (self.b - self.a) - (self.d - self.c) < 1000),
    {
        let diff: i64 = (self.b - self.a) - (self.d - self.c);
        -1000 < diff && diff < 1000
    }

    /// Converts the shape to its piecewise linear form: the left ramp,
    /// the plateau at one, and the right ramp, each inserted over its own
    /// range and simplified as insertion always simplifies.
    pub fn to_piecewise(&self) -> (r: PiecewiseLinearFunction)
        requires
            self.wf(),
        ensures
            r@ == trap_pieces(*self),
            r.wf(),
            pieces_mag_le(r@, 1000000000000),
            r@.len() <= 3,
    {
        proof {
            lemma_trap_build(*self);
            lemma_ramp_fn_facts(*self);
        }
        let ghost t = *self;
        let ghost s1: Seq<Piece> = if t.a < t.b {
            simplified(added(Seq::<Piece>::empty(), Quantitative { inf: t.a, sup: t.b }, left_ramp(t).1))
        } else {
            Seq::<Piece>::empty()
        };
        let ghost s2: Seq<Piece> = if t.c < t.d {
            simplified(added(s1, Quantitative { inf: t.c, sup: t.d }, right_ramp(t).1))
        } else {
            s1
        };
        let ghost s3: Seq<Piece> = if t.b < t.c {
            simplified(added(s2, Quantitative { inf: t.b, sup: t.c }, top_piece(t).1))
        } else {
            s2
        };
        let mut result = PiecewiseLinearFunction::new();
        proof {
            assert(max_mag(result@) == 0);
        }
        if self.a != self.b {
            let slope: i64 = round_div(10000000000, self.b - self.a);
            let neg_a: i64 = -self.a;
            let intercept: i64 = round_div(neg_a * 100000, self.b - self.a);
            let piece = LinearFunction::new(slope, intercept);
            proof {
                assert(piece == left_ramp(t).1);
                assert(fn_mag(piece) <= 1000000000000);
            }
            let _ = result.add(self.a, self.b, piece);
        }
        proof {
            assert(result@ == s1);
            assert(max_mag(result@) <= 1000000000000);
        }
        if self.d != self.c {
            let down: i64 = round_div(10000000000, self.d - self.c);
            let slope: i64 = -down;
            let intercept: i64 = round_div(self.d * 100000, self.d - self.c);
            let piece = LinearFunction::new(slope, intercept);
            proof {
                assert(piece == right_ramp(t).1);
                assert(fn_mag(piece) <= 1000000000000);
            }
            let _ = result.add(self.c, self.d, piece);
        }
        proof {
            assert(result@ == s2);
            assert(max_mag(result@) <= 2000000000000);
        }
        if self.b != self.c {
            let piece = LinearFunction::new(0, 100000);
            proof {
                assert(piece == top_piece(t).1);
            }
            let _ = result.add(self.b, self.c, piece);
        }
        proof {
            assert(result@ == s3);
            assert(result@ == trap_pieces(t));
            lemma_trap_pieces_props(t);
        }
        result
    }

    /// Checks whether the mirror image of `self` about `center` coincides
    /// with `other` at five decimals.
    pub fn is_symmetrical_respect_center(&self, other: &Trapezoidal, center: i64) -> (r: bool)
        requires
            self.wf(),
            other.wf(),
            -10000000 <= center <= 10000000,
        ensures
            r == self.spec_symmetrical_respect_center(*other, center as int),
    {
        let r2: i64 = 2 * center;
        approx_equal(r2 - self.d, other.a, 5) && approx_equal(r2 - self.c, other.b, 5)
            && approx_equal(r2 - self.b, other.c, 5) && approx_equal(r2 - self.a, other.d, 5)
    }
}

/// The left ramp of a trapezoid: over `[a, b]`, rising from zero at `a`
/// to one at `b`, coefficients rounded to the fixed-point grid.
pub open spec fn left_ramp(t: Trapezoidal) -> Piece {
    (
        Quantitative { inf: t.a, sup: t.b },
        LinearFunction::spec_new(
            rounded_div(10000000000, t.b - t.a),
            rounded_div(-(t.a as int) * 100000, t.b - t.a),
        ),
    )
}

/// The plateau of a trapezoid: the constant one over `[b, c]`.
pub open spec fn top_piece(t: Trapezoidal) -> Piece {
    (Quantitative { inf: t.b, sup: t.c }, LinearFunction::spec_new(0, 100000))
}

/// The right ramp of a trapezoid: over `[c, d]`, falling from one at `c`
/// to zero at `d`, coefficients rounded to the fixed-point grid.
pub open spec fn right_ramp(t: Trapezoidal) -> Piece {
    (
        Quantitative { inf: t.c, sup: t.d },
        LinearFunction::spec_new(
            -rounded_div(10000000000, t.d - t.c),
            rounded_div((t.d as int) * 100000, t.d - t.c),
        ),
    )
}

/// The piecewise form of a trapezoid: its left ramp, plateau and right
/// ramp, each present only where it has extent. When the plateau and the
/// right ramp coexist and their functions agree at three decimals — the
/// falling slope always counts as zero at that tolerance, so only the
/// intercepts decide — the simplification pass welds them into one piece
/// spanning `[b, d]` that keeps the ramp's function.
pub open spec fn trap_pieces(t: Trapezoidal) -> Seq<Piece> {
    let lefts: Seq<Piece> = if t.a < t.b {
        seq![left_ramp(t)]
    } else {
        Seq::empty()
    };
    let tops: Seq<Piece> = if t.b < t.c {
        seq![top_piece(t)]
    } else {
        Seq::empty()
    };
    let rights: Seq<Piece> = if t.c < t.d {
        seq![right_ramp(t)]
    } else {
        Seq::empty()
    };
    if t.b < t.c && t.c < t.d && mergeable(right_ramp(t), top_piece(t)) {
        lefts + seq![(Quantitative { inf: t.b, sup: t.d }, right_ramp(t).1)]
    } else {
        lefts + tops + rights
    }
}

/// Coefficient facts about the three pieces: ramp slopes are at least
/// five thousandths in magnitude, so at three decimals a rising ramp is
/// never approximately flat, while a falling ramp always is (negative
/// quantized steps clamp to zero); all coefficients stay well within
/// machine range.
proof fn lemma_ramp_fn_facts(t: Trapezoidal)
    requires
        t.wf(),
    ensures
        t.a < t.b ==> left_ramp(t).1.slope == rounded_div(10000000000, t.b - t.a) && 500
            <= left_ramp(t).1.slope <= 10000000000 && fn_mag(left_ramp(t).1) <= 1000000000000
            && quantized(left_ramp(t).1.slope as int, 100) >= 5,
        t.c < t.d ==> right_ramp(t).1.slope == -rounded_div(10000000000, t.d - t.c)
            && -10000000000 <= right_ramp(t).1.slope <= -500 && fn_mag(right_ramp(t).1)
            <= 1000000000000 && quantized(right_ramp(t).1.slope as int, 100) == 0,
        top_piece(t).1.slope == 0 && top_piece(t).1.intercept == 100000 && fn_mag(top_piece(t).1)
            == 100000,
        quantized(0, 100) == 0,
{
    if t.a < t.b {
        let sl = rounded_div(10000000000, t.b - t.a);
        crate::utilities::math::lemma_rounded_div_ge(10000000000, t.b - t.a, 500);
        crate::utilities::math::lemma_rounded_div_le(10000000000, t.b - t.a, 10000000000);
        crate::utilities::math::lemma_rounded_div_ge(sl, 100, 5);
        crate::utilities::math::lemma_round_div_magnitude(-(t.a as int) * 100000, t.b - t.a);
        assert(-(t.a as int) * 100000 <= 1000000000000 && -(t.a as int) * 100000
            >= -1000000000000);
    }
    if t.c < t.d {
        let sl = rounded_div(10000000000, t.d - t.c);
        crate::utilities::math::lemma_rounded_div_ge(10000000000, t.d - t.c, 500);
        crate::utilities::math::lemma_rounded_div_le(10000000000, t.d - t.c, 10000000000);
        crate::utilities::math::lemma_rounded_div_ge(sl, 100, 1);
        assert(rounded_div(-sl, 100) == -rounded_div(sl, 100));
        crate::utilities::math::lemma_round_div_magnitude((t.d as int) * 100000, t.d - t.c);
        assert((t.d as int) * 100000 <= 1000000000000 && (t.d as int) * 100000
            >= -1000000000000);
    }
}

/// Which ordered pairs of the three pieces can merge: a rising ramp never
/// merges with anything, the plateau never merges into the right ramp,
/// and a piece welded from plateau and right ramp still never merges with
/// the left ramp. Only the right ramp into the plateau is left open.
proof fn lemma_trap_merge_facts(t: Trapezoidal)
    requires
        t.wf(),
    ensures
        t.a < t.b && t.b < t.c ==> !mergeable(top_piece(t), left_ramp(t)) && !mergeable(
            left_ramp(t),
            top_piece(t),
        ),
        t.a < t.b && t.c < t.d ==> !mergeable(right_ramp(t), left_ramp(t)) && !mergeable(
            left_ramp(t),
            right_ramp(t),
        ),
        t.b < t.c && t.c < t.d ==> !mergeable(top_piece(t), right_ramp(t)),
        t.a < t.b && t.c < t.d ==> !mergeable(
            (Quantitative { inf: t.b, sup: t.d }, right_ramp(t).1),
            left_ramp(t),
        ) && !mergeable(
            left_ramp(t),
            (Quantitative { inf: t.b, sup: t.d }, right_ramp(t).1),
        ),
{
    lemma_ramp_fn_facts(t);
}

/// The piecewise form of a trapezoid is canonical: at most three pieces,
/// sorted and valid, every coefficient within the ramp bound.
proof fn lemma_trap_pieces_props(t: Trapezoidal)
    requires
        t.wf(),
    ensures
        pieces_wf(trap_pieces(t)),
        pieces_mag_le(trap_pieces(t), 1000000000000),
        trap_pieces(t).len() <= 3,
{
    lemma_ramp_fn_facts(t);
    let s = trap_pieces(t);
    if t.b < t.c && t.c < t.d && mergeable(right_ramp(t), top_piece(t)) {
        if t.a < t.b {
            assert(s =~= seq![left_ramp(t), (Quantitative { inf: t.b, sup: t.d }, right_ramp(t).1)]);
        } else {
            assert(s =~= seq![(Quantitative { inf: t.b, sup: t.d }, right_ramp(t).1)]);
        }
    } else {
        if t.a < t.b && t.b < t.c && t.c < t.d {
            assert(s =~= seq![left_ramp(t), top_piece(t), right_ramp(t)]);
        } else if t.a < t.b && t.b < t.c {
            assert(s =~= seq![left_ramp(t), top_piece(t)]);
        } else if t.a < t.b && t.c < t.d {
            assert(s =~= seq![left_ramp(t), right_ramp(t)]);
        } else if t.b < t.c && t.c < t.d {
            assert(s =~= seq![top_piece(t), right_ramp(t)]);
        } else if t.a < t.b {
            assert(s =~= seq![left_ramp(t)]);
        } else if t.b < t.c {
            assert(s =~= seq![top_piece(t)]);
        } else if t.c < t.d {
            assert(s =~= seq![right_ramp(t)]);
        } else {
            assert(s =~= Seq::<Piece>::empty());
        }
    }
}

/// Inserting the left ramp, the right ramp and then the plateau into the
/// empty piecewise function — the insertion order the conversion uses —
/// yields exactly [`trap_pieces`].
proof fn lemma_trap_build(t: Trapezoidal)
    requires
        t.wf(),
    ensures
        ({
            let s0 = Seq::<Piece>::empty();
            let s1 = if t.a < t.b {
                simplified(added(s0, Quantitative { inf: t.a, sup: t.b }, left_ramp(t).1))
            } else {
                s0
            };
            let s2 = if t.c < t.d {
                simplified(added(s1, Quantitative { inf: t.c, sup: t.d }, right_ramp(t).1))
            } else {
                s1
            };
            let s3 = if t.b < t.c {
                simplified(added(s2, Quantitative { inf: t.b, sup: t.c }, top_piece(t).1))
            } else {
                s2
            };
            s3 == trap_pieces(t)
        }),
{
    lemma_trap_merge_facts(t);
    let lp = left_ramp(t);
    let rp = right_ramp(t);
    let tp = top_piece(t);
    let ab = Quantitative { inf: t.a, sup: t.b };
    let cd = Quantitative { inf: t.c, sup: t.d };
    let bc = Quantitative { inf: t.b, sup: t.c };
    let s0 = Seq::<Piece>::empty();
    let s1 = if t.a < t.b {
        simplified(added(s0, ab, lp.1))
    } else {
        s0
    };
    // the left ramp lands alone
    if t.a < t.b {
        lemma_add_to_empty(ab, lp.1);
        assert(s1 =~= seq![lp]);
    }
    let s2 = if t.c < t.d {
        simplified(added(s1, cd, rp.1))
    } else {
        s1
    };
    // the right ramp only touches the left ramp, and the two never merge
    if t.c < t.d {
        if t.a < t.b {
            assert(pieces_wf(s1)) by {
                assert(s1.len() == 1 && s1[0] == lp);
            }
            assert(forall|i: int|
                0 <= i < s1.len() ==> (#[trigger] s1[i]).0.sup <= cd.inf || cd.sup
                    <= s1[i].0.inf) by {
                assert(s1[0].0.sup == t.b <= t.c);
            }
            lemma_added_disjoint(s1, cd, rp.1);
            assert(seq_insert(s1, cd, rp.1) =~= seq![lp, rp]) by {
                assert(!crate::fuzzy::membership::piecewise::piecewise_linear_function::key_lt(
                    cd,
                    s1[0].0,
                ));
                assert(cd != s1[0].0);
                assert(s1.drop_first() =~= Seq::<Piece>::empty());
                assert(seq_insert(Seq::<Piece>::empty(), cd, rp.1) =~= seq![rp]);
                assert(seq_insert(s1, cd, rp.1) =~= seq![s1[0]] + seq![rp]);
            }
            lemma_simplified_two(seq![lp, rp]);
            assert(s2 =~= seq![lp, rp]);
        } else {
            lemma_add_to_empty(cd, rp.1);
            assert(s2 =~= seq![rp]);
        }
    }
    let s3 = if t.b < t.c {
        simplified(added(s2, bc, tp.1))
    } else {
        s2
    };
    // the plateau touches both ramps; it can merge only with the right
    // ramp, and only when the intercepts agree at three decimals
    if t.b < t.c {
        assert(pieces_wf(s2) && (forall|i: int|
            0 <= i < s2.len() ==> (#[trigger] s2[i]).0.sup <= bc.inf || bc.sup <= s2[i].0.inf))
            by {
            if t.a < t.b && t.c < t.d {
                assert(s2 =~= seq![lp, rp]);
                assert(s2[0] == lp && s2[1] == rp);
            } else if t.a < t.b {
                assert(s2 =~= seq![lp]);
            } else if t.c < t.d {
                assert(s2 =~= seq![rp]);
            }
        }
        lemma_added_disjoint(s2, bc, tp.1);
        if t.a < t.b && t.c < t.d {
            let three = seq![lp, tp, rp];
            assert(seq_insert(s2, bc, tp.1) =~= three) by {
                assert(s2 =~= seq![lp, rp]);
                assert(s2[0] == lp && s2.drop_first() =~= seq![rp]);
                assert(!crate::fuzzy::membership::piecewise::piecewise_linear_function::key_lt(
                    bc,
                    lp.0,
                ) && bc != lp.0);
                assert(crate::fuzzy::membership::piecewise::piecewise_linear_function::key_lt(
                    bc,
                    rp.0,
                ));
                assert((bc, tp.1) == tp);
                assert(seq_insert(seq![rp], bc, tp.1) =~= seq![tp, rp]);
                assert(seq_insert(s2, bc, tp.1) == seq![s2[0]] + seq_insert(
                    s2.drop_first(),
                    bc,
                    tp.1,
                ));
                assert(seq![lp] + seq![tp, rp] =~= three);
            }
            if mergeable(rp, tp) {
                lemma_simplified_three_merge(three);
                let merged = (Quantitative { inf: t.b, sup: t.d }, rp.1);
                assert(merge_pair(three, 2, 1) =~= seq![lp, merged]) by {
                    assert(three.remove(2) =~= seq![lp, tp]);
                    assert(three.remove(2).remove(1) =~= seq![lp]);
                    assert(seq_insert(seq![lp], merged.0, merged.1) =~= seq![lp, merged]) by {
                        assert(!crate::fuzzy::membership::piecewise::piecewise_linear_function::key_lt(
                            merged.0,
                            lp.0,
                        ) && merged.0 != lp.0);
                        assert((merged.0, merged.1) == merged);
                        assert(seq![lp].drop_first() =~= Seq::<Piece>::empty());
                        assert(seq_insert(Seq::<Piece>::empty(), merged.0, merged.1) =~= seq![
                            merged,
                        ]);
                        assert(seq_insert(seq![lp], merged.0, merged.1) == seq![seq![lp][0]]
                            + seq_insert(seq![lp].drop_first(), merged.0, merged.1));
                    }
                }
                lemma_simplified_two(seq![lp, merged]);
                assert(s3 =~= seq![lp, merged]);
                assert(trap_pieces(t) =~= seq![lp, merged]);
            } else {
                lemma_simplified_three(three);
                assert(s3 =~= three);
                assert(trap_pieces(t) =~= three);
            }
        } else if t.a < t.b {
            // no right ramp
            let two = seq![lp, tp];
            assert(seq_insert(s2, bc, tp.1) =~= two) by {
                assert(s2 =~= seq![lp]);
                assert(s2[0] == lp && s2.drop_first() =~= Seq::<Piece>::empty());
                assert(!crate::fuzzy::membership::piecewise::piecewise_linear_function::key_lt(
                    bc,
                    lp.0,
                ) && bc != lp.0);
                assert((bc, tp.1) == tp);
                assert(seq_insert(Seq::<Piece>::empty(), bc, tp.1) =~= seq![tp]);
                assert(seq_insert(s2, bc, tp.1) == seq![s2[0]] + seq_insert(
                    s2.drop_first(),
                    bc,
                    tp.1,
                ));
            }
            lemma_simplified_two(two);
            assert(s3 =~= two);
            assert(trap_pieces(t) =~= two);
        } else if t.c < t.d {
            // no left ramp
            let two = seq![tp, rp];
            assert(seq_insert(s2, bc, tp.1) =~= two) by {
                assert(s2 =~= seq![rp]);
                assert(s2[0] == rp);
                assert(crate::fuzzy::membership::piecewise::piecewise_linear_function::key_lt(
                    bc,
                    rp.0,
                ));
                assert((bc, tp.1) == tp);
                assert(seq_insert(s2, bc, tp.1) == seq![(bc, tp.1)] + s2);
            }
            if mergeable(rp, tp) {
                lemma_simplified_two_merge(two);
                let merged = (Quantitative { inf: t.b, sup: t.d }, rp.1);
                assert(merge_pair(two, 1, 0) =~= seq![merged]) by {
                    assert(two.remove(1) =~= seq![tp]);
                    assert(two.remove(1).remove(0) =~= Seq::<Piece>::empty());
                }
                lemma_simplified_single(seq![merged]);
                assert(s3 =~= seq![merged]);
                assert(trap_pieces(t) =~= seq![merged]);
            } else {
                lemma_simplified_two(two);
                assert(s3 =~= two);
                assert(trap_pieces(t) =~= two);
            }
        } else {
            // the plateau stands alone
            assert(seq_insert(s2, bc, tp.1) =~= seq![tp]) by {
                assert(s2 =~= Seq::<Piece>::empty());
            }
            lemma_simplified_single(seq![tp]);
            assert(s3 =~= seq![tp]);
            assert(trap_pieces(t) =~= seq![tp]);
        }
    } else {
        // no plateau: the two ramps touch when the shape is triangular,
        // but a rising ramp never merges with a falling one
        if t.a < t.b && t.c < t.d {
            assert(trap_pieces(t) =~= seq![lp, rp]);
        } else if t.a < t.b {
            assert(trap_pieces(t) =~= seq![lp]);
        } else if t.c < t.d {
            assert(trap_pieces(t) =~= seq![rp]);
        } else {
            assert(trap_pieces(t) =~= Seq::<Piece>::empty());
        }
    }
}

/// The centroid's numerator and denominator stay in machine range, the
/// denominator is positive for a shape with extent, and the quotient lies
/// within the support.
proof fn lemma_centroid_bounds(t: Trapezoidal)
    requires
        t.wf(),
        t.a != t.d,
    ensures
        ({
            let n = (t.a + 2 * t.b) * (t.b - t.a) + 3 * (t.b + t.c) * (t.c - t.b) + (2 * t.c
                + t.d) * (t.d - t.c);
            let den = 3 * (t.b - t.a) + 6 * (t.c - t.b) + 3 * (t.d - t.c);
            -4000000000000000 <= n <= 4000000000000000 && 0 < den <= 240000000 && -10000000
                <= rounded_div(n, den) <= 10000000
        }),
{
    let n = (t.a + 2 * t.b) * (t.b - t.a) + 3 * (t.b + t.c) * (t.c - t.b) + (2 * t.c + t.d) * (t.d
        - t.c);
    let den = 3 * (t.b - t.a) + 6 * (t.c - t.b) + 3 * (t.d - t.c);
    assert(-900000000000000 <= (t.a + 2 * t.b) * (t.b - t.a) <= 900000000000000)
        by (nonlinear_arith)
        requires
            t.wf(),
    ;
    assert(-1300000000000000 <= 3 * (t.b + t.c) * (t.c - t.b) <= 1300000000000000)
        by (nonlinear_arith)
        requires
            t.wf(),
    ;
    assert(-900000000000000 <= (2 * t.c + t.d) * (t.d - t.c) <= 900000000000000)
        by (nonlinear_arith)
        requires
            t.wf(),
    ;
    assert(-4000000000000000 <= n <= 4000000000000000 && 0 < den <= 240000000);
    // each summand of the numerator is the matching summand of the
    // denominator scaled by a sub-shape centroid inside the support
    assert(t.a * (3 * (t.b - t.a)) <= (t.a + 2 * t.b) * (t.b - t.a) && (t.a + 2 * t.b) * (t.b
        - t.a) <= t.d * (3 * (t.b - t.a))) by (nonlinear_arith)
        requires
            t.wf(),
    ;
    assert(t.a * (6 * (t.c - t.b)) <= 3 * (t.b + t.c) * (t.c - t.b) && 3 * (t.b + t.c) * (t.c
        - t.b) <= t.d * (6 * (t.c - t.b))) by (nonlinear_arith)
        requires
            t.wf(),
    ;
    assert(t.a * (3 * (t.d - t.c)) <= (2 * t.c + t.d) * (t.d - t.c) && (2 * t.c + t.d) * (t.d
        - t.c) <= t.d * (3 * (t.d - t.c))) by (nonlinear_arith)
        requires
            t.wf(),
    ;
    assert(t.a * den == t.a * (3 * (t.b - t.a)) + t.a * (6 * (t.c - t.b)) + t.a * (3 * (t.d - t.c))
        && t.d * den == t.d * (3 * (t.b - t.a)) + t.d * (6 * (t.c - t.b)) + t.d * (3 * (t.d
        - t.c))) by (nonlinear_arith)
        requires
            den == 3 * (t.b - t.a) + 6 * (t.c - t.b) + 3 * (t.d - t.c),
    ;
    assert(t.a * den <= n <= t.d * den);
    crate::utilities::math::lemma_rounded_div_between(n, den, t.a as int, t.d as int);
}

} // verus!
