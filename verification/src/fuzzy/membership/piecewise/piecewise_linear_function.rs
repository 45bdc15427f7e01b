//! Piecewise linear functions: disjoint fixed-point ranges, each carrying
//! a linear function, with additive insertion and simplification.

use vstd::prelude::*;
use vstd::string::StringExecFns;
use crate::domain::Quantitative;
use crate::fuzzy::membership::piecewise::LinearFunction;
use crate::utilities::math::spec_approx_equal;
use crate::utilities::math::approx_equal;

verus! {

/// One stored piece: a range and the linear function it carries.
pub type Piece = (Quantitative, LinearFunction);

/// A piecewise linear function.
///
/// The pieces are kept sorted by range, lower bound first and then upper
/// bound, with no two equal ranges: the sequence behaves as a map from
/// range to function in a canonical order.
#[derive(Debug)]
pub struct PiecewiseLinearFunction {
    pieces: Vec<Piece>,
}

/// Piecewise linear function errors.
#[derive(Clone, Copy, Debug, PartialEq, Eq, Structural)]
pub enum PiecewiseLinearFunctionError {
    /// The requested piece range had `inf > sup`.
    InvalidPieceRange { inf: i64, sup: i64 },
}

/// Strict order on piece ranges: lower bound first, upper bound second.
pub open spec fn key_lt(a: Quantitative, b: Quantitative) -> bool {
    a.inf < b.inf || (a.inf == b.inf && a.sup < b.sup)
}

/// The pieces are strictly sorted by range, so all ranges are distinct.
pub open spec fn pieces_sorted(s: Seq<Piece>) -> bool {
    forall|i: int, j: int| 0 <= i < j < s.len() ==> key_lt(#[trigger] s[i].0, #[trigger] s[j].0)
}

/// Every stored range is ordered.
pub open spec fn pieces_valid(s: Seq<Piece>) -> bool {
    forall|i: int| 0 <= i < s.len() ==> (#[trigger] s[i].0).spec_valid()
}

/// The canonical shape of a stored piece sequence.
pub open spec fn pieces_wf(s: Seq<Piece>) -> bool {
    pieces_sorted(s) && pieces_valid(s)
}

/// The magnitude of a function's largest coefficient.
pub open spec fn fn_mag(f: LinearFunction) -> int {
    let s = if f.slope >= 0 {
        f.slope as int
    } else {
        -(f.slope as int)
    };
    let i = if f.intercept >= 0 {
        f.intercept as int
    } else {
        -(f.intercept as int)
    };
    if s >= i {
        s
    } else {
        i
    }
}

/// Every stored function's coefficients are bounded by `m` in magnitude.
pub open spec fn pieces_mag_le(s: Seq<Piece>, m: int) -> bool {
    forall|i: int| 0 <= i < s.len() ==> fn_mag(#[trigger] s[i].1) <= m
}

/// The largest coefficient magnitude over all stored functions.
pub open spec fn max_mag(s: Seq<Piece>) -> int
    decreases s.len(),
{
    if s.len() == 0 {
        0
    } else {
        let rest = max_mag(s.drop_first());
        if fn_mag(s[0].1) >= rest {
            fn_mag(s[0].1)
        } else {
            rest
        }
    }
}

/// `max_mag` bounds every stored function, and is the least such bound.
pub proof fn lemma_max_mag(s: Seq<Piece>)
    ensures
        0 <= max_mag(s),
        pieces_mag_le(s, max_mag(s)),
        forall|m: int| pieces_mag_le(s, m) && m >= 0 ==> max_mag(s) <= m,
    decreases s.len(),
{
    if s.len() > 0 {
        lemma_max_mag(s.drop_first());
        assert forall|i: int| 0 <= i < s.len() implies fn_mag(#[trigger] s[i].1) <= max_mag(
            s,
        ) by {
            if i > 0 {
                assert(s.drop_first()[i - 1] == s[i]);
            }
        }
        assert forall|m: int| pieces_mag_le(s, m) && m >= 0 implies max_mag(s) <= m by {
            assert(fn_mag(s[0].1) <= m);
            assert(pieces_mag_le(s.drop_first(), m)) by {
                assert forall|i: int|
                    0 <= i < s.drop_first().len() implies fn_mag(
                    #[trigger] s.drop_first()[i].1,
                ) <= m by {
                    assert(s.drop_first()[i] == s[i + 1]);
                }
            }
        }
    }
}

/// Insertion into the sorted piece sequence: an existing equal range is
/// replaced, as a map insert replaces, otherwise the new piece lands at
/// its sorted position.
pub open spec fn seq_insert(s: Seq<Piece>, key: Quantitative, f: LinearFunction) -> Seq<Piece>
    decreases s.len(),
{
    if s.len() == 0 {
        seq![(key, f)]
    } else if key_lt(key, s[0].0) {
        seq![(key, f)] + s
    } else if key == s[0].0 {
        seq![(key, f)] + s.drop_first()
    } else {
        seq![s[0]] + seq_insert(s.drop_first(), key, f)
    }
}

/// Insertion keeps the canonical shape, never shrinks the sequence, and
/// grows it by at most the one piece.
pub proof fn lemma_seq_insert_wf(s: Seq<Piece>, key: Quantitative, f: LinearFunction)
    ensures
        s.len() <= seq_insert(s, key, f).len() <= s.len() + 1,
        pieces_wf(s) && key.spec_valid() ==> pieces_wf(seq_insert(s, key, f)),
    decreases s.len(),
{
    let r = seq_insert(s, key, f);
    if s.len() == 0 {
    } else if key_lt(key, s[0].0) {
        if pieces_wf(s) && key.spec_valid() {
            assert forall|i: int, j: int| 0 <= i < j < r.len() implies key_lt(
                #[trigger] r[i].0,
                #[trigger] r[j].0,
            ) by {
                if i > 0 {
                    assert(r[i] == s[i - 1] && r[j] == s[j - 1]);
                }
            }
            assert(pieces_valid(r)) by {
                assert forall|i: int| 0 <= i < r.len() implies (#[trigger] r[i].0).spec_valid() by {
                    if i > 0 {
                        assert(r[i] == s[i - 1]);
                    }
                }
            }
        }
    } else if key == s[0].0 {
        if pieces_wf(s) && key.spec_valid() {
            assert forall|i: int, j: int| 0 <= i < j < r.len() implies key_lt(
                #[trigger] r[i].0,
                #[trigger] r[j].0,
            ) by {
                if i > 0 {
                    assert(r[i] == s[i] && r[j] == s[j]);
                } else {
                    assert(r[j] == s[j]);
                }
            }
            assert(pieces_valid(r)) by {
                assert forall|i: int| 0 <= i < r.len() implies (#[trigger] r[i].0).spec_valid() by {
                    if i > 0 {
                        assert(r[i] == s[i]);
                    }
                }
            }
        }
    } else {
        lemma_seq_insert_wf(s.drop_first(), key, f);
        let rr = seq_insert(s.drop_first(), key, f);
        if pieces_wf(s) && key.spec_valid() {
            assert(pieces_wf(s.drop_first())) by {
                assert forall|i: int, j: int|
                    0 <= i < j < s.drop_first().len() implies key_lt(
                    #[trigger] s.drop_first()[i].0,
                    #[trigger] s.drop_first()[j].0,
                ) by {
                    assert(s.drop_first()[i] == s[i + 1] && s.drop_first()[j] == s[j + 1]);
                }
                assert forall|i: int|
                    0 <= i < s.drop_first().len() implies (#[trigger] s.drop_first()[i].0).spec_valid() by {
                    assert(s.drop_first()[i] == s[i + 1]);
                }
            }
            // the head is below the key and below everything inserted behind it
            assert(key_lt(s[0].0, key)) by {
                assert(!key_lt(key, s[0].0) && key != s[0].0);
                assert(s[0].0.inf == key.inf && s[0].0.sup == key.sup ==> s[0].0 == key);
            }
            assert forall|i: int| 0 <= i < rr.len() implies key_lt(s[0].0, #[trigger] rr[i].0) by {
                lemma_seq_insert_members(s.drop_first(), key, f, i);
                if rr[i] == (key, f) {
                } else {
                    let k = choose|k: int|
                        0 <= k < s.drop_first().len() && s.drop_first()[k] == rr[i];
                    assert(s[k + 1] == rr[i]);
                }
            }
            assert forall|i: int, j: int| 0 <= i < j < r.len() implies key_lt(
                #[trigger] r[i].0,
                #[trigger] r[j].0,
            ) by {
                if i > 0 {
                    assert(r[i] == rr[i - 1] && r[j] == rr[j - 1]);
                } else {
                    assert(r[j] == rr[j - 1]);
                }
            }
            assert(pieces_valid(r)) by {
                assert forall|i: int| 0 <= i < r.len() implies (#[trigger] r[i].0).spec_valid() by {
                    if i > 0 {
                        assert(r[i] == rr[i - 1]);
                        lemma_seq_insert_members(s.drop_first(), key, f, i - 1);
                        if rr[i - 1] != (key, f) {
                            let k = choose|k: int|
                                0 <= k < s.drop_first().len() && s.drop_first()[k] == rr[i - 1];
                            assert(s[k + 1] == rr[i - 1]);
                        }
                    }
                }
            }
        }
    }
}

/// Every piece of an insertion result is either the inserted piece or one
/// of the pieces already stored.
pub proof fn lemma_seq_insert_members(s: Seq<Piece>, key: Quantitative, f: LinearFunction, i: int)
    requires
        0 <= i < seq_insert(s, key, f).len(),
    ensures
        seq_insert(s, key, f)[i] == (key, f) || exists|k: int|
            0 <= k < s.len() && s[k] == seq_insert(s, key, f)[i],
    decreases s.len(),
{
    let r = seq_insert(s, key, f);
    if s.len() == 0 {
    } else if key_lt(key, s[0].0) {
        if i > 0 {
            assert(s[i - 1] == r[i]);
        }
    } else if key == s[0].0 {
        if i > 0 {
            assert(s[i] == r[i]);
        }
    } else {
        if i == 0 {
            assert(s[0] == r[0]);
        } else {
            lemma_seq_insert_members(s.drop_first(), key, f, i - 1);
            let rr = seq_insert(s.drop_first(), key, f);
            assert(r[i] == rr[i - 1]);
            if rr[i - 1] != (key, f) {
                let k = choose|k: int| 0 <= k < s.drop_first().len() && s.drop_first()[k] == rr[i
                    - 1];
                assert(s[k + 1] == rr[i - 1]);
            }
        }
    }
}

/// Insertion keeps every coefficient bound that covers both the stored
/// functions and the inserted one.
pub proof fn lemma_seq_insert_mag(s: Seq<Piece>, key: Quantitative, f: LinearFunction, m: int)
    requires
        pieces_mag_le(s, m),
        fn_mag(f) <= m,
    ensures
        pieces_mag_le(seq_insert(s, key, f), m),
{
    let r = seq_insert(s, key, f);
    assert forall|i: int| 0 <= i < r.len() implies fn_mag(#[trigger] r[i].1) <= m by {
        lemma_seq_insert_members(s, key, f, i);
        if r[i] != (key, f) {
            let k = choose|k: int| 0 <= k < s.len() && s[k] == r[i];
            assert(fn_mag(s[k].1) <= m);
        }
    }
}

/// Exec comparison mirroring [`key_lt`].
fn key_lt_exec(a: &Quantitative, b: &Quantitative) -> (r: bool)
    ensures
        r == key_lt(*a, *b),
{
    a.inf < b.inf || (a.inf == b.inf && a.sup < b.sup)
}

/// Inserts a piece into the sorted vector, replacing a piece with an equal
/// range as a map insert would.
fn insert_piece(pieces: &mut Vec<Piece>, key: Quantitative, f: LinearFunction)
    ensures
        final(pieces)@ == seq_insert(old(pieces)@, key, f),
{
    let ghost orig = pieces@;
    let mut idx: usize = 0;
    while idx < pieces.len() && key_lt_exec(&pieces[idx].0, &key)
        invariant
            0 <= idx <= pieces.len(),
            pieces@ == orig,
            forall|k: int| 0 <= k < idx ==> key_lt(#[trigger] orig[k].0, key),
        decreases pieces.len() - idx,
    {
        idx = idx + 1;
    }
    proof {
        lemma_seq_insert_at(orig, key, f, idx as int);
    }
    if idx < pieces.len() && pieces[idx].0 == key {
        pieces.set(idx, (key, f));
    } else {
        pieces.insert(idx, (key, f));
    }
}

/// Where the scan of [`insert_piece`] stops, the insertion result is an
/// update in place or a positional insert.
proof fn lemma_seq_insert_at(s: Seq<Piece>, key: Quantitative, f: LinearFunction, idx: int)
    requires
        0 <= idx <= s.len(),
        forall|k: int| 0 <= k < idx ==> key_lt(#[trigger] s[k].0, key),
        idx < s.len() ==> !key_lt(s[idx].0, key),
    ensures
        idx < s.len() && s[idx].0 == key ==> seq_insert(s, key, f) == s.update(idx, (key, f)),
        !(idx < s.len() && s[idx].0 == key) ==> seq_insert(s, key, f) == s.insert(idx, (key, f)),
    decreases idx,
{
    let r = seq_insert(s, key, f);
    if idx == 0 {
        if s.len() == 0 {
            assert(r =~= s.insert(0, (key, f)));
        } else if key_lt(key, s[0].0) {
            assert(s[0].0 != key);
            assert(r =~= s.insert(0, (key, f)));
        } else if key == s[0].0 {
            assert(r =~= s.update(0, (key, f)));
        } else {
            // the scan stopped here, so the head is not below the key;
            // with equality and the reverse order excluded the keys tie
            // in both bounds, which is equality
            assert(s[0].0.inf == key.inf && s[0].0.sup == key.sup);
            assert(false);
        }
    } else {
        assert(key_lt(s[0].0, key));
        assert(!key_lt(key, s[0].0) && key != s[0].0);
        lemma_seq_insert_at(s.drop_first(), key, f, idx - 1);
        let rr = seq_insert(s.drop_first(), key, f);
        assert(r == seq![s[0]] + rr);
        if idx < s.len() && s[idx].0 == key {
            assert(s.drop_first()[idx - 1] == s[idx]);
            assert(rr == s.drop_first().update(idx - 1, (key, f)));
            assert(r =~= s.update(idx, (key, f)));
        } else {
            if idx < s.len() {
                assert(s.drop_first()[idx - 1] == s[idx]);
            }
            assert(rr == s.drop_first().insert(idx - 1, (key, f)));
            assert(r =~= s.insert(idx, (key, f)));
        }
    }
}

/// Subtracts one range from every fragment, keeping order: the parts of
/// the fragments that `b` does not cover.
pub open spec fn subtract_all(frags: Seq<Quantitative>, b: Quantitative) -> Seq<Quantitative>
    decreases frags.len(),
{
    if frags.len() == 0 {
        Seq::empty()
    } else {
        frags[0].spec_difference(b) + subtract_all(frags.drop_first(), b)
    }
}

/// Inserts several ranges carrying one shared function, in order.
pub open spec fn insert_ranges(
    acc: Seq<Piece>,
    ranges: Seq<Quantitative>,
    f: LinearFunction,
) -> Seq<Piece>
    decreases ranges.len(),
{
    if ranges.len() == 0 {
        acc
    } else {
        insert_ranges(seq_insert(acc, ranges[0], f), ranges.drop_first(), f)
    }
}

/// One existing piece processed against the inserted range: an overlapping
/// piece keeps its uncovered parts unchanged and carries the coefficient
/// sum over the overlap, and shrinks the still-uncovered remainder of the
/// inserted range; a piece without overlap is kept as it is.
pub open spec fn add_step(
    acc: Seq<Piece>,
    diffs: Seq<Quantitative>,
    p: Piece,
    range: Quantitative,
    piece: LinearFunction,
) -> (Seq<Piece>, Seq<Quantitative>) {
    match p.0.spec_intersection(range) {
        Some(overlap) => {
            let acc1 = insert_ranges(acc, p.0.spec_difference(overlap), p.1);
            let acc2 = seq_insert(acc1, overlap, p.1.spec_sum(piece));
            (acc2, subtract_all(diffs, p.0))
        },
        None => (seq_insert(acc, p.0, p.1), diffs),
    }
}

/// [`add_step`] folded over the existing pieces in order.
pub open spec fn add_fold(
    acc: Seq<Piece>,
    diffs: Seq<Quantitative>,
    rest: Seq<Piece>,
    range: Quantitative,
    piece: LinearFunction,
) -> (Seq<Piece>, Seq<Quantitative>)
    decreases rest.len(),
{
    if rest.len() == 0 {
        (acc, diffs)
    } else {
        let st = add_step(acc, diffs, rest[0], range, piece);
        add_fold(st.0, st.1, rest.drop_first(), range, piece)
    }
}

/// The rebuilt piece sequence after inserting `piece` over `range`, before
/// simplification: every still-uncovered part of the range receives the
/// new function unchanged.
pub open spec fn added(s: Seq<Piece>, range: Quantitative, piece: LinearFunction) -> Seq<Piece> {
    let st = add_fold(Seq::empty(), seq![range], s, range, piece);
    insert_ranges(st.0, st.1, piece)
}

/// Every range in a sequence of ranges is ordered.
pub open spec fn ranges_valid(rs: Seq<Quantitative>) -> bool {
    forall|i: int| 0 <= i < rs.len() ==> (#[trigger] rs[i]).spec_valid()
}

/// Subtraction keeps every fragment valid.
pub proof fn lemma_subtract_all_valid(frags: Seq<Quantitative>, b: Quantitative)
    requires
        ranges_valid(frags),
    ensures
        ranges_valid(subtract_all(frags, b)),
    decreases frags.len(),
{
    if frags.len() > 0 {
        assert(ranges_valid(frags.drop_first())) by {
            assert forall|i: int|
                0 <= i < frags.drop_first().len() implies (#[trigger] frags.drop_first()[i]).spec_valid() by {
                assert(frags.drop_first()[i] == frags[i + 1]);
            }
        }
        lemma_subtract_all_valid(frags.drop_first(), b);
        crate::domain::quantitative::lemma_difference_valid(frags[0], b);
        let r = subtract_all(frags, b);
        assert forall|i: int| 0 <= i < r.len() implies (#[trigger] r[i]).spec_valid() by {
            if i < frags[0].spec_difference(b).len() {
                assert(r[i] == frags[0].spec_difference(b)[i]);
            } else {
                assert(r[i] == subtract_all(frags.drop_first(), b)[i - frags[0].spec_difference(
                    b,
                ).len()]);
            }
        }
    }
}

/// Inserting a batch of valid ranges with one bounded function keeps the
/// canonical shape and the coefficient bound.
pub proof fn lemma_insert_ranges_props(
    acc: Seq<Piece>,
    ranges: Seq<Quantitative>,
    f: LinearFunction,
    m: int,
)
    requires
        pieces_wf(acc),
        pieces_mag_le(acc, m),
        ranges_valid(ranges),
        fn_mag(f) <= m,
    ensures
        pieces_wf(insert_ranges(acc, ranges, f)),
        pieces_mag_le(insert_ranges(acc, ranges, f), m),
    decreases ranges.len(),
{
    if ranges.len() > 0 {
        lemma_seq_insert_wf(acc, ranges[0], f);
        lemma_seq_insert_mag(acc, ranges[0], f, m);
        assert(ranges_valid(ranges.drop_first())) by {
            assert forall|i: int|
                0 <= i < ranges.drop_first().len() implies (#[trigger] ranges.drop_first()[i]).spec_valid() by {
                assert(ranges.drop_first()[i] == ranges[i + 1]);
            }
        }
        lemma_insert_ranges_props(seq_insert(acc, ranges[0], f), ranges.drop_first(), f, m);
    }
}

/// The fold of [`add_step`] keeps the canonical shape of the accumulator,
/// the validity of the remainder fragments, and the coefficient bound,
/// provided the bound covers both the stored functions and their sums with
/// the inserted one.
pub proof fn lemma_add_fold_props(
    acc: Seq<Piece>,
    diffs: Seq<Quantitative>,
    rest: Seq<Piece>,
    range: Quantitative,
    piece: LinearFunction,
    m: int,
)
    requires
        pieces_wf(acc),
        pieces_mag_le(acc, m),
        ranges_valid(diffs),
        pieces_valid(rest),
        pieces_mag_le(rest, m),
        range.spec_valid(),
        fn_mag(piece) <= m,
        forall|i: int|
            0 <= i < rest.len() ==> fn_mag((#[trigger] rest[i].1).spec_sum(piece)) <= m,
    ensures
        pieces_wf(add_fold(acc, diffs, rest, range, piece).0),
        pieces_mag_le(add_fold(acc, diffs, rest, range, piece).0, m),
        ranges_valid(add_fold(acc, diffs, rest, range, piece).1),
    decreases rest.len(),
{
    if rest.len() > 0 {
        let p = rest[0];
        let st = add_step(acc, diffs, p, range, piece);
        assert(fn_mag(p.1) <= m);
        match p.0.spec_intersection(range) {
            Some(overlap) => {
                crate::domain::quantitative::lemma_intersection_valid(p.0, range);
                crate::domain::quantitative::lemma_difference_valid(p.0, overlap);
                lemma_insert_ranges_props(acc, p.0.spec_difference(overlap), p.1, m);
                let acc1 = insert_ranges(acc, p.0.spec_difference(overlap), p.1);
                lemma_seq_insert_wf(acc1, overlap, p.1.spec_sum(piece));
                lemma_seq_insert_mag(acc1, overlap, p.1.spec_sum(piece), m);
                lemma_subtract_all_valid(diffs, p.0);
            },
            None => {
                lemma_seq_insert_wf(acc, p.0, p.1);
                lemma_seq_insert_mag(acc, p.0, p.1, m);
            },
        }
        assert(pieces_valid(rest.drop_first()) && pieces_mag_le(rest.drop_first(), m) && forall|
            i: int,
        |
            0 <= i < rest.drop_first().len() ==> fn_mag(
                (#[trigger] rest.drop_first()[i].1).spec_sum(piece),
            ) <= m) by {
            assert forall|i: int| 0 <= i < rest.drop_first().len() implies {
                &&& (#[trigger] rest.drop_first()[i].0).spec_valid()
                &&& fn_mag(rest.drop_first()[i].1) <= m
                &&& fn_mag(rest.drop_first()[i].1.spec_sum(piece)) <= m
            } by {
                assert(rest.drop_first()[i] == rest[i + 1]);
            }
        }
        lemma_add_fold_props(st.0, st.1, rest.drop_first(), range, piece, m);
    }
}

/// Two stored pieces are merged when the first's lower bound meets the
/// second's upper bound — or the first spans no point at all — and their
/// functions agree at three decimals. The second disjunct deliberately
/// compares the first piece's own bounds: a point-sized piece merges with
/// any piece carrying an approximately equal function, wherever that
/// piece lies.
pub open spec fn mergeable(a: Piece, b: Piece) -> bool {
    (a.0.inf == b.0.sup || a.0.sup == a.0.inf) && spec_approx_equal(
        a.1.slope as int,
        b.1.slope as int,
        3,
    ) && spec_approx_equal(a.1.intercept as int, b.1.intercept as int, 3)
}

/// The first partner `j` at or after position `j0` that piece `i` merges
/// with; a piece is never paired with itself.
pub open spec fn row_merge(s: Seq<Piece>, i: int, j0: int) -> Option<int>
    decreases s.len() - j0,
    when 0 <= j0 <= s.len()
{
    if j0 >= s.len() {
        None
    } else if j0 != i && mergeable(s[i], s[j0]) {
        Some(j0)
    } else {
        row_merge(s, i, j0 + 1)
    }
}

/// The first pair `(i, j)`, scanning `i` outward from `i0` and `j` from
/// the start for each `i`, whose pieces merge.
pub open spec fn find_merge_from(s: Seq<Piece>, i0: int) -> Option<(int, int)>
    decreases s.len() - i0,
    when 0 <= i0 <= s.len()
{
    if i0 >= s.len() {
        None
    } else {
        match row_merge(s, i0, 0) {
            Some(j) => Some((i0, j)),
            None => find_merge_from(s, i0 + 1),
        }
    }
}

/// The first mergeable pair of the sequence, in scan order.
pub open spec fn find_merge(s: Seq<Piece>) -> Option<(int, int)> {
    find_merge_from(s, 0)
}

/// Pieces `i` and `j` replaced by one piece spanning both ranges and
/// carrying piece `i`'s function.
pub open spec fn merge_pair(s: Seq<Piece>, i: int, j: int) -> Seq<Piece> {
    let key = Quantitative {
        inf: if s[i].0.inf <= s[j].0.inf {
            s[i].0.inf
        } else {
            s[j].0.inf
        },
        sup: if s[i].0.sup >= s[j].0.sup {
            s[i].0.sup
        } else {
            s[j].0.sup
        },
    };
    let reduced = if i < j {
        s.remove(j).remove(i)
    } else {
        s.remove(i).remove(j)
    };
    seq_insert(reduced, key, s[i].1)
}

/// A found merge partner is a real, distinct position.
pub proof fn lemma_row_merge_valid(s: Seq<Piece>, i: int, j0: int)
    requires
        0 <= j0 <= s.len(),
        0 <= i < s.len(),
    ensures
        row_merge(s, i, j0) is Some ==> {
            let j = row_merge(s, i, j0)->Some_0;
            j0 <= j < s.len() && j != i && mergeable(s[i], s[j])
        },
        row_merge(s, i, j0) is None ==> forall|k: int|
            j0 <= k < s.len() && k != i ==> !mergeable(s[i], #[trigger] s[k]),
    decreases s.len() - j0,
{
    if j0 < s.len() && !(j0 != i && mergeable(s[i], s[j0])) {
        lemma_row_merge_valid(s, i, j0 + 1);
    }
}

/// A found merge pair is a real pair of distinct positions.
pub proof fn lemma_find_merge_valid(s: Seq<Piece>, i0: int)
    requires
        0 <= i0 <= s.len(),
    ensures
        find_merge_from(s, i0) is Some ==> {
            let ij = find_merge_from(s, i0)->Some_0;
            i0 <= ij.0 < s.len() && 0 <= ij.1 < s.len() && ij.0 != ij.1 && mergeable(
                s[ij.0],
                s[ij.1],
            )
        },
    decreases s.len() - i0,
{
    if i0 < s.len() {
        lemma_row_merge_valid(s, i0, 0);
        if row_merge(s, i0, 0) is None {
            lemma_find_merge_valid(s, i0 + 1);
        }
    }
}

/// Removing a piece keeps the canonical shape and any coefficient bound.
pub proof fn lemma_remove_wf(s: Seq<Piece>, k: int, m: int)
    requires
        0 <= k < s.len(),
    ensures
        pieces_wf(s) ==> pieces_wf(s.remove(k)),
        pieces_mag_le(s, m) ==> pieces_mag_le(s.remove(k), m),
{
    let r = s.remove(k);
    assert forall|i: int| 0 <= i < r.len() implies r[i] == if i < k {
        s[i]
    } else {
        s[i + 1]
    } by {}
    if pieces_wf(s) {
        assert forall|i: int, j: int| 0 <= i < j < r.len() implies key_lt(
            #[trigger] r[i].0,
            #[trigger] r[j].0,
        ) by {
            let si = if i < k {
                i
            } else {
                i + 1
            };
            let sj = if j < k {
                j
            } else {
                j + 1
            };
            assert(r[i] == s[si] && r[j] == s[sj] && si < sj);
        }
        assert forall|i: int| 0 <= i < r.len() implies (#[trigger] r[i].0).spec_valid() by {}
    }
}

/// Merging a found pair strictly shrinks the sequence and keeps the
/// canonical shape and any coefficient bound.
pub proof fn lemma_merge_pair_props(s: Seq<Piece>, i: int, j: int, m: int)
    requires
        0 <= i < s.len(),
        0 <= j < s.len(),
        i != j,
    ensures
        s.len() - 2 <= merge_pair(s, i, j).len() <= s.len() - 1,
        pieces_wf(s) ==> pieces_wf(merge_pair(s, i, j)),
        pieces_wf(s) && pieces_mag_le(s, m) ==> pieces_mag_le(merge_pair(s, i, j), m),
{
    let key = Quantitative {
        inf: if s[i].0.inf <= s[j].0.inf {
            s[i].0.inf
        } else {
            s[j].0.inf
        },
        sup: if s[i].0.sup >= s[j].0.sup {
            s[i].0.sup
        } else {
            s[j].0.sup
        },
    };
    let reduced = if i < j {
        s.remove(j).remove(i)
    } else {
        s.remove(i).remove(j)
    };
    if i < j {
        lemma_remove_wf(s, j, m);
        lemma_remove_wf(s.remove(j), i, m);
    } else {
        lemma_remove_wf(s, i, m);
        lemma_remove_wf(s.remove(i), j, m);
    }
    lemma_seq_insert_wf(reduced, key, s[i].1);
    if pieces_wf(s) && pieces_mag_le(s, m) {
        lemma_seq_insert_mag(reduced, key, s[i].1, m);
    }
}

/// The simplification fixed point: the first mergeable pair is merged,
/// again and again, until none is left. Each merge removes two pieces and
/// inserts one, so the process terminates.
pub open spec fn simplified(s: Seq<Piece>) -> Seq<Piece>
    decreases s.len(),
    via simplified_decreases
{
    match find_merge(s) {
        None => s,
        Some(ij) => simplified(merge_pair(s, ij.0, ij.1)),
    }
}

#[via_fn]
proof fn simplified_decreases(s: Seq<Piece>) {
    match find_merge(s) {
        None => {},
        Some(ij) => {
            lemma_find_merge_valid(s, 0);
            lemma_merge_pair_props(s, ij.0, ij.1, 0);
        },
    }
}

/// Simplification keeps the canonical shape and any coefficient bound,
/// and never grows the sequence.
pub proof fn lemma_simplified_props(s: Seq<Piece>, m: int)
    ensures
        simplified(s).len() <= s.len(),
        pieces_wf(s) ==> pieces_wf(simplified(s)),
        pieces_wf(s) && pieces_mag_le(s, m) ==> pieces_mag_le(simplified(s), m),
    decreases s.len(),
{
    match find_merge(s) {
        None => {},
        Some(ij) => {
            lemma_find_merge_valid(s, 0);
            lemma_merge_pair_props(s, ij.0, ij.1, m);
            lemma_simplified_props(merge_pair(s, ij.0, ij.1), m);
        },
    }
}

/// A simplified sequence has no mergeable pair left.
pub proof fn lemma_simplified_fixpoint(s: Seq<Piece>)
    ensures
        find_merge(simplified(s)) is None,
    decreases s.len(),
{
    match find_merge(s) {
        None => {},
        Some(ij) => {
            lemma_find_merge_valid(s, 0);
            lemma_merge_pair_props(s, ij.0, ij.1, 0);
            lemma_simplified_fixpoint(merge_pair(s, ij.0, ij.1));
        },
    }
}

/// Simplifying twice is the same as simplifying once: a sequence with no
/// mergeable pair left is returned unchanged.
pub proof fn lemma_simplified_idempotent(s: Seq<Piece>)
    ensures
        simplified(simplified(s)) == simplified(s),
{
    lemma_simplified_fixpoint(s);
}

/// Subtraction over a prefix grows one fragment batch at a time.
pub proof fn lemma_subtract_all_snoc(frags: Seq<Quantitative>, b: Quantitative, k: int)
    requires
        0 <= k < frags.len(),
    ensures
        subtract_all(frags.take(k + 1), b) == subtract_all(frags.take(k), b)
            + frags[k].spec_difference(b),
    decreases k,
{
    if k == 0 {
        assert(frags.take(1).len() == 1);
        assert(frags.take(1)[0] == frags[0]);
        assert(frags.take(1).drop_first() =~= Seq::<Quantitative>::empty());
        assert(subtract_all(frags.take(1), b) == frags.take(1)[0].spec_difference(b)
            + subtract_all(frags.take(1).drop_first(), b));
        assert(subtract_all(Seq::<Quantitative>::empty(), b) == Seq::<Quantitative>::empty());
        assert(frags.take(0).len() == 0);
        assert(subtract_all(frags.take(0), b) == Seq::<Quantitative>::empty());
        assert(subtract_all(frags.take(1), b) =~= subtract_all(frags.take(0), b)
            + frags[0].spec_difference(b));
    } else {
        lemma_subtract_all_snoc(frags.drop_first(), b, k - 1);
        assert(frags.take(k + 1).drop_first() =~= frags.drop_first().take(k));
        assert(frags.take(k).drop_first() =~= frags.drop_first().take(k - 1));
        assert(frags.take(k + 1)[0] == frags[0] && frags.take(k)[0] == frags[0]);
        assert(frags.drop_first()[k - 1] == frags[k]);
        assert(subtract_all(frags.take(k + 1), b) == frags[0].spec_difference(b) + subtract_all(
            frags.drop_first().take(k),
            b,
        ));
        assert(subtract_all(frags.take(k), b) == frags[0].spec_difference(b) + subtract_all(
            frags.drop_first().take(k - 1),
            b,
        ));
        assert(subtract_all(frags.take(k + 1), b) =~= subtract_all(frags.take(k), b)
            + frags[k].spec_difference(b));
    }
}

/// Batch insertion over a prefix grows one insertion at a time.
pub proof fn lemma_insert_ranges_snoc(
    acc: Seq<Piece>,
    ranges: Seq<Quantitative>,
    f: LinearFunction,
    k: int,
)
    requires
        0 <= k < ranges.len(),
    ensures
        insert_ranges(acc, ranges.take(k + 1), f) == seq_insert(
            insert_ranges(acc, ranges.take(k), f),
            ranges[k],
            f,
        ),
    decreases k,
{
    if k == 0 {
        assert(ranges.take(1).len() == 1);
        assert(ranges.take(1)[0] == ranges[0]);
        assert(ranges.take(1).drop_first() =~= Seq::<Quantitative>::empty());
        assert(ranges.take(0) =~= Seq::<Quantitative>::empty());
        assert(insert_ranges(acc, ranges.take(1), f) == insert_ranges(
            seq_insert(acc, ranges[0], f),
            ranges.take(1).drop_first(),
            f,
        ));
        assert(insert_ranges(seq_insert(acc, ranges[0], f), Seq::<Quantitative>::empty(), f)
            == seq_insert(acc, ranges[0], f));
        assert(insert_ranges(acc, ranges.take(0), f) == acc);
    } else {
        lemma_insert_ranges_snoc(seq_insert(acc, ranges[0], f), ranges.drop_first(), f, k - 1);
        assert(ranges.take(k + 1).drop_first() =~= ranges.drop_first().take(k));
        assert(ranges.take(k).drop_first() =~= ranges.drop_first().take(k - 1));
        assert(ranges.take(k + 1)[0] == ranges[0] && ranges.take(k)[0] == ranges[0]);
        assert(ranges.drop_first()[k - 1] == ranges[k]);
    }
}

/// The fold of [`add_step`] over a prefix grows one step at a time.
pub proof fn lemma_add_fold_snoc(
    acc: Seq<Piece>,
    diffs: Seq<Quantitative>,
    s: Seq<Piece>,
    range: Quantitative,
    piece: LinearFunction,
    k: int,
)
    requires
        0 <= k < s.len(),
    ensures
        add_fold(acc, diffs, s.take(k + 1), range, piece) == {
            let st = add_fold(acc, diffs, s.take(k), range, piece);
            add_step(st.0, st.1, s[k], range, piece)
        },
    decreases k,
{
    if k == 0 {
        assert(s.take(1).len() == 1);
        assert(s.take(1)[0] == s[0]);
        assert(s.take(1).drop_first() =~= Seq::<Piece>::empty());
        assert(s.take(0) =~= Seq::<Piece>::empty());
        let st0 = add_step(acc, diffs, s[0], range, piece);
        assert(add_fold(acc, diffs, s.take(1), range, piece) == add_fold(
            st0.0,
            st0.1,
            s.take(1).drop_first(),
            range,
            piece,
        ));
        assert(add_fold(st0.0, st0.1, Seq::<Piece>::empty(), range, piece) == st0);
        assert(add_fold(acc, diffs, s.take(0), range, piece) == (acc, diffs));
    } else {
        let st0 = add_step(acc, diffs, s[0], range, piece);
        lemma_add_fold_snoc(st0.0, st0.1, s.drop_first(), range, piece, k - 1);
        assert(s.take(k + 1).drop_first() =~= s.drop_first().take(k));
        assert(s.take(k).drop_first() =~= s.drop_first().take(k - 1));
        assert(s.take(k + 1)[0] == s[0] && s.take(k)[0] == s[0]);
        assert(s.drop_first()[k - 1] == s[k]);
    }
}

/// Exec mirror of [`mergeable`].
fn mergeable_exec(a: &Piece, b: &Piece) -> (r: bool)
    ensures
        r == mergeable(*a, *b),
{
    (a.0.inf == b.0.sup || a.0.sup == a.0.inf) && approx_equal(a.1.slope, b.1.slope, 3)
        && approx_equal(a.1.intercept, b.1.intercept, 3)
}

/// Finds the first mergeable pair in scan order, if any.
fn find_merge_exec(pieces: &Vec<Piece>) -> (r: Option<(usize, usize)>)
    ensures
        match r {
            Some(ij) => find_merge(pieces@) == Some((ij.0 as int, ij.1 as int)),
            None => find_merge(pieces@) is None,
        },
{
    let n = pieces.len();
    let mut i: usize = 0;
    while i < n
        invariant
            n == pieces@.len(),
            0 <= i <= n,
            find_merge_from(pieces@, 0) == find_merge_from(pieces@, i as int),
        decreases n - i,
    {
        let mut j: usize = 0;
        while j < n
            invariant
                n == pieces@.len(),
                0 <= i < n,
                0 <= j <= n,
                find_merge_from(pieces@, 0) == find_merge_from(pieces@, i as int),
                row_merge(pieces@, i as int, 0) == row_merge(pieces@, i as int, j as int),
            decreases n - j,
        {
            if j != i && mergeable_exec(&pieces[i], &pieces[j]) {
                return Some((i, j));
            }
            j = j + 1;
        }
        i = i + 1;
    }
    None
}

/// The value of a piece sequence at `x`: the first piece whose range
/// contains `x` decides, its line `slope * x + intercept` evaluated with
/// the product rounded back onto the fixed-point grid.
pub open spec fn spec_value_at(s: Seq<Piece>, x: int) -> Option<i64>
    decreases s.len(),
{
    if s.len() == 0 {
        None
    } else if s[0].0.inf <= x <= s[0].0.sup {
        Some(
            (crate::utilities::math::rounded_div(s[0].1.slope * x, 100000)
                + s[0].1.intercept) as i64,
        )
    } else {
        spec_value_at(s.drop_first(), x)
    }
}

/// Inserting a key above every stored key appends.
pub proof fn lemma_seq_insert_append(s: Seq<Piece>, key: Quantitative, f: LinearFunction)
    requires
        forall|i: int| 0 <= i < s.len() ==> key_lt((#[trigger] s[i]).0, key),
    ensures
        seq_insert(s, key, f) == s.push((key, f)),
    decreases s.len(),
{
    if s.len() == 0 {
        assert(seq_insert(s, key, f) =~= s.push((key, f)));
    } else {
        assert(key_lt(s[0].0, key));
        assert(!key_lt(key, s[0].0) && key != s[0].0);
        assert forall|i: int| 0 <= i < s.drop_first().len() implies key_lt(
            (#[trigger] s.drop_first()[i]).0,
            key,
        ) by {
            assert(s.drop_first()[i] == s[i + 1]);
        }
        lemma_seq_insert_append(s.drop_first(), key, f);
        assert(seq_insert(s, key, f) =~= s.push((key, f)));
    }
}

/// Two ranges that only touch, or do not meet at all, have no
/// intersection.
pub proof fn lemma_touching_none(p: Quantitative, r: Quantitative)
    requires
        p.spec_valid(),
        r.spec_valid(),
        p.sup <= r.inf || r.sup <= p.inf,
    ensures
        p.spec_intersection(r) is None,
{
}

/// Stored pieces re-inserted into an accumulator, in order.
pub open spec fn insert_pieces(acc: Seq<Piece>, rest: Seq<Piece>) -> Seq<Piece>
    decreases rest.len(),
{
    if rest.len() == 0 {
        acc
    } else {
        insert_pieces(seq_insert(acc, rest[0].0, rest[0].1), rest.drop_first())
    }
}

/// Re-inserting the remainder of a sorted sequence onto its own prefix
/// rebuilds the sequence.
pub proof fn lemma_insert_pieces_refold(s: Seq<Piece>, k: int)
    requires
        pieces_sorted(s),
        0 <= k <= s.len(),
    ensures
        insert_pieces(s.take(k), s.skip(k)) == s,
    decreases s.len() - k,
{
    if k == s.len() {
        assert(s.skip(k).len() == 0);
        assert(s.take(k) =~= s);
    } else {
        assert forall|i: int| 0 <= i < s.take(k).len() implies key_lt(
            (#[trigger] s.take(k)[i]).0,
            s[k].0,
        ) by {
            assert(s.take(k)[i] == s[i]);
        }
        lemma_seq_insert_append(s.take(k), s[k].0, s[k].1);
        assert(s.skip(k)[0] == s[k]);
        assert((s[k].0, s[k].1) == s[k]);
        assert(s.take(k).push(s[k]) =~= s.take(k + 1));
        assert(s.skip(k).drop_first() =~= s.skip(k + 1));
        lemma_insert_pieces_refold(s, k + 1);
    }
}

/// When no stored piece overlaps the inserted range, the fold keeps every
/// piece and the remainder untouched.
proof fn lemma_add_fold_none(
    acc: Seq<Piece>,
    diffs: Seq<Quantitative>,
    rest: Seq<Piece>,
    range: Quantitative,
    piece: LinearFunction,
)
    requires
        forall|i: int| 0 <= i < rest.len() ==> (#[trigger] rest[i]).0.spec_intersection(range)
            is None,
    ensures
        add_fold(acc, diffs, rest, range, piece) == (insert_pieces(acc, rest), diffs),
    decreases rest.len(),
{
    if rest.len() > 0 {
        assert forall|i: int|
            0 <= i < rest.drop_first().len() implies (#[trigger] rest.drop_first()[i]).0.spec_intersection(
            range,
        ) is None by {
            assert(rest.drop_first()[i] == rest[i + 1]);
        }
        lemma_add_fold_none(
            seq_insert(acc, rest[0].0, rest[0].1),
            diffs,
            rest.drop_first(),
            range,
            piece,
        );
    }
}

/// Adding a range that no stored piece overlaps — it only touches its
/// neighbours, or lies beyond them — just inserts the new piece at its
/// sorted position, before simplification.
pub proof fn lemma_added_disjoint(s: Seq<Piece>, range: Quantitative, piece: LinearFunction)
    requires
        pieces_wf(s),
        range.spec_valid(),
        forall|i: int| 0 <= i < s.len() ==> (#[trigger] s[i]).0.sup <= range.inf || range.sup
            <= s[i].0.inf,
    ensures
        added(s, range, piece) == seq_insert(s, range, piece),
{
    assert forall|i: int| 0 <= i < s.len() implies (#[trigger] s[i]).0.spec_intersection(range)
        is None by {
        lemma_touching_none(s[i].0, range);
    }
    lemma_add_fold_none(Seq::<Piece>::empty(), seq![range], s, range, piece);
    assert(s.take(0) =~= Seq::<Piece>::empty());
    assert(s.skip(0) =~= s);
    lemma_insert_pieces_refold(s, 0);
    assert(seq![range][0] == range);
    assert(seq![range].drop_first() =~= Seq::<Quantitative>::empty());
    assert(insert_ranges(seq_insert(s, range, piece), Seq::<Quantitative>::empty(), piece)
        == seq_insert(s, range, piece));
    assert(insert_ranges(s, seq![range], piece) == seq_insert(s, range, piece));
}

/// A sequence of two pieces that merge in neither direction is its own
/// simplification.
pub proof fn lemma_simplified_two(s: Seq<Piece>)
    requires
        s.len() == 2,
        !mergeable(s[0], s[1]),
        !mergeable(s[1], s[0]),
    ensures
        simplified(s) == s,
{
    assert(row_merge(s, 0, 2) is None);
    assert(row_merge(s, 0, 1) is None);
    assert(row_merge(s, 0, 0) is None);
    assert(row_merge(s, 1, 2) is None);
    assert(row_merge(s, 1, 1) is None);
    assert(row_merge(s, 1, 0) is None);
    assert(find_merge_from(s, 2) is None);
    assert(find_merge_from(s, 1) is None);
    assert(find_merge_from(s, 0) is None);
}

/// A sequence of two pieces where only the second merges into the first
/// simplifies to that merge's simplification.
pub proof fn lemma_simplified_two_merge(s: Seq<Piece>)
    requires
        s.len() == 2,
        !mergeable(s[0], s[1]),
        mergeable(s[1], s[0]),
    ensures
        simplified(s) == simplified(merge_pair(s, 1, 0)),
{
    assert(row_merge(s, 0, 2) is None);
    assert(row_merge(s, 0, 1) is None);
    assert(row_merge(s, 0, 0) is None);
    assert(row_merge(s, 1, 0) == Some(0int));
    assert(find_merge_from(s, 1) == Some((1int, 0int)));
    assert(find_merge_from(s, 0) == Some((1int, 0int)));
}

/// A sequence of three pieces with no mergeable ordered pair is its own
/// simplification.
pub proof fn lemma_simplified_three(s: Seq<Piece>)
    requires
        s.len() == 3,
        !mergeable(s[0], s[1]),
        !mergeable(s[0], s[2]),
        !mergeable(s[1], s[0]),
        !mergeable(s[1], s[2]),
        !mergeable(s[2], s[0]),
        !mergeable(s[2], s[1]),
    ensures
        simplified(s) == s,
{
    assert(row_merge(s, 0, 3) is None);
    assert(row_merge(s, 0, 2) is None);
    assert(row_merge(s, 0, 1) is None);
    assert(row_merge(s, 0, 0) is None);
    assert(row_merge(s, 1, 3) is None);
    assert(row_merge(s, 1, 2) is None);
    assert(row_merge(s, 1, 1) is None);
    assert(row_merge(s, 1, 0) is None);
    assert(row_merge(s, 2, 3) is None);
    assert(row_merge(s, 2, 2) is None);
    assert(row_merge(s, 2, 1) is None);
    assert(row_merge(s, 2, 0) is None);
    assert(find_merge_from(s, 3) is None);
    assert(find_merge_from(s, 2) is None);
    assert(find_merge_from(s, 1) is None);
    assert(find_merge_from(s, 0) is None);
}

/// A sequence of three pieces whose only mergeable ordered pair is the
/// third into the second simplifies to that merge's simplification.
pub proof fn lemma_simplified_three_merge(s: Seq<Piece>)
    requires
        s.len() == 3,
        !mergeable(s[0], s[1]),
        !mergeable(s[0], s[2]),
        !mergeable(s[1], s[0]),
        !mergeable(s[1], s[2]),
        !mergeable(s[2], s[0]),
        mergeable(s[2], s[1]),
    ensures
        simplified(s) == simplified(merge_pair(s, 2, 1)),
{
    assert(row_merge(s, 0, 3) is None);
    assert(row_merge(s, 0, 2) is None);
    assert(row_merge(s, 0, 1) is None);
    assert(row_merge(s, 0, 0) is None);
    assert(row_merge(s, 1, 3) is None);
    assert(row_merge(s, 1, 2) is None);
    assert(row_merge(s, 1, 1) is None);
    assert(row_merge(s, 1, 0) is None);
    assert(row_merge(s, 2, 1) == Some(1int));
    assert(row_merge(s, 2, 0) == Some(1int));
    assert(find_merge_from(s, 2) == Some((2int, 1int)));
    assert(find_merge_from(s, 1) == Some((2int, 1int)));
    assert(find_merge_from(s, 0) == Some((2int, 1int)));
}

/// No piece ever reaches into a later piece: each upper bound stays at or
/// below every later lower bound.
pub open spec fn pieces_disjoint(s: Seq<Piece>) -> bool {
    forall|i: int, j: int| 0 <= i < j < s.len() ==> (#[trigger] s[i]).0.sup <= (
    #[trigger] s[j]).0.inf
}

/// A sequence has no mergeable pair exactly when the scan finds none.
pub proof fn lemma_no_merge_iff(s: Seq<Piece>)
    ensures
        find_merge(s) is None <==> (forall|i: int, j: int|
            0 <= i < s.len() && 0 <= j < s.len() && i != j ==> !mergeable(
                #[trigger] s[i],
                #[trigger] s[j],
            )),
{
    if find_merge(s) is None {
        assert forall|i: int, j: int|
            0 <= i < s.len() && 0 <= j < s.len() && i != j implies !mergeable(
            #[trigger] s[i],
            #[trigger] s[j],
        ) by {
            lemma_find_merge_none_row(s, 0, i);
            lemma_row_merge_valid(s, i, 0);
        }
    } else {
        lemma_find_merge_valid(s, 0);
    }
}

/// When the outer scan finds nothing from `i0` on, each row from `i0` on
/// finds nothing.
proof fn lemma_find_merge_none_row(s: Seq<Piece>, i0: int, i: int)
    requires
        0 <= i0 <= i < s.len(),
        find_merge_from(s, i0) is None,
    ensures
        row_merge(s, i, 0) is None,
    decreases i - i0,
{
    if i0 < i {
        lemma_find_merge_none_row(s, i0 + 1, i);
    }
}

/// When no pair merges, each row's scan finds nothing.
proof fn lemma_row_merge_none(s: Seq<Piece>, i: int, j0: int)
    requires
        0 <= i < s.len(),
        0 <= j0 <= s.len(),
        forall|j: int| 0 <= j < s.len() && j != i ==> !mergeable(s[i], #[trigger] s[j]),
    ensures
        row_merge(s, i, j0) is None,
    decreases s.len() - j0,
{
    if j0 < s.len() {
        lemma_row_merge_none(s, i, j0 + 1);
    }
}

/// When no pair merges, the whole scan finds nothing.
proof fn lemma_find_merge_none(s: Seq<Piece>, i0: int)
    requires
        0 <= i0 <= s.len(),
        forall|i: int, j: int|
            0 <= i < s.len() && 0 <= j < s.len() && i != j ==> !mergeable(
                #[trigger] s[i],
                #[trigger] s[j],
            ),
    ensures
        find_merge_from(s, i0) is None,
    decreases s.len() - i0,
{
    if i0 < s.len() {
        lemma_row_merge_none(s, i0, 0);
        lemma_find_merge_none(s, i0 + 1);
    }
}

/// A prefix of a sequence with no mergeable pair has none either.
proof fn lemma_prefix_no_merge(s: Seq<Piece>, k: int)
    requires
        0 <= k <= s.len(),
        find_merge(s) is None,
    ensures
        find_merge(s.take(k)) is None,
{
    lemma_no_merge_iff(s);
    assert forall|i: int, j: int|
        0 <= i < s.take(k).len() && 0 <= j < s.take(k).len() && i != j implies !mergeable(
        #[trigger] s.take(k)[i],
        #[trigger] s.take(k)[j],
    ) by {
        assert(s.take(k)[i] == s[i] && s.take(k)[j] == s[j]);
    }
    lemma_find_merge_none(s.take(k), 0);
}

/// Re-inserting the pieces of a simplified function with disjoint pieces
/// into a prefix of itself rebuilds it exactly.
proof fn lemma_merge_refold(b: Seq<Piece>, k: int)
    requires
        pieces_wf(b),
        pieces_disjoint(b),
        find_merge(b) is None,
        0 <= k <= b.len(),
    ensures
        merge_spec(b.take(k), b.skip(k)) == b,
    decreases b.len() - k,
{
    if k == b.len() {
        assert(b.skip(k).len() == 0);
        assert(b.take(k) =~= b);
    } else {
        let p = b[k];
        assert(b.skip(k)[0] == p);
        assert(b.skip(k).drop_first() =~= b.skip(k + 1));
        assert(pieces_wf(b.take(k))) by {
            assert forall|i: int, j: int| 0 <= i < j < b.take(k).len() implies key_lt(
                (#[trigger] b.take(k)[i]).0,
                (#[trigger] b.take(k)[j]).0,
            ) by {
                assert(b.take(k)[i] == b[i] && b.take(k)[j] == b[j]);
            }
            assert forall|i: int|
                0 <= i < b.take(k).len() implies (#[trigger] b.take(k)[i]).0.spec_valid() by {
                assert(b.take(k)[i] == b[i]);
            }
        }
        assert forall|i: int|
            0 <= i < b.take(k).len() implies (#[trigger] b.take(k)[i]).0.sup <= p.0.inf || p.0.sup
            <= b.take(k)[i].0.inf by {
            assert(b.take(k)[i] == b[i]);
        }
        lemma_added_disjoint(b.take(k), p.0, p.1);
        assert forall|i: int| 0 <= i < b.take(k).len() implies key_lt(
            (#[trigger] b.take(k)[i]).0,
            p.0,
        ) by {
            assert(b.take(k)[i] == b[i]);
        }
        lemma_seq_insert_append(b.take(k), p.0, p.1);
        assert((p.0, p.1) == p);
        assert(b.take(k).push(p) =~= b.take(k + 1));
        lemma_prefix_no_merge(b, k + 1);
        assert(simplified(b.take(k + 1)) == b.take(k + 1));
        lemma_merge_refold(b, k + 1);
    }
}

/// Merging with the empty function commutes: the pieces of a simplified
/// function with pairwise disjoint pieces, re-inserted in order into the
/// empty function, rebuild that function exactly — the same result as
/// merging the empty function into it.
pub proof fn lemma_merge_empty_commutes(b: Seq<Piece>)
    requires
        pieces_wf(b),
        pieces_disjoint(b),
        find_merge(b) is None,
    ensures
        merge_spec(Seq::<Piece>::empty(), b) == merge_spec(b, Seq::<Piece>::empty()),
        merge_spec(Seq::<Piece>::empty(), b) == b,
{
    assert(b.take(0) =~= Seq::<Piece>::empty());
    assert(b.skip(0) =~= b);
    lemma_merge_refold(b, 0);
}

/// The total coefficient magnitude over all stored functions: an upper
/// bound on how much merging a whole function into another can raise any
/// one coefficient.
pub open spec fn mags_total(s: Seq<Piece>) -> int
    decreases s.len(),
{
    if s.len() == 0 {
        0
    } else {
        fn_mag(s[0].1) + mags_total(s.drop_first())
    }
}

/// Prefix totals are bounded by the whole, and grow one piece at a time.
pub proof fn lemma_mags_total_prefix(s: Seq<Piece>, k: int)
    requires
        0 <= k <= s.len(),
    ensures
        0 <= mags_total(s.take(k)) <= mags_total(s),
        k < s.len() ==> mags_total(s.take(k + 1)) == mags_total(s.take(k)) + fn_mag(s[k].1),
    decreases s.len(),
{
    if s.len() == 0 {
        assert(s.take(k) =~= s);
    } else if k == 0 {
        assert(s.take(0) =~= Seq::<Piece>::empty());
        assert(s.take(1).len() == 1);
        assert(s.take(1)[0] == s[0]);
        assert(s.take(1).drop_first() =~= Seq::<Piece>::empty());
        lemma_mags_total_prefix(s.drop_first(), 0);
        assert(mags_total(s) == fn_mag(s[0].1) + mags_total(s.drop_first()));
        assert(s.drop_first().take(0) =~= Seq::<Piece>::empty());
    } else {
        lemma_mags_total_prefix(s.drop_first(), k - 1);
        assert(s.take(k)[0] == s[0]);
        assert(s.take(k).drop_first() =~= s.drop_first().take(k - 1));
        if k < s.len() {
            assert(s.take(k + 1)[0] == s[0]);
            assert(s.take(k + 1).drop_first() =~= s.drop_first().take(k));
            assert(s.drop_first()[k - 1] == s[k]);
        }
    }
}

/// The pieces of `rest` added into `a`, in order: first piece first, each
/// insertion simplified as [`PiecewiseLinearFunction::add`] leaves it.
pub open spec fn merge_spec(a: Seq<Piece>, rest: Seq<Piece>) -> Seq<Piece>
    decreases rest.len(),
{
    if rest.len() == 0 {
        a
    } else {
        merge_spec(simplified(added(a, rest[0].0, rest[0].1)), rest.drop_first())
    }
}

impl View for PiecewiseLinearFunction {
    type V = Seq<Piece>;

    closed spec fn view(&self) -> Seq<Piece> {
        self.pieces@
    }
}

impl PiecewiseLinearFunction {
    /// The stored pieces are sorted, distinct and ordered.
    pub open spec fn wf(self) -> bool {
        pieces_wf(self@)
    }

    /// Creates a new, empty piecewise linear function.
    pub fn new() -> (r: Self)
        ensures
            r@ == Seq::<Piece>::empty(),
            r.wf(),
    {
        let r = Self { pieces: Vec::new() };
        proof {
            assert(r@ =~= Seq::<Piece>::empty());
        }
        r
    }

    /// Merges adjacent pieces whose functions agree at three decimals,
    /// again and again, until no mergeable pair is left. Running it on an
    /// already simplified function changes nothing: the result is always a
    /// fixed point of itself.
    pub fn simplify(&mut self)
        requires
            old(self).wf(),
        ensures
            final(self)@ == simplified(old(self)@),
            final(self).wf(),
    {
        loop
            invariant
                self.wf(),
                simplified(self@) == simplified(old(self)@),
            ensures
                self.wf(),
                simplified(self@) == simplified(old(self)@),
                find_merge(self@) is None,
            decreases self@.len(),
        {
            let found = find_merge_exec(&self.pieces);
            match found {
                None => {
                    break ;
                },
                Some((i, j)) => {
                    proof {
                        lemma_find_merge_valid(self@, 0);
                        lemma_merge_pair_props(self@, i as int, j as int, 0);
                    }
                    let ghost prev = self@;
                    let pi: Piece = self.pieces[i];
                    let pj: Piece = self.pieces[j];
                    let key = Quantitative {
                        inf: if pi.0.inf <= pj.0.inf {
                            pi.0.inf
                        } else {
                            pj.0.inf
                        },
                        sup: if pi.0.sup >= pj.0.sup {
                            pi.0.sup
                        } else {
                            pj.0.sup
                        },
                    };
                    if i < j {
                        self.pieces.remove(j);
                        self.pieces.remove(i);
                    } else {
                        self.pieces.remove(i);
                        self.pieces.remove(j);
                    }
                    insert_piece(&mut self.pieces, key, pi.1);
                    proof {
                        assert(self@ == merge_pair(prev, i as int, j as int));
                        assert(simplified(prev) == simplified(merge_pair(prev, i as int, j as int)));
                    }
                },
            }
        }
    }

    /// Adds a linear function over `[inf, sup]`, splitting the existing
    /// pieces where they overlap the new range: over each overlap the
    /// stored function and the new one are summed; outside it the stored
    /// functions stay unchanged; parts of the range no existing piece
    /// covers receive the new function as given. The rebuilt map is then
    /// simplified. Rejects `inf > sup`, leaving the function unchanged.
    pub fn add(&mut self, inf: i64, sup: i64, piece: LinearFunction) -> (r: Result<
        (),
        PiecewiseLinearFunctionError,
    >)
        requires
            old(self).wf(),
            max_mag(old(self)@) + fn_mag(piece) <= 4000000000000000000,
        ensures
            inf > sup ==> r == Err::<(), PiecewiseLinearFunctionError>(
                PiecewiseLinearFunctionError::InvalidPieceRange { inf, sup },
            ) && final(self)@ == old(self)@,
            inf <= sup ==> r == Ok::<(), PiecewiseLinearFunctionError>(()) && final(self)@
                == simplified(added(old(self)@, Quantitative { inf, sup }, piece)),
            final(self).wf(),
            max_mag(final(self)@) <= max_mag(old(self)@) + fn_mag(piece),
    {
        proof {
            lemma_max_mag(old(self)@);
        }
        if inf > sup {
            return Err(PiecewiseLinearFunctionError::InvalidPieceRange { inf, sup });
        }
        let range = Quantitative { inf, sup };
        let ghost orig = self@;
        let ghost bound = max_mag(orig) + fn_mag(piece);
        let mut new_pieces: Vec<Piece> = Vec::new();
        let mut differences: Vec<Quantitative> = Vec::new();
        differences.push(range);
        proof {
            assert(differences@ =~= seq![range]);
            assert(new_pieces@ =~= Seq::<Piece>::empty());
            assert(orig.take(0) =~= Seq::<Piece>::empty());
        }
        let n = self.pieces.len();
        let mut idx: usize = 0;
        while idx < n
            invariant
                n == self@.len(),
                0 <= idx <= n,
                self@ == orig,
                pieces_wf(orig),
                pieces_mag_le(orig, max_mag(orig)),
                0 <= max_mag(orig),
                0 <= fn_mag(piece),
                bound == max_mag(orig) + fn_mag(piece),
                bound <= 4000000000000000000,
                range.spec_valid(),
                (new_pieces@, differences@) == add_fold(
                    Seq::<Piece>::empty(),
                    seq![range],
                    orig.take(idx as int),
                    range,
                    piece,
                ),
                pieces_wf(new_pieces@),
                pieces_mag_le(new_pieces@, bound),
                ranges_valid(differences@),
            decreases n - idx,
        {
            let p: Piece = self.pieces[idx];
            proof {
                assert(orig[idx as int] == p);
            }
            match p.0.intersection(&range) {
                Some(overlap) => {
                    // shrink the still-uncovered remainder of the range
                    let mut aux: Vec<Quantitative> = Vec::new();
                    let dn = differences.len();
                    let mut di: usize = 0;
                    proof {
                        assert(aux@ =~= subtract_all(differences@.take(0), p.0));
                    }
                    while di < dn
                        invariant
                            dn == differences@.len(),
                            0 <= di <= dn,
                            aux@ == subtract_all(differences@.take(di as int), p.0),
                        decreases dn - di,
                    {
                        let frag = differences[di];
                        let mut parts = frag.difference(&p.0);
                        let ghost before = aux@;
                        aux.append(&mut parts);
                        proof {
                            lemma_subtract_all_snoc(differences@, p.0, di as int);
                            assert(aux@ =~= before + frag.spec_difference(p.0));
                        }
                        di = di + 1;
                    }
                    proof {
                        assert(differences@.take(dn as int) =~= differences@);
                    }
                    // keep the uncovered parts of the existing piece
                    let frags = p.0.difference(&overlap);
                    let fcount = frags.len();
                    let mut fi: usize = 0;
                    let ghost acc0 = new_pieces@;
                    proof {
                        assert(insert_ranges(acc0, frags@.take(0), p.1) == acc0);
                        crate::domain::quantitative::lemma_difference_valid(p.0, overlap);
                    }
                    while fi < fcount
                        invariant
                            fcount == frags@.len(),
                            0 <= fi <= fcount,
                            new_pieces@ == insert_ranges(acc0, frags@.take(fi as int), p.1),
                        decreases fcount - fi,
                    {
                        let frag = frags[fi];
                        insert_piece(&mut new_pieces, frag, p.1);
                        proof {
                            lemma_insert_ranges_snoc(acc0, frags@, p.1, fi as int);
                        }
                        fi = fi + 1;
                    }
                    proof {
                        assert(frags@.take(fcount as int) =~= frags@);
                    }
                    // the overlap carries the coefficient sum
                    let summed = p.1.sum(&piece);
                    insert_piece(&mut new_pieces, overlap, summed);
                    differences = aux;
                },
                None => {
                    insert_piece(&mut new_pieces, p.0, p.1);
                },
            }
            proof {
                lemma_add_fold_snoc(
                    Seq::<Piece>::empty(),
                    seq![range],
                    orig,
                    range,
                    piece,
                    idx as int,
                );
                let st = add_fold(
                    Seq::<Piece>::empty(),
                    seq![range],
                    orig.take(idx as int),
                    range,
                    piece,
                );
                lemma_add_fold_props(
                    Seq::<Piece>::empty(),
                    seq![range],
                    orig.take(idx as int + 1),
                    range,
                    piece,
                    bound,
                );
            }
            idx = idx + 1;
        }
        proof {
            assert(orig.take(n as int) =~= orig);
        }
        // every part of the range no piece covered receives the new
        // function unchanged
        let dn = differences.len();
        let mut di: usize = 0;
        let ghost acc1 = new_pieces@;
        proof {
            assert(insert_ranges(acc1, differences@.take(0), piece) == acc1);
        }
        while di < dn
            invariant
                dn == differences@.len(),
                0 <= di <= dn,
                new_pieces@ == insert_ranges(acc1, differences@.take(di as int), piece),
            decreases dn - di,
        {
            let frag = differences[di];
            insert_piece(&mut new_pieces, frag, piece);
            proof {
                lemma_insert_ranges_snoc(acc1, differences@, piece, di as int);
            }
            di = di + 1;
        }
        proof {
            assert(differences@.take(dn as int) =~= differences@);
            let st = add_fold(Seq::<Piece>::empty(), seq![range], orig, range, piece);
            lemma_add_fold_props(
                Seq::<Piece>::empty(),
                seq![range],
                orig,
                range,
                piece,
                bound,
            );
            lemma_insert_ranges_props(st.0, st.1, piece, bound);
            assert(new_pieces@ == added(orig, range, piece));
        }
        self.pieces = new_pieces;
        proof {
            lemma_simplified_props(self@, bound);
        }
        self.simplify();
        proof {
            lemma_max_mag(self@);
        }
        Ok(())
    }

    /// Merges two piecewise linear functions: every piece of `other` is
    /// re-inserted into a copy of `self` through
    /// [`PiecewiseLinearFunction::add`], so overlapping regions accumulate
    /// coefficient sums.
    pub fn merge(&self, other: &Self) -> (r: Self)
        requires
            self.wf(),
            other.wf(),
            max_mag(self@) + mags_total(other@) <= 4000000000000000000,
        ensures
            r@ == merge_spec(self@, other@),
            r.wf(),
            max_mag(r@) <= max_mag(self@) + mags_total(other@),
    {
        proof {
            lemma_max_mag(self@);
        }
        let mut result = self.clone_plf();
        let n = other.pieces.len();
        let mut k: usize = 0;
        proof {
            lemma_mags_total_prefix(other@, 0);
            assert(other@.skip(0) =~= other@);
        }
        while k < n
            invariant
                n == other@.len(),
                0 <= k <= n,
                other.wf(),
                result.wf(),
                max_mag(self@) + mags_total(other@) <= 4000000000000000000,
                max_mag(result@) <= max_mag(self@) + mags_total(other@.take(k as int)),
                mags_total(other@.take(k as int)) <= mags_total(other@),
                merge_spec(result@, other@.skip(k as int)) == merge_spec(self@, other@),
            decreases n - k,
        {
            let p: Piece = other.pieces[k];
            proof {
                lemma_mags_total_prefix(other@, k as int);
                lemma_mags_total_prefix(other@, k as int + 1);
                assert(other@[k as int] == p);
                assert(0 <= fn_mag(p.1)) by {
                    lemma_max_mag(other@);
                }
                lemma_max_mag(result@);
            }
            let ghost before = result@;
            let outcome = result.add(p.0.inf, p.0.sup, p.1);
            proof {
                assert(p.0.spec_valid());
                assert(Quantitative { inf: p.0.inf, sup: p.0.sup } == p.0);
                assert(other@.skip(k as int)[0] == p);
                assert(other@.skip(k as int).drop_first() =~= other@.skip(k as int + 1));
                assert(merge_spec(before, other@.skip(k as int)) == merge_spec(
                    simplified(added(before, p.0, p.1)),
                    other@.skip(k as int + 1),
                ));
                lemma_mags_total_prefix(other@, k as int + 1);
            }
            match outcome {
                Ok(()) => {},
                Err(_) => {
                    proof {
                        assert(false);
                    }
                },
            }
            k = k + 1;
        }
        proof {
            assert(other@.skip(n as int) =~= Seq::<Piece>::empty());
            assert(merge_spec(result@, Seq::<Piece>::empty()) == result@);
            assert(other@.take(n as int) =~= other@);
        }
        result
    }

    /// Returns the stored ranges, sorted by lower bound.
    pub fn pieces(&self) -> (r: Vec<Quantitative>)
        ensures
            r@.len() == self@.len(),
            forall|i: int| 0 <= i < self@.len() ==> r@[i] == (#[trigger] self@[i]).0,
    {
        let n = self.pieces.len();
        let mut r: Vec<Quantitative> = Vec::new();
        let mut k: usize = 0;
        while k < n
            invariant
                n == self@.len(),
                0 <= k <= n,
                r@.len() == k,
                forall|i: int| 0 <= i < k ==> r@[i] == (#[trigger] self@[i]).0,
            decreases n - k,
        {
            r.push(self.pieces[k].0);
            k = k + 1;
        }
        r
    }

    /// The function's value at `x`: the first stored piece whose range
    /// contains `x` decides, its line evaluated on the fixed-point grid;
    /// outside every piece there is no value.
    pub fn value_at(&self, x: i64) -> (r: Option<i64>)
        requires
            self.wf(),
            pieces_mag_le(self@, 1000000000000),
            -10000000 <= x <= 10000000,
        ensures
            r == spec_value_at(self@, x as int),
    {
        let n = self.pieces.len();
        let mut k: usize = 0;
        proof {
            assert(self@.skip(0) =~= self@);
        }
        while k < n
            invariant
                n == self@.len(),
                0 <= k <= n,
                pieces_mag_le(self@, 1000000000000),
                -10000000 <= x <= 10000000,
                spec_value_at(self@, x as int) == spec_value_at(self@.skip(k as int), x as int),
            decreases n - k,
        {
            let p: Piece = self.pieces[k];
            proof {
                assert(self@.skip(k as int)[0] == p);
                assert(self@.skip(k as int).drop_first() =~= self@.skip(k as int + 1));
                assert(fn_mag(p.1) <= 1000000000000);
            }
            if p.0.inf <= x && x <= p.0.sup {
                proof {
                    assert(p.1.slope * x <= 1000000000000 * 10000000 && p.1.slope * x
                        >= -(1000000000000 * 10000000)) by (nonlinear_arith)
                        requires
                            -1000000000000 <= p.1.slope <= 1000000000000,
                            -10000000 <= x <= 10000000,
                    ;
                    crate::utilities::math::lemma_round_div_magnitude(
                        p.1.slope as int * x as int,
                        100000,
                    );
                }
                let prod: i128 = p.1.slope as i128 * x as i128;
                let y0: i64 = if prod >= 0 {
                    ((2 * (prod as u128) + 100000) / 200000) as i64
                } else {
                    (-(((2 * ((-prod) as u128) + 100000) / 200000) as i128)) as i64
                };
                let y: i64 = y0 + p.1.intercept;
                return Some(y);
            }
            k = k + 1;
        }
        proof {
            assert(self@.skip(n as int) =~= Seq::<Piece>::empty());
        }
        None
    }

    /// The canonical textual form: pieces in their sorted order, each as
    /// `([inf, sup] => y = slope·x ± intercept)` with two decimals, joined
    /// by `"; "`.
    pub fn render(&self) -> (r: String)
        requires
            pieces_mag_le(self@, 4000000000000000000),
        ensures
            r@ == render_text(self@),
    {
        let mut out = String::new();
        let n = self.pieces.len();
        let mut k: usize = 0;
        proof {
            assert(self@.take(0) =~= Seq::<Piece>::empty());
        }
        while k < n
            invariant
                n == self@.len(),
                0 <= k <= n,
                pieces_mag_le(self@, 4000000000000000000),
                out@ == render_text(self@.take(k as int)),
            decreases n - k,
        {
            if k > 0 {
                proof {
                    reveal_strlit("; ");
                    assert(("; ")@ =~= seq![';', ' ']);
                }
                out.append("; ");
            }
            let p: Piece = self.pieces[k];
            proof {
                assert(self@[k as int] == p);
                assert(fn_mag(p.1) <= 4000000000000000000);
            }
            push_piece(&mut out, p);
            proof {
                lemma_render_snoc(self@, k as int);
                assert(out@ =~= render_text(self@.take(k as int + 1)));
            }
            k = k + 1;
        }
        proof {
            assert(self@.take(n as int) =~= self@);
        }
        out
    }

    /// An exact copy, piece for piece.
    fn clone_plf(&self) -> (r: Self)
        ensures
            r@ == self@,
    {
        let n = self.pieces.len();
        let mut pieces: Vec<Piece> = Vec::new();
        let mut k: usize = 0;
        while k < n
            invariant
                n == self@.len(),
                0 <= k <= n,
                pieces@ == self@.take(k as int),
            decreases n - k,
        {
            pieces.push(self.pieces[k]);
            proof {
                assert(pieces@ =~= self@.take(k as int + 1));
            }
            k = k + 1;
        }
        proof {
            assert(self@.take(n as int) =~= self@);
        }
        Self { pieces }
    }
}

impl Clone for PiecewiseLinearFunction {
    /// Cloning copies every piece.
    fn clone(&self) -> (r: Self)
        ensures
            r@ == self@,
    {
        self.clone_plf()
    }
}

impl PartialEq for PiecewiseLinearFunction {
    /// Two piecewise linear functions are equal when they store the same
    /// pieces; the canonical sorted order makes this a map comparison.
    fn eq(&self, other: &Self) -> (r: bool) {
        let n = self.pieces.len();
        if n != other.pieces.len() {
            proof {
                assert(self@ != other@);
            }
            return false;
        }
        let mut k: usize = 0;
        while k < n
            invariant
                n == self@.len() == other@.len(),
                0 <= k <= n,
                forall|i: int| 0 <= i < k ==> self@[i] == other@[i],
            decreases n - k,
        {
            let a: Piece = self.pieces[k];
            let b: Piece = other.pieces[k];
            if !(a.0 == b.0 && a.1 == b.1) {
                proof {
                    assert(self@[k as int] != other@[k as int]);
                }
                return false;
            }
            k = k + 1;
        }
        proof {
            assert(self@ =~= other@);
        }
        true
    }
}

impl vstd::std_specs::cmp::PartialEqSpecImpl for PiecewiseLinearFunction {
    open spec fn obeys_eq_spec() -> bool {
        true
    }

    open spec fn eq_spec(&self, other: &Self) -> bool {
        self@ == other@
    }
}

/// The decimal digit characters of `d`, for one digit.
pub open spec fn digit_char(d: int) -> char {
    if d == 0 {
        '0'
    } else if d == 1 {
        '1'
    } else if d == 2 {
        '2'
    } else if d == 3 {
        '3'
    } else if d == 4 {
        '4'
    } else if d == 5 {
        '5'
    } else if d == 6 {
        '6'
    } else if d == 7 {
        '7'
    } else if d == 8 {
        '8'
    } else {
        '9'
    }
}

/// The decimal digits of a non-negative number, most significant first.
pub open spec fn dec_digits(n: int) -> Seq<char>
    decreases n,
{
    if n < 10 {
        seq![digit_char(n)]
    } else {
        dec_digits(n / 10).push(digit_char(n % 10))
    }
}

/// A fixed-point value rendered with two decimals: rounded to hundredths,
/// halves away from zero, a leading minus for negative values.
pub open spec fn fixed2_text(v: int) -> Seq<char> {
    let r = crate::utilities::math::rounded_div(v, 1000);
    let a = if r < 0 {
        -r
    } else {
        r
    };
    let sign: Seq<char> = if r < 0 {
        seq!['-']
    } else {
        Seq::empty()
    };
    sign + dec_digits(a / 100) + seq!['.'] + seq![digit_char((a / 10) % 10), digit_char(a % 10)]
}

/// One piece rendered as `([inf, sup] => y = slope·x ± intercept)`, all
/// numbers at two decimals and the intercept's sign written out.
pub open spec fn piece_text(p: Piece) -> Seq<char> {
    let sign: char = if p.1.intercept < 0 {
        '-'
    } else {
        '+'
    };
    let ia: int = if p.1.intercept < 0 {
        -(p.1.intercept as int)
    } else {
        p.1.intercept as int
    };
    seq!['(', '['] + fixed2_text(p.0.inf as int) + seq![',', ' '] + fixed2_text(p.0.sup as int)
        + seq![']', ' ', '=', '>', ' ', 'y', ' ', '=', ' '] + fixed2_text(p.1.slope as int)
        + seq!['\u{b7}', 'x', ' ', sign, ' '] + fixed2_text(ia) + seq![')']
}

/// The pieces after the first, each preceded by the separator.
pub open spec fn render_rest(s: Seq<Piece>) -> Seq<char>
    decreases s.len(),
{
    if s.len() == 0 {
        Seq::empty()
    } else {
        seq![';', ' '] + piece_text(s[0]) + render_rest(s.drop_first())
    }
}

/// The canonical textual form: the pieces in their sorted order, joined
/// by `"; "`.
pub open spec fn render_text(s: Seq<Piece>) -> Seq<char> {
    if s.len() == 0 {
        Seq::empty()
    } else {
        piece_text(s[0]) + render_rest(s.drop_first())
    }
}

/// The rendering grows piece by piece over prefixes.
pub proof fn lemma_render_snoc(s: Seq<Piece>, k: int)
    requires
        0 <= k < s.len(),
    ensures
        k == 0 ==> render_text(s.take(1)) == piece_text(s[0]),
        k > 0 ==> render_text(s.take(k + 1)) == render_text(s.take(k)) + seq![';', ' ']
            + piece_text(s[k]),
    decreases k,
{
    if k == 0 {
        assert(s.take(1).len() == 1);
        assert(s.take(1)[0] == s[0]);
        assert(s.take(1).drop_first() =~= Seq::<Piece>::empty());
        assert(render_text(s.take(1)) =~= piece_text(s[0]));
    } else {
        lemma_render_rest_snoc(s.drop_first(), k - 1);
        assert(s.take(k + 1)[0] == s[0] && s.take(k)[0] == s[0]);
        assert(s.take(k + 1).drop_first() =~= s.drop_first().take(k));
        assert(s.take(k).drop_first() =~= s.drop_first().take(k - 1));
        assert(s.drop_first()[k - 1] == s[k]);
        assert(render_text(s.take(k + 1)) =~= render_text(s.take(k)) + seq![';', ' ']
            + piece_text(s[k]));
    }
}

/// The tail rendering grows piece by piece over prefixes.
proof fn lemma_render_rest_snoc(s: Seq<Piece>, k: int)
    requires
        0 <= k < s.len(),
    ensures
        render_rest(s.take(k + 1)) == render_rest(s.take(k)) + seq![';', ' '] + piece_text(s[k]),
    decreases k,
{
    if k == 0 {
        assert(s.take(1).len() == 1);
        assert(s.take(1)[0] == s[0]);
        assert(s.take(1).drop_first() =~= Seq::<Piece>::empty());
        assert(s.take(0) =~= Seq::<Piece>::empty());
        assert(render_rest(s.take(1)) =~= render_rest(s.take(0)) + seq![';', ' '] + piece_text(
            s[0],
        ));
    } else {
        lemma_render_rest_snoc(s.drop_first(), k - 1);
        assert(s.take(k + 1)[0] == s[0] && s.take(k)[0] == s[0]);
        assert(s.take(k + 1).drop_first() =~= s.drop_first().take(k));
        assert(s.take(k).drop_first() =~= s.drop_first().take(k - 1));
        assert(s.drop_first()[k - 1] == s[k]);
        assert(render_rest(s.take(k + 1)) =~= render_rest(s.take(k)) + seq![';', ' ']
            + piece_text(s[k]));
    }
}

/// Appends one decimal digit character.
fn push_digit(out: &mut String, d: u64)
    requires
        d < 10,
    ensures
        final(out)@ == old(out)@ + seq![digit_char(d as int)],
{
    if d == 0 {
        proof {
            reveal_strlit("0");
            assert(("0")@ =~= seq!['0']);
        }
        out.append("0");
    } else if d == 1 {
        proof {
            reveal_strlit("1");
            assert(("1")@ =~= seq!['1']);
        }
        out.append("1");
    } else if d == 2 {
        proof {
            reveal_strlit("2");
            assert(("2")@ =~= seq!['2']);
        }
        out.append("2");
    } else if d == 3 {
        proof {
            reveal_strlit("3");
            assert(("3")@ =~= seq!['3']);
        }
        out.append("3");
    } else if d == 4 {
        proof {
            reveal_strlit("4");
            assert(("4")@ =~= seq!['4']);
        }
        out.append("4");
    } else if d == 5 {
        proof {
            reveal_strlit("5");
            assert(("5")@ =~= seq!['5']);
        }
        out.append("5");
    } else if d == 6 {
        proof {
            reveal_strlit("6");
            assert(("6")@ =~= seq!['6']);
        }
        out.append("6");
    } else if d == 7 {
        proof {
            reveal_strlit("7");
            assert(("7")@ =~= seq!['7']);
        }
        out.append("7");
    } else if d == 8 {
        proof {
            reveal_strlit("8");
            assert(("8")@ =~= seq!['8']);
        }
        out.append("8");
    } else {
        proof {
            reveal_strlit("9");
            assert(("9")@ =~= seq!['9']);
        }
        out.append("9");
    }
}

/// Appends the decimal digits of `n`, most significant first.
fn push_digits(out: &mut String, n: u64)
    ensures
        final(out)@ == old(out)@ + dec_digits(n as int),
    decreases n,
{
    if n < 10 {
        push_digit(out, n);
    } else {
        push_digits(out, n / 10);
        push_digit(out, n % 10);
        proof {
            assert(dec_digits(n as int) == dec_digits(n as int / 10).push(
                digit_char(n as int % 10),
            ));
            assert(old(out)@ + dec_digits(n as int / 10) + seq![digit_char(n as int % 10)]
                =~= old(out)@ + dec_digits(n as int));
        }
    }
}

/// Appends a fixed-point value at two decimals, rounded halves away from
/// zero.
fn push_fixed2(out: &mut String, v: i64)
    ensures
        final(out)@ == old(out)@ + fixed2_text(v as int),
{
    let r: i64 = crate::utilities::math::round_div(v, 1000);
    let a: u64 = if r < 0 {
        proof {
            reveal_strlit("-");
            assert(("-")@ =~= seq!['-']);
        }
        out.append("-");
        (-(r as i128)) as u64
    } else {
        r as u64
    };
    push_digits(out, a / 100);
    proof {
        reveal_strlit(".");
        assert((".")@ =~= seq!['.']);
    }
    out.append(".");
    push_digit(out, (a / 10) % 10);
    push_digit(out, a % 10);
    proof {
        assert(out@ =~= old(out)@ + fixed2_text(v as int));
    }
}

/// Appends one rendered piece.
#[verifier::rlimit(60)]
fn push_piece(out: &mut String, p: Piece)
    requires
        fn_mag(p.1) <= 4000000000000000000,
    ensures
        final(out)@ == old(out)@ + piece_text(p),
{
    proof {
        reveal_strlit("([");
        assert(("([")@ =~= seq!['(', '[']);
    }
    out.append("([");
    push_fixed2(out, p.0.inf);
    proof {
        reveal_strlit(", ");
        assert((", ")@ =~= seq![',', ' ']);
    }
    out.append(", ");
    push_fixed2(out, p.0.sup);
    proof {
        reveal_strlit("] => y = ");
        assert(("] => y = ")@ =~= seq![']', ' ', '=', '>', ' ', 'y', ' ', '=', ' ']);
    }
    out.append("] => y = ");
    push_fixed2(out, p.1.slope);
    proof {
        reveal_strlit("\u{b7}x ");
        assert(("\u{b7}x ")@ =~= seq!['\u{b7}', 'x', ' ']);
    }
    out.append("\u{b7}x ");
    if p.1.intercept < 0 {
        proof {
            reveal_strlit("- ");
            assert(("- ")@ =~= seq!['-', ' ']);
        }
        out.append("- ");
        push_fixed2(out, -p.1.intercept);
    } else {
        proof {
            reveal_strlit("+ ");
            assert(("+ ")@ =~= seq!['+', ' ']);
        }
        out.append("+ ");
        push_fixed2(out, p.1.intercept);
    }
    proof {
        reveal_strlit(")");
        assert((")")@ =~= seq![')']);
    }
    out.append(")");
    proof {
        assert(out@ =~= old(out)@ + piece_text(p));
    }
}

/// A piece added to the empty function is stored as given: one piece,
/// carrying the function unchanged.
pub proof fn lemma_add_to_empty(range: Quantitative, piece: LinearFunction)
    requires
        range.spec_valid(),
    ensures
        simplified(added(Seq::<Piece>::empty(), range, piece)) == seq![(range, piece)],
{
    let built = added(Seq::<Piece>::empty(), range, piece);
    assert(add_fold(Seq::<Piece>::empty(), seq![range], Seq::<Piece>::empty(), range, piece) == (
        Seq::<Piece>::empty(),
        seq![range],
    ));
    assert(seq![range][0] == range);
    assert(seq![range].drop_first() =~= Seq::<Quantitative>::empty());
    assert(seq_insert(Seq::<Piece>::empty(), range, piece) == seq![(range, piece)]);
    assert(built == insert_ranges(
        seq_insert(Seq::<Piece>::empty(), range, piece),
        seq![range].drop_first(),
        piece,
    ));
    assert(built == seq![(range, piece)]);
    lemma_simplified_single(built);
}

/// A single stored piece has nothing to merge with: it is its own
/// simplification.
pub proof fn lemma_simplified_single(s: Seq<Piece>)
    requires
        s.len() == 1,
    ensures
        simplified(s) == s,
{
    assert(row_merge(s, 0, 1) is None);
    assert(row_merge(s, 0, 0) is None);
    assert(find_merge_from(s, 1) is None);
    assert(find_merge_from(s, 0) is None);
}

/// Superposition: inserting one linear function and then another over the
/// identical non-degenerate range, starting from the empty function,
/// leaves exactly one piece carrying their coefficient sum.
pub proof fn lemma_superposition(range: Quantitative, f1: LinearFunction, f2: LinearFunction)
    requires
        range.spec_valid(),
        !range.spec_degenerate(),
    ensures
        ({
            let once = simplified(added(Seq::<Piece>::empty(), range, f1));
            let twice = simplified(added(once, range, f2));
            twice == seq![(range, f1.spec_sum(f2))]
        }),
{
    lemma_add_to_empty(range, f1);
    let once = simplified(added(Seq::<Piece>::empty(), range, f1));
    assert(once == seq![(range, f1)]);
    // the second insertion overlaps the stored piece over the whole range
    assert(range.spec_intersection(range) == Some(range));
    assert(range.spec_difference(range) =~= Seq::<Quantitative>::empty());
    let st = add_step(Seq::<Piece>::empty(), seq![range], (range, f1), range, f2);
    assert(seq_insert(Seq::<Piece>::empty(), range, f1.spec_sum(f2)) == seq![
        (range, f1.spec_sum(f2)),
    ]);
    assert(insert_ranges(
        Seq::<Piece>::empty(),
        range.spec_difference(range),
        f1,
    ) == Seq::<Piece>::empty());
    assert(seq![range][0] == range);
    assert(seq![range].drop_first() =~= Seq::<Quantitative>::empty());
    assert(subtract_all(seq![range], range) =~= range.spec_difference(range) + subtract_all(
        Seq::<Quantitative>::empty(),
        range,
    ));
    assert(st.0 == seq![(range, f1.spec_sum(f2))]);
    assert(st.1 =~= Seq::<Quantitative>::empty());
    assert(once[0] == (range, f1));
    assert(once.drop_first() =~= Seq::<Piece>::empty());
    assert(add_fold(Seq::<Piece>::empty(), seq![range], once, range, f2) == add_fold(
        st.0,
        st.1,
        once.drop_first(),
        range,
        f2,
    ));
    let built = added(once, range, f2);
    assert(built == insert_ranges(st.0, st.1, f2));
    assert(built == seq![(range, f1.spec_sum(f2))]);
    lemma_simplified_single(built);
}

} // verus!
