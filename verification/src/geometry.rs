//! The geometric primitives of `togo` that the library builds on.
//!
//! Points are opaque here: their coordinates are floating point numbers,
//! which the verified code never reads. Every computation on coordinates is
//! done by `togo` and is known to the proofs by name only.

use vstd::prelude::*;

verus! {

#[verifier::external_type_specification]
#[verifier::external_body]
pub struct ExPoint(togo::prelude::Point);

#[verifier::external_type_specification]
#[verifier::external_body]
pub struct ExArc(togo::prelude::Arc);

/// `r` is a point that `togo` may compute as `p + q` (coordinate-wise sum).
///
/// A relation, not a function: where a coordinate sum is NaN, the sign and
/// payload of that NaN are not determined by the operands, so two sums of the
/// same points need not be the same value.
pub uninterp spec fn is_sum_of(p: togo::prelude::Point, q: togo::prelude::Point, r: togo::prelude::Point) -> bool;

/// `r` is a point that `togo` may compute as `p - q` (coordinate-wise
/// difference). A relation for the same reason as `is_sum_of`.
pub uninterp spec fn is_difference_of(p: togo::prelude::Point, q: togo::prelude::Point, r: togo::prelude::Point) -> bool;

/// The point that `togo` computes as `-p` (both coordinates negated).
pub uninterp spec fn negation_of(p: togo::prelude::Point) -> togo::prelude::Point;

/// The vertices that `togo::prelude::points_convex_hull` returns for `points`.
pub uninterp spec fn convex_hull_of(points: Seq<togo::prelude::Point>) -> Seq<togo::prelude::Point>;

/// The start and end point that a `togo` arc holds (its fields `a` and `b`).
pub uninterp spec fn endpoints_of(arc: togo::prelude::Arc) -> (togo::prelude::Point, togo::prelude::Point);

/// What `togo`'s `Arc::is_seg` returns for `arc`: whether it is a straight
/// segment (infinite radius) rather than a circular arc.
pub uninterp spec fn is_straight(arc: togo::prelude::Arc) -> bool;

/// Vector sum, by `togo`'s `Add` for `Point`.
///
/// Trusted: the result is a sum of `p` and `q` in the sense of `is_sum_of`
/// (`togo` adds the coordinates pairwise). Nothing is stated of the
/// coordinates, and two calls on the same points are not claimed to agree.
#[verifier::external_body]
pub(crate) fn add_points(p: togo::prelude::Point, q: togo::prelude::Point) -> (r: togo::prelude::Point)
    ensures
        is_sum_of(p, q, r),
{
    p + q
}

/// Vector difference, by `togo`'s `Sub` for `Point`.
///
/// Trusted: the result is a difference of `p` and `q` in the sense of
/// `is_difference_of` (`togo` subtracts the coordinates pairwise); two calls
/// on the same points are not claimed to agree.
#[verifier::external_body]
pub(crate) fn sub_points(p: togo::prelude::Point, q: togo::prelude::Point) -> (r: togo::prelude::Point)
    ensures
        is_difference_of(p, q, r),
{
    p - q
}

/// Reflection through the origin, by `togo`'s `Neg` for `Point`.
///
/// Trusted: the result is `negation_of(p)`, a function of `p` alone
/// (`togo` negates both coordinates).
#[verifier::external_body]
pub(crate) fn negate_point(p: togo::prelude::Point) -> (r: togo::prelude::Point)
    ensures
        r == negation_of(p),
{
    -p
}

/// Convex hull of a point cloud, by `togo::prelude::points_convex_hull`.
///
/// Trusted: the result is `convex_hull_of(points@)`, a function of the points
/// alone (its decisions are comparisons only), each of its vertices is one of
/// the given points (`togo` keeps the finite input points and walks their
/// hull, copying each vertex it visits), and it has at most one vertex more
/// than there are points (the walk stops once it holds more vertices than
/// candidates). That the result is convex and counter-clockwise depends on
/// the coordinates and is not stated.
#[verifier::external_body]
pub(crate) fn convex_hull(points: &Vec<togo::prelude::Point>) -> (r: Vec<togo::prelude::Point>)
    ensures
        r@ == convex_hull_of(points@),
        r@.len() <= points@.len() + 1,
        forall|i: int| 0 <= i < r@.len() ==> points@.contains(#[trigger] r@[i]),
{
    togo::prelude::points_convex_hull(points)
}

/// Straight segment from `a` to `b`, by `togo::prelude::arcseg`.
///
/// Trusted: the arc holds `a` as its start and `b` as its end point, and is
/// straight (`arcseg` gives it an infinite radius, which is what `is_seg`
/// tests). Each arc also receives an identifier from a process-wide counter,
/// so the arc as a whole is not a function of `a` and `b`; that part is left
/// unsaid.
#[verifier::external_body]
pub(crate) fn line_segment(a: togo::prelude::Point, b: togo::prelude::Point) -> (r: togo::prelude::Arc)
    ensures
        endpoints_of(r) == (a, b),
        is_straight(r),
{
    togo::prelude::arcseg(a, b)
}

} // verus!
