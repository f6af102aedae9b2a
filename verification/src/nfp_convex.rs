//! No-Fit Polygon of two convex polygons, as the convex hull of the
//! Minkowski sum A ⊕ (−B) built from vertex combinations.
//!
//! 1. Inputs are checked: both polygons non-empty, then both with at least
//!    three vertices.
//! 2. B is reflected through the origin: its vertices are taken in reverse
//!    order and negated.
//! 3. Every vertex of A is added to every vertex of −B, row by row.
//! 4. The convex hull of these sums (computed by `togo`) is the NFP.

use vstd::prelude::*;
use vstd::arithmetic::div_mod::lemma_fundamental_div_mod_converse;
use togo::prelude::Point;

use crate::geometry::{
    is_sum_of, negation_of, is_straight, convex_hull_of, endpoints_of,
    add_points, negate_point, convex_hull, line_segment,
};

verus! {

/// Error type for NFP operations
#[derive(Debug, Clone, Copy, PartialEq, Eq, Structural)]
pub enum NfpError {
    /// One or both polygons are empty
    EmptyPolygon,
    /// One or both polygons have fewer than 3 vertices
    InsufficientVertices,
}

impl NfpError {
    /// The human-readable description of the error.
    pub fn message(&self) -> (s: &'static str)
        ensures
            *self == NfpError::EmptyPolygon ==> s@ == "Polygons cannot be empty"@,
            *self == NfpError::InsufficientVertices ==> s@ == "Polygons must have at least 3 vertices"@,
    {
        match self {
            NfpError::EmptyPolygon => "Polygons cannot be empty",
            NfpError::InsufficientVertices => "Polygons must have at least 3 vertices",
        }
    }
}

/// The error that two polygons with `len_a` and `len_b` vertices are refused
/// with, if any: emptiness is reported before a too small vertex count.
pub open spec fn input_error(len_a: nat, len_b: nat) -> Option<NfpError> {
    if len_a == 0 || len_b == 0 {
        Some(NfpError::EmptyPolygon)
    } else if len_a < 3 || len_b < 3 {
        Some(NfpError::InsufficientVertices)
    } else {
        None
    }
}

/// Checks that two polygons are acceptable inputs for an NFP computation.
pub(crate) fn check_polygons(poly_a: &[Point], poly_b: &[Point]) -> (r: Result<(), NfpError>)
    ensures
        match input_error(poly_a@.len(), poly_b@.len()) {
            Some(e) => r == Err::<(), NfpError>(e),
            None => r is Ok,
        },
{
    if poly_a.len() == 0 || poly_b.len() == 0 {
        return Err(NfpError::EmptyPolygon);
    }
    if poly_a.len() < 3 || poly_b.len() < 3 {
        return Err(NfpError::InsufficientVertices);
    }
    Ok(())
}

/// −B: the vertices of `b` in reverse order, each reflected through the origin.
pub open spec fn reflected(b: Seq<Point>) -> Seq<Point> {
    Seq::new(b.len(), |j: int| negation_of(b[b.len() - 1 - j]))
}

/// `s` holds all vertex sums `a[i] + b[j]`, row by row: position
/// `i * |b| + j` holds a sum of the `i`-th vertex of `a` and the `j`-th of `b`.
pub open spec fn are_vertex_sums(a: Seq<Point>, b: Seq<Point>, s: Seq<Point>) -> bool {
    &&& s.len() == a.len() * b.len()
    &&& forall|t: int| 0 <= t < s.len()
        ==> is_sum_of(a[t / (b.len() as int)], b[t % (b.len() as int)], #[trigger] s[t])
}

/// `p` is a sum of a vertex of `a` and the negation of a vertex of `b`.
pub open spec fn is_reflected_sum(p: Point, a: Seq<Point>, b: Seq<Point>) -> bool {
    exists|i: int, j: int| 0 <= i < a.len() && 0 <= j < b.len() && #[trigger] is_sum_of(a[i], negation_of(b[j]), p)
}

/// `p` is a sum of a vertex of `a` and a vertex of `b`.
pub open spec fn is_vertex_sum(p: Point, a: Seq<Point>, b: Seq<Point>) -> bool {
    exists|i: int, j: int| 0 <= i < a.len() && 0 <= j < b.len() && #[trigger] is_sum_of(a[i], b[j], p)
}

/// Position `i * m + j` of a table with `n` rows of `m` entries lies in the table.
pub proof fn lemma_row_index_bound(i: int, j: int, n: int, m: int)
    requires
        0 <= i < n,
        0 <= j < m,
    ensures
        0 <= i * m + j < n * m,
{
    assert(0 <= i * m + j < n * m) by (nonlinear_arith)
        requires 0 <= i < n, 0 <= j < m;
}

/// The vertex sums of `a` and `b` are {a + b | a ∈ A, b ∈ B}: every entry is a
/// sum of a vertex of `a` and a vertex of `b`, and every pair of vertices has
/// its sum at position `i * |b| + j` (inside `s` by `lemma_row_index_bound`).
pub proof fn lemma_vertex_sums_members(a: Seq<Point>, b: Seq<Point>, s: Seq<Point>)
    requires
        are_vertex_sums(a, b, s),
    ensures
        forall|t: int| 0 <= t < s.len() ==> is_vertex_sum(#[trigger] s[t], a, b),
        forall|i: int, j: int| #![trigger a[i], b[j]] 0 <= i < a.len() && 0 <= j < b.len()
            ==> is_sum_of(a[i], b[j], s[i * b.len() + j]),
{
    let m = b.len() as int;
    assert forall|t: int| 0 <= t < s.len() implies is_vertex_sum(#[trigger] s[t], a, b) by {
        assert(m > 0) by {
            if m == 0 {
                assert(a.len() * b.len() == 0) by (nonlinear_arith)
                    requires b.len() == 0;
            }
        }
        let i = t / m;
        let j = t % m;
        assert(0 <= i < a.len()) by (nonlinear_arith)
            requires 0 <= t < a.len() * m, m > 0, i == t / m;
        assert(0 <= j < m) by (nonlinear_arith)
            requires m > 0, j == t % m;
        assert(is_sum_of(a[i], b[j], s[t]));
    }
    assert forall|i: int, j: int| #![trigger a[i], b[j]] 0 <= i < a.len() && 0 <= j < b.len()
        implies is_sum_of(a[i], b[j], s[i * b.len() + j]) by {
        let t = i * m + j;
        lemma_row_index_bound(i, j, a.len() as int, m);
        lemma_fundamental_div_mod_converse(t, m, i, j);
        assert(is_sum_of(a[t / m], b[t % m], s[t]));
    }
}

/// A point is a vertex of −B exactly when it is the negation of a vertex of B.
pub proof fn lemma_reflected_members(b: Seq<Point>, p: Point)
    ensures
        reflected(b).len() == b.len(),
        reflected(b).contains(p) <==> exists|j: int| 0 <= j < b.len() && p == #[trigger] negation_of(b[j]),
{
    let r = reflected(b);
    if r.contains(p) {
        let k = choose|k: int| 0 <= k < r.len() && r[k] == p;
        assert(p == negation_of(b[b.len() - 1 - k]));
    }
    if exists|j: int| 0 <= j < b.len() && p == #[trigger] negation_of(b[j]) {
        let j = choose|j: int| 0 <= j < b.len() && p == #[trigger] negation_of(b[j]);
        assert(r[b.len() - 1 - j] == p);
    }
}

/// NFP calculator for convex polygons using Minkowski sum.
pub struct NFPConvex;

impl NFPConvex {
    /// Calculate the No Fit Polygon (NFP) for two convex polygons using Minkowski sum.
    ///
    /// Refuses an empty polygon with `EmptyPolygon`, then a polygon with fewer
    /// than three vertices with `InsufficientVertices`. Otherwise the result is
    /// the convex hull of all sums of a vertex of A and a vertex of −B (taken
    /// row by row), it has at most `|A| * |B| + 1` vertices, and each of its
    /// vertices is such a sum.
    pub fn nfp(poly_a: &[Point], poly_b: &[Point]) -> (r: Result<Vec<Point>, NfpError>)
        ensures
            match input_error(poly_a@.len(), poly_b@.len()) {
                Some(e) => r == Err::<Vec<Point>, NfpError>(e),
                None => match r {
                    Ok(v) => {
                        &&& exists|sums: Seq<Point>| #[trigger] are_vertex_sums(poly_a@, reflected(poly_b@), sums)
                            && v@ == convex_hull_of(sums)
                        &&& v@.len() <= poly_a@.len() * poly_b@.len() + 1
                        &&& forall|k: int| 0 <= k < v@.len()
                            ==> is_reflected_sum(#[trigger] v@[k], poly_a@, poly_b@)
                    },
                    Err(_) => false,
                },
            },
    {
        match check_polygons(poly_a, poly_b) {
            Err(e) => Err(e),
            Ok(()) => Ok(Self::compute(poly_a, poly_b)),
        }
    }

    /// Convex hull of the vertex sums of `a` and the reflection of `b`.
    fn compute(a: &[Point], b: &[Point]) -> (r: Vec<Point>)
        ensures
            exists|sums: Seq<Point>| #[trigger] are_vertex_sums(a@, reflected(b@), sums)
                && r@ == convex_hull_of(sums),
            r@.len() <= a@.len() * b@.len() + 1,
            forall|k: int| 0 <= k < r@.len() ==> is_reflected_sum(#[trigger] r@[k], a@, b@),
    {
        // Negate B (Minkowski sum with -B)
        let n = b.len();
        let mut b_negated: Vec<Point> = Vec::new();
        let mut j: usize = 0;
        while j < n
            invariant
                n == b@.len(),
                j <= n,
                b_negated@ =~= reflected(b@).take(j as int),
            decreases n - j,
        {
            b_negated.push(negate_point(b[n - 1 - j]));
            j = j + 1;
        }
        assert(b_negated@ =~= reflected(b@));

        // All vertex sums, row by row
        let na = a.len();
        let m = b_negated.len();
        let mut sum_points: Vec<Point> = Vec::new();
        let mut i: usize = 0;
        while i < na
            invariant
                na == a@.len(),
                m == b_negated@.len(),
                i <= na,
                sum_points@.len() == i * m,
                forall|t: int| 0 <= t < sum_points@.len()
                    ==> is_sum_of(a@[t / (m as int)], b_negated@[t % (m as int)], #[trigger] sum_points@[t]),
            decreases na - i,
        {
            let mut k: usize = 0;
            while k < m
                invariant
                    na == a@.len(),
                    m == b_negated@.len(),
                    i < na,
                    k <= m,
                    sum_points@.len() == i * m + k,
                    forall|t: int| 0 <= t < sum_points@.len()
                        ==> is_sum_of(a@[t / (m as int)], b_negated@[t % (m as int)], #[trigger] sum_points@[t]),
                decreases m - k,
            {
                let s = add_points(a[i], b_negated[k]);
                proof {
                    let t = i * m + k;
                    lemma_fundamental_div_mod_converse(t as int, m as int, i as int, k as int);
                }
                sum_points.push(s);
                k = k + 1;
            }
            assert(i * m + m == (i + 1) * m) by (nonlinear_arith);
            i = i + 1;
        }
        proof {
            assert(are_vertex_sums(a@, b_negated@, sum_points@));
            lemma_vertex_sums_members(a@, b_negated@, sum_points@);
        }
        let hull = convex_hull(&sum_points);
        proof {
            assert(hull@.len() <= a@.len() * b@.len() + 1);
            assert forall|k: int| 0 <= k < hull@.len()
                implies is_reflected_sum(#[trigger] hull@[k], a@, b@) by {
                let p = hull@[k];
                let t = choose|t: int| 0 <= t < sum_points@.len() && sum_points@[t] == p;
                assert(is_vertex_sum(sum_points@[t], a@, b_negated@));
                let (ia, jr) = choose|ia: int, jr: int| 0 <= ia < a@.len() && 0 <= jr < b_negated@.len()
                    && #[trigger] is_sum_of(a@[ia], b_negated@[jr], p);
                let jb = b@.len() - 1 - jr;
                assert(b_negated@[jr] == negation_of(b@[jb]));
                assert(is_sum_of(a@[ia], negation_of(b@[jb]), p));
            }
        }
        hull
    }
}

/// Convert a polygon to an arcline: one straight segment per vertex, from
/// that vertex to the next, the last one closing back to the first.
///
/// The result has one arc per vertex (none for an empty polygon), arc `i`
/// is a straight segment from vertex `i` to vertex `i + 1` (wrapping around),
/// and each arc ends where the next one starts.
pub fn to_arcline(vertices: &[Point]) -> (r: Vec<togo::prelude::Arc>)
    ensures
        r@.len() == vertices@.len(),
        forall|i: int| 0 <= i < vertices@.len() ==> #[trigger] endpoints_of(r@[i])
            == (vertices@[i], vertices@[(i + 1) % (vertices@.len() as int)]),
        forall|i: int| 0 <= i < vertices@.len() ==> (#[trigger] endpoints_of(r@[i])).1
            == endpoints_of(r@[(i + 1) % (vertices@.len() as int)]).0,
        forall|i: int| 0 <= i < vertices@.len() ==> is_straight(#[trigger] r@[i]),
{
    let mut arcline: Vec<togo::prelude::Arc> = Vec::new();
    if vertices.len() == 0 {
        return arcline;
    }
    let n = vertices.len();
    let mut i: usize = 0;
    while i < n
        invariant
            n == vertices@.len(),
            n > 0,
            i <= n,
            arcline@.len() == i,
            forall|k: int| 0 <= k < i ==> #[trigger] endpoints_of(arcline@[k])
                == (vertices@[k], vertices@[(k + 1) % (n as int)]),
            forall|k: int| 0 <= k < i ==> is_straight(#[trigger] arcline@[k]),
        decreases n - i,
    {
        let current = vertices[i];
        let next = vertices[(i + 1) % n];
        let arc = line_segment(current, next);
        arcline.push(arc);
        i = i + 1;
    }
    proof {
        assert forall|i: int| 0 <= i < n implies (#[trigger] endpoints_of(arcline@[i])).1
            == endpoints_of(arcline@[(i + 1) % (n as int)]).0 by {
            let j = (i + 1) % (n as int);
            assert(0 <= j < n);
            assert(endpoints_of(arcline@[j]).0 == vertices@[j]);
        }
    }
    arcline
}

} // verus!
