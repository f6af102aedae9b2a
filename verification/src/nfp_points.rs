//! No Fit Polygon candidates for point-based polygons: vectors of points
//! that are the vertices of closed polygons in counter-clockwise order.
//!
//! Polygon A slides around the perimeter of polygon B: for each edge of B
//! and each vertex of A, the offsets that put that vertex of A on the
//! start and on the end of the edge are candidate NFP vertices.

use vstd::prelude::*;
use vstd::arithmetic::div_mod::lemma_fundamental_div_mod_converse;
use togo::prelude::Point;

use crate::geometry::{is_difference_of, sub_points};
use crate::nfp_convex::{input_error, check_polygons};

pub mod polygon;

pub use crate::nfp_convex::NfpError;

verus! {

/// `p` may stand at position `t` of the candidate vertices, taken edge of B
/// by edge of B and, within an edge, vertex of A by vertex of A: for edge `i`
/// of B (from `b[i]` to `b[(i + 1) % |b|]`) and vertex `k` of A, position
/// `2 * (i * |a| + k)` holds a difference `b[i] - a[k]` and the next position
/// a difference `b[(i + 1) % |b|] - a[k]`.
pub open spec fn edge_offset_at(a: Seq<Point>, b: Seq<Point>, t: int, p: Point) -> bool {
    let e = t / 2;
    let i = e / (a.len() as int);
    let k = e % (a.len() as int);
    if t % 2 == 0 {
        is_difference_of(b[i], a[k], p)
    } else {
        is_difference_of(b[(i + 1) % (b.len() as int)], a[k], p)
    }
}

/// `s` is a full edge sweep: `2 * |B| * |A|` offsets, each as `edge_offset_at` places it.
pub open spec fn are_edge_offsets(a: Seq<Point>, b: Seq<Point>, s: Seq<Point>) -> bool {
    &&& s.len() == 2 * (b.len() * a.len())
    &&& forall|t: int| 0 <= t < s.len() ==> edge_offset_at(a, b, t, #[trigger] s[t])
}

/// `p` is an offset `b[i] - a[k]` of some vertex `k` of `a` onto some vertex `i` of `b`.
pub open spec fn is_vertex_offset(p: Point, a: Seq<Point>, b: Seq<Point>) -> bool {
    exists|i: int, k: int| 0 <= i < b.len() && 0 <= k < a.len() && #[trigger] is_difference_of(b[i], a[k], p)
}

/// Where an edge of B ends, the next edge starts: the offset that puts
/// vertex `k` of A on the end of edge `i` and the one that puts it on the
/// start of edge `i + 1` (the last edge wrapping to the first) are both
/// offsets of the same pair of vertices.
pub proof fn lemma_edge_end_is_next_start(a: Seq<Point>, b: Seq<Point>, s: Seq<Point>, i: int, k: int)
    requires
        are_edge_offsets(a, b, s),
        0 <= i < b.len(),
        0 <= k < a.len(),
    ensures
        ({
            let next = (i + 1) % (b.len() as int);
            &&& 0 <= 2 * (i * a.len() + k) + 1 < s.len()
            &&& 0 <= 2 * (next * a.len() + k) < s.len()
            &&& is_difference_of(b[next], a[k], s[2 * (i * a.len() + k) + 1])
            &&& is_difference_of(b[next], a[k], s[2 * (next * a.len() + k)])
        }),
{
    let na = a.len() as int;
    let nb = b.len() as int;
    let next = (i + 1) % nb;
    assert(0 <= next < nb);
    let e1 = i * na + k;
    let e2 = next * na + k;
    assert(0 <= e1 < nb * na) by (nonlinear_arith)
        requires 0 <= i < nb, 0 <= k < na, e1 == i * na + k;
    assert(0 <= e2 < nb * na) by (nonlinear_arith)
        requires 0 <= next < nb, 0 <= k < na, e2 == next * na + k;
    lemma_fundamental_div_mod_converse(2 * e1 + 1, 2, e1, 1);
    lemma_fundamental_div_mod_converse(2 * e2, 2, e2, 0);
    lemma_fundamental_div_mod_converse(e1, na, i, k);
    lemma_fundamental_div_mod_converse(e2, na, next, k);
    assert(edge_offset_at(a, b, 2 * e1 + 1, s[2 * e1 + 1]));
    assert(edge_offset_at(a, b, 2 * e2, s[2 * e2]));
}

/// The candidates are the offsets of a vertex of A onto a vertex of B: every
/// entry is such an offset (each edge start and end is a vertex of B), and
/// every pair of vertices has an offset at the start of its edge, position
/// `2 * (i * |a| + k)` (inside `s` by `lemma_row_index_bound`).
pub proof fn lemma_edge_offsets_members(a: Seq<Point>, b: Seq<Point>, s: Seq<Point>)
    requires
        are_edge_offsets(a, b, s),
    ensures
        forall|t: int| 0 <= t < s.len() ==> is_vertex_offset(#[trigger] s[t], a, b),
        forall|i: int, k: int| #![trigger b[i], a[k]] 0 <= i < b.len() && 0 <= k < a.len()
            ==> is_difference_of(b[i], a[k], s[2 * (i * a.len() + k)]),
{
    let na = a.len() as int;
    let nb = b.len() as int;
    assert forall|t: int| 0 <= t < s.len() implies is_vertex_offset(#[trigger] s[t], a, b) by {
        let e = t / 2;
        assert(na > 0 && nb > 0) by {
            if na == 0 || nb == 0 {
                assert(2 * (nb * na) == 0) by (nonlinear_arith)
                    requires na == 0 || nb == 0;
            }
        }
        assert(0 <= e < nb * na) by (nonlinear_arith)
            requires 0 <= t < 2 * (nb * na), e == t / 2;
        let i = e / na;
        let k = e % na;
        assert(0 <= i < nb) by (nonlinear_arith)
            requires 0 <= e < nb * na, na > 0, i == e / na;
        assert(0 <= k < na) by (nonlinear_arith)
            requires na > 0, k == e % na;
        assert(edge_offset_at(a, b, t, s[t]));
        if t % 2 == 0 {
            assert(is_difference_of(b[i], a[k], s[t]));
        } else {
            let j = (i + 1) % nb;
            assert(0 <= j < nb);
            assert(is_difference_of(b[j], a[k], s[t]));
        }
    }
    assert forall|i: int, k: int| #![trigger b[i], a[k]] 0 <= i < b.len() && 0 <= k < a.len()
        implies is_difference_of(b[i], a[k], s[2 * (i * a.len() + k)]) by {
        let e = i * na + k;
        assert(0 <= e < nb * na) by (nonlinear_arith)
            requires 0 <= i < nb, 0 <= k < na, e == i * na + k;
        lemma_fundamental_div_mod_converse(2 * e, 2, e, 0);
        lemma_fundamental_div_mod_converse(e, na, i, k);
        assert(edge_offset_at(a, b, 2 * e, s[2 * e]));
    }
}

/// No Fit Polygon calculator for point-based polygons
pub struct NFP;

impl NFP {
    /// The candidate NFP vertices of `poly_a` sliding around `poly_b`,
    /// before near-duplicates are removed and the rest is ordered.
    ///
    /// Refuses an empty polygon with `EmptyPolygon`, then a polygon with
    /// fewer than three vertices with `InsufficientVertices`; otherwise returns
    /// the `2 * |A| * |B|` offsets of a full edge sweep (`are_edge_offsets`).
    pub fn candidates(poly_a: &[Point], poly_b: &[Point]) -> (r: Result<Vec<Point>, NfpError>)
        ensures
            match input_error(poly_a@.len(), poly_b@.len()) {
                Some(e) => r == Err::<Vec<Point>, NfpError>(e),
                None => match r {
                    Ok(v) => are_edge_offsets(poly_a@, poly_b@, v@),
                    Err(_) => false,
                },
            },
    {
        match check_polygons(poly_a, poly_b) {
            Err(e) => Err(e),
            Ok(()) => Ok(Self::slide_offsets(poly_a, poly_b)),
        }
    }

    /// For each edge of B, and for each vertex of A, the offsets to the
    /// edge's start and end.
    fn slide_offsets(poly_a: &[Point], poly_b: &[Point]) -> (r: Vec<Point>)
        requires
            poly_a@.len() > 0,
            poly_b@.len() > 0,
        ensures
            are_edge_offsets(poly_a@, poly_b@, r@),
    {
        let na = poly_a.len();
        let nb = poly_b.len();
        let mut nfp_vertices: Vec<Point> = Vec::new();
        let mut i: usize = 0;
        while i < nb
            invariant
                na == poly_a@.len(),
                nb == poly_b@.len(),
                na > 0,
                i <= nb,
                nfp_vertices@.len() == 2 * (i * na),
                forall|t: int| 0 <= t < nfp_vertices@.len()
                    ==> edge_offset_at(poly_a@, poly_b@, t, #[trigger] nfp_vertices@[t]),
            decreases nb - i,
        {
            let j = (i + 1) % nb;
            let b_curr = poly_b[i];
            let b_next = poly_b[j];
            let mut k: usize = 0;
            while k < na
                invariant
                    na == poly_a@.len(),
                    nb == poly_b@.len(),
                    na > 0,
                    i < nb,
                    j == (i + 1) % (nb as int),
                    b_curr == poly_b@[i as int],
                    b_next == poly_b@[j as int],
                    k <= na,
                    nfp_vertices@.len() == 2 * (i * na + k),
                    forall|t: int| 0 <= t < nfp_vertices@.len()
                        ==> edge_offset_at(poly_a@, poly_b@, t, #[trigger] nfp_vertices@[t]),
                decreases na - k,
            {
                let a_vertex = poly_a[k];
                let offset_to_start = sub_points(b_curr, a_vertex);
                let offset_to_end = sub_points(b_next, a_vertex);
                proof {
                    let e = i * na + k;
                    lemma_fundamental_div_mod_converse(2 * e, 2, e, 0);
                    lemma_fundamental_div_mod_converse(2 * e + 1, 2, e, 1);
                    lemma_fundamental_div_mod_converse(e, na as int, i as int, k as int);
                    assert(edge_offset_at(poly_a@, poly_b@, 2 * e, offset_to_start));
                    assert(edge_offset_at(poly_a@, poly_b@, 2 * e + 1, offset_to_end));
                }
                nfp_vertices.push(offset_to_start);
                nfp_vertices.push(offset_to_end);
                k = k + 1;
            }
            assert(i * na + na == (i + 1) * na) by (nonlinear_arith);
            i = i + 1;
        }
        assert(nb * na == na * nb) by (nonlinear_arith);
        nfp_vertices
    }
}

} // verus!
