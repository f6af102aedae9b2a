//! The vertex-sliding variant of the point-based No Fit Polygon: every
//! vertex of A is placed on every vertex of B, and the resulting offsets are
//! the candidate NFP vertices that are then filtered and ordered.

use vstd::prelude::*;
use vstd::arithmetic::div_mod::lemma_fundamental_div_mod_converse;
use togo::prelude::Point;

use crate::geometry::{is_difference_of, sub_points};
use crate::nfp_convex::{input_error, check_polygons, lemma_row_index_bound};
use crate::nfp_points::{are_edge_offsets, is_vertex_offset, lemma_edge_offsets_members};

pub use crate::nfp_convex::{NfpError, to_arcline};
pub use crate::nfp_points::polygon;

verus! {

/// `s` is a full vertex sweep, vertex of A by vertex of A and, within one,
/// vertex of B by vertex of B: position `k * |b| + i` holds a difference
/// `b[i] - a[k]`.
pub open spec fn are_vertex_offsets(a: Seq<Point>, b: Seq<Point>, s: Seq<Point>) -> bool {
    &&& s.len() == a.len() * b.len()
    &&& forall|t: int| 0 <= t < s.len()
        ==> is_difference_of(b[t % (b.len() as int)], a[t / (b.len() as int)], #[trigger] s[t])
}

/// The vertex-sliding candidates are the offsets of a vertex of A onto a
/// vertex of B: every entry is such an offset, and every pair of vertices has
/// its offset at position `k * |b| + i` (inside `s` by `lemma_row_index_bound`).
pub proof fn lemma_vertex_offsets_members(a: Seq<Point>, b: Seq<Point>, s: Seq<Point>)
    requires
        are_vertex_offsets(a, b, s),
    ensures
        forall|t: int| 0 <= t < s.len() ==> is_vertex_offset(#[trigger] s[t], a, b),
        forall|i: int, k: int| #![trigger b[i], a[k]] 0 <= i < b.len() && 0 <= k < a.len()
            ==> is_difference_of(b[i], a[k], s[k * b.len() + i]),
{
    let na = a.len() as int;
    let nb = b.len() as int;
    assert forall|t: int| 0 <= t < s.len() implies is_vertex_offset(#[trigger] s[t], a, b) by {
        assert(nb > 0) by {
            if nb == 0 {
                assert(na * nb == 0) by (nonlinear_arith)
                    requires nb == 0;
            }
        }
        let k = t / nb;
        let i = t % nb;
        assert(0 <= k < na) by (nonlinear_arith)
            requires 0 <= t < na * nb, nb > 0, k == t / nb;
        assert(0 <= i < nb) by (nonlinear_arith)
            requires nb > 0, i == t % nb;
        assert(is_difference_of(b[i], a[k], s[t]));
    }
    assert forall|i: int, k: int| #![trigger b[i], a[k]] 0 <= i < b.len() && 0 <= k < a.len()
        implies is_difference_of(b[i], a[k], s[k * b.len() + i]) by {
        let t = k * nb + i;
        assert(0 <= t < na * nb) by (nonlinear_arith)
            requires 0 <= i < nb, 0 <= k < na, t == k * nb + i;
        lemma_fundamental_div_mod_converse(t, nb, k, i);
    }
}

/// `s` holds an offset of vertex `k` of `a` onto vertex `i` of `b` somewhere.
pub open spec fn offers_pair(s: Seq<Point>, a: Seq<Point>, b: Seq<Point>, i: int, k: int) -> bool {
    exists|t: int| 0 <= t < s.len() && #[trigger] is_difference_of(b[i], a[k], s[t])
}

/// Both ways of sliding A around B propose candidates for the same vertex
/// pairs: every entry of either sweep is an offset of a vertex of A onto a
/// vertex of B, and every such pair has an offset in both sweeps. They differ
/// in order and in how often a pair is repeated.
pub proof fn lemma_candidate_sets_agree(a: Seq<Point>, b: Seq<Point>, by_edge: Seq<Point>, by_vertex: Seq<Point>)
    requires
        are_edge_offsets(a, b, by_edge),
        are_vertex_offsets(a, b, by_vertex),
    ensures
        forall|t: int| 0 <= t < by_edge.len() ==> is_vertex_offset(#[trigger] by_edge[t], a, b),
        forall|t: int| 0 <= t < by_vertex.len() ==> is_vertex_offset(#[trigger] by_vertex[t], a, b),
        forall|i: int, k: int| 0 <= i < b.len() && 0 <= k < a.len()
            ==> #[trigger] offers_pair(by_edge, a, b, i, k) && offers_pair(by_vertex, a, b, i, k),
{
    lemma_edge_offsets_members(a, b, by_edge);
    lemma_vertex_offsets_members(a, b, by_vertex);
    assert forall|i: int, k: int| 0 <= i < b.len() && 0 <= k < a.len()
        implies #[trigger] offers_pair(by_edge, a, b, i, k) && offers_pair(by_vertex, a, b, i, k) by {
        let te = 2 * (i * a.len() + k);
        let tv = k * b.len() + i;
        lemma_row_index_bound(i, k, b.len() as int, a.len() as int);
        lemma_row_index_bound(k, i, a.len() as int, b.len() as int);
        assert(b.len() * a.len() == a.len() * b.len()) by (nonlinear_arith);
        assert(is_difference_of(b[i], a[k], by_edge[te]));
        assert(is_difference_of(b[i], a[k], by_vertex[tv]));
    }
}

/// No Fit Polygon calculator for point-based polygons (vertex-sliding variant)
pub struct NFP;

impl NFP {
    /// The candidate NFP vertices: for each vertex of A and each vertex of B,
    /// the offset that puts the vertex of A on the vertex of B.
    ///
    /// Refuses an empty polygon with `EmptyPolygon`, then a polygon with
    /// fewer than three vertices with `InsufficientVertices`; otherwise returns
    /// the `|A| * |B|` offsets of a full vertex sweep (`are_vertex_offsets`),
    /// before near-duplicates are removed.
    pub fn candidates(poly_a: &[Point], poly_b: &[Point]) -> (r: Result<Vec<Point>, NfpError>)
        ensures
            match input_error(poly_a@.len(), poly_b@.len()) {
                Some(e) => r == Err::<Vec<Point>, NfpError>(e),
                None => match r {
                    Ok(v) => are_vertex_offsets(poly_a@, poly_b@, v@),
                    Err(_) => false,
                },
            },
    {
        match check_polygons(poly_a, poly_b) {
            Err(e) => Err(e),
            Ok(()) => Ok(Self::generate_candidates(poly_a, poly_b)),
        }
    }

    /// Slides each vertex of A onto each vertex of B.
    fn generate_candidates(a: &[Point], b: &[Point]) -> (r: Vec<Point>)
        ensures
            are_vertex_offsets(a@, b@, r@),
    {
        let na = a.len();
        let nb = b.len();
        let mut candidates: Vec<Point> = Vec::new();
        let mut k: usize = 0;
        while k < na
            invariant
                na == a@.len(),
                nb == b@.len(),
                k <= na,
                candidates@.len() == k * nb,
                forall|t: int| 0 <= t < candidates@.len()
                    ==> is_difference_of(b@[t % (nb as int)], a@[t / (nb as int)], #[trigger] candidates@[t]),
            decreases na - k,
        {
            let a_vertex = a[k];
            let mut i: usize = 0;
            while i < nb
                invariant
                    na == a@.len(),
                    nb == b@.len(),
                    k < na,
                    a_vertex == a@[k as int],
                    i <= nb,
                    candidates@.len() == k * nb + i,
                    forall|t: int| 0 <= t < candidates@.len()
                        ==> is_difference_of(b@[t % (nb as int)], a@[t / (nb as int)], #[trigger] candidates@[t]),
                decreases nb - i,
            {
                let offset = sub_points(b[i], a_vertex);
                proof {
                    let t = k * nb + i;
                    lemma_fundamental_div_mod_converse(t as int, nb as int, k as int, i as int);
                }
                candidates.push(offset);
                i = i + 1;
            }
            assert(k * nb + nb == (k + 1) * nb) by (nonlinear_arith);
            k = k + 1;
        }
        candidates
    }
}

} // verus!
