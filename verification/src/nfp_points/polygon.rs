//! Helper functions for working with polygons represented as `Vec<Point>`.

use vstd::prelude::*;
use togo::prelude::Point;

use crate::geometry::{is_sum_of, add_points};

verus! {

/// Get the number of vertices
pub fn len(vertices: &[Point]) -> (n: usize)
    ensures
        n == vertices@.len(),
{
    vertices.len()
}

/// Check if the polygon is empty
pub fn is_empty(vertices: &[Point]) -> (b: bool)
    ensures
        b == (vertices@.len() == 0),
{
    vertices.len() == 0
}

/// Reverse the order of vertices (change orientation)
pub fn reverse(vertices: &mut Vec<Point>)
    ensures
        final(vertices)@ == old(vertices)@.reverse(),
{
    let ghost orig = vertices@;
    let n = vertices.len();
    let mut i: usize = 0;
    while i < n / 2
        invariant
            n == orig.len(),
            vertices@.len() == n,
            i <= n / 2,
            forall|k: int| 0 <= k < i ==> #[trigger] vertices@[k] == orig[n - 1 - k],
            forall|k: int| 0 <= k < i ==> #[trigger] vertices@[n - 1 - k] == orig[k],
            forall|k: int| i <= k < n - i ==> #[trigger] vertices@[k] == orig[k],
        decreases n / 2 - i,
    {
        let j = n - 1 - i;
        let x = vertices[i];
        let y = vertices[j];
        vertices.set(i, y);
        vertices.set(j, x);
        i = i + 1;
    }
    proof {
        if n > 0 {
            assert forall|k: int| 0 <= k < n implies #[trigger] vertices@[k] == orig.reverse()[k] by {
                if k >= n - i {
                    assert(vertices@[n - 1 - (n - 1 - k)] == orig[n - 1 - k]);
                }
            }
        }
        assert(vertices@ =~= orig.reverse());
    }
}

/// Reversing a polygon twice gives back the same vertex sequence: changing
/// the orientation twice restores it.
pub proof fn lemma_reverse_twice(vertices: Seq<Point>)
    ensures
        vertices.reverse().reverse() == vertices,
{
    let r = vertices.reverse();
    assert(r.len() == vertices.len());
    assert(r.reverse() =~= vertices);
}

/// Translate the polygon by a given offset: vertex `i` of the result is a
/// sum of vertex `i` of `vertices` and `offset`.
pub fn translate(vertices: &[Point], offset: &Point) -> (r: Vec<Point>)
    ensures
        r@.len() == vertices@.len(),
        forall|i: int| 0 <= i < vertices@.len() ==> is_sum_of(vertices@[i], *offset, #[trigger] r@[i]),
{
    let n = vertices.len();
    let mut r: Vec<Point> = Vec::new();
    let mut i: usize = 0;
    while i < n
        invariant
            n == vertices@.len(),
            i <= n,
            r@.len() == i,
            forall|k: int| 0 <= k < i ==> is_sum_of(vertices@[k], *offset, #[trigger] r@[k]),
        decreases n - i,
    {
        r.push(add_points(vertices[i], *offset));
        i = i + 1;
    }
    r
}

} // verus!
