# nfp

No Fit Polygon (NFP) computation for 2D nesting and packing, with the
polygon logic proved correct by Verus.

- `src/` is the verified library. Points are `togo` points, opaque to the
  proofs; every coordinate computation (sums, differences, negation, convex
  hull, segments) is a call into `togo`, known by name.
  - `nfp_convex`: input checks, the reflection of B, all vertex sums of A and
    −B, their convex hull, and `to_arcline`.
  - `nfp_points`, `nfp_points_backup`: the candidate vertices of A sliding
    around B (per edge and per vertex of B), and the polygon helpers.
- `app/` holds what compares or computes floating point coordinates:
  orientation tests, near-duplicate removal, angular ordering, overlap
  validation and random polygon generation.
- `tests/` runs the library on concrete polygons.
