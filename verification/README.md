# web_max_area_data_collection

Triangulations of a disc of points on a circle, and the bookkeeping of a viewer that
draws them and times how fast a GPU renders each one.

`src/` is the verified library:

- `vertex`: the three generated triangulation kinds (fan, strip, max-area), with the
  points described exactly (`CirclePoint`) and their index lists, plus laws: indices in
  range, no degenerate triangles, equal vertex counts, triangle counts, midpoints built
  from earlier points.
- `random_triangle`: random triangulations grown by closing off open rim edges. At every
  step the state is a partial triangulation (`partial_triangulation`): each rim edge lies on
  exactly one open arc or is a side of exactly one triangle, no triangle has a corner inside
  an open arc, no two triangles overlap, and triangles found plus points still enclosed add
  up to `n - 2`. A finished run is a triangulation of the rim polygon.
- `rim_geometry`: arcs, gaps and sides of triangles whose corners lie on the rim, and the
  lemmas about them.
- `catalog`: the list of triangulations a viewer steps through, and the winding flip of
  index lists.
- `gather_data`: the decisions of a timing run (warm-up, measure, next).
- `bucket_quota`: how many random triangulations each edge-length bucket still wants.
- `shuffle`: putting the triangles of an index list in a random order.
- `controls`: window events to viewer commands, and the drawing surface's size state.

`app/` is the program around it: floating point vertex positions and quality measures,
the wgpu/winit viewer, the offscreen timing run, threads and file output.
