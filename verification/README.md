# chama

The editing logic of a browser-based map editor, written in Verus and
verified against its contracts.

- `src/` is the library. Its framework part keeps the registered plugins
  (ordered by id, with exclusive activation), the shortkeys and pressed keys,
  the toolbars, the undo/redo history, the camera switch and the grid lines.
  Its city part (`src/city/`) keeps how streets and intersections are linked
  (connecting, splitting, removing streets, reordering the streets around an
  intersection and linking neighbours), the walks along chains of streets and
  around enclosed areas, freeform strokes, the splitting plan for house
  polygons and the city editor's modes and settings. Proof functions named
  `law_*` state what the operations keep, for instance that every topology
  operation keeps the street graph consistent.
- `app/` is the web application around it: the yew component, canvas
  drawing, and everything that is computed with floating-point numbers
  (positions, angles, hit tests, polygons).
- `tests/` runs the library on concrete inputs.
