# pree

Procedural trees that grow step by step, for animation.

- `src/` is the verified library (Verus): the growth counter of every part
  (`growth`), leaves (`leaf`), branches (`branch`), trees, themes and the
  tree context (`tree`), the decisions drawing needs (`render`), and the
  proof that growing finishes every tree whose growth units are all positive
  (`progress`). Geometry is kept
  generic in its point and scalar types: the library builds the stems and
  shapes of branches and leaves, and the producer traits give the numbers
  (lengths, angles, thicknesses, depths, counts, positions) and growths. The contracts of
  generation say which producer calls each part comes from, and with which
  arguments.
- `app/` is the floating-point and I/O side: shapes with `f32` geometry,
  drawing with speedy2d, the example producers with random numbers, and the
  functions exported to JavaScript.
- `tests/` runs the library on concrete trees.
