# raytracer

A path tracer whose integer logic is a Verus-verified library.

- `src/` — the verified library:
  - `bvh`: the shape of the bounding volume hierarchy (sorting objects by the
    ordering keys of their boxes along the chosen axis and splitting them in
    halves); the hierarchy holds exactly the objects handed in.
  - `perlin`: shuffling of the lattice permutations (a Fisher-Yates shuffle over drawn positions) and the lattice hash of
    Perlin noise; each table is a permutation of `0..256` and every hash is an
    index below 256.
  - `camera`: the order in which the pixels of an image are rendered and written.
  - `texture`: the parity rule of checker textures and the pixel position rule
    of image textures.
  - `image`: decoding of binary PPM images from their bytes.
  - `aabb`: the choice of a box's longest axis from the ordering of its sides.
  - `utils`: bounded random integers, through the `rand` crate.
- `app/` — the program: vectors, intervals, boxes, shapes, materials, textures,
  the camera and the scenes, all computed in `f64`, which the library does not
  hold; it hands the library integer keys and indices and uses its answers.
- `tests/` — tests of the library.
