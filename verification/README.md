# quar_engine

The integer core of the QUAR WebAR SLAM engine, verified with Verus.

- `src/` is the verified library: error codes, FAST corners and their
  suppression, ORB descriptor distances and matching, grayscale and
  histogram computations, frame arenas and buffer pools, the visual
  vocabulary and inverted index, the map's keyframe/map point graph,
  keyframe selection, QR finder run-length scans, plane sampling and
  adaptive quality levels. Every public function states its result in
  `ensures`; the laws that relate several functions are public proof
  functions.
- `tests/` exercises the library on concrete values.
- `app/` is the WebAssembly surface: browser bindings, serde forms of the
  library's types, and the floating point parts of the engine (orientation
  angles, lighting estimation, plane fitting, place recognition scores,
  camera poses and distances).

Not included: the pose-graph optimiser, local bundle adjustment, the
geometric verification of loop-closure candidates, camera intrinsics, and
the image-target detector with its pose output. All of them are
floating-point linear algebra built on a tracking module (matrix and vector
types, homography and essential-matrix estimation, 3D poses) that this
crate does not contain, so they have neither a verified core nor a place in
`app/`.
