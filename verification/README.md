# piston_tutorial

A small top-down tank game built on the Piston engine.

- `src/` is the verified library (Verus): `input` holds which arrow keys are
  held, what a button press or release does (including firing on a left
  click) and the moves a frame applies; `combat` settles the shots in flight
  against the two tanks and drops the shots that leave play.
- `app/` is the program: window, event loop, sprite loading and drawing, and
  all floating-point motion, aiming and collision geometry. It calls the
  library for every decision above. Run it with the argument `square` for the
  moving-square demo.
- `tests/` runs the library on concrete inputs.
