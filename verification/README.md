# graph_calc

A graphing calculator whose core is verified with Verus.

- `src/` is the verified library: expression display text (`math`), the
  `meval` compile step, sample-count limits (`plot`), the saved curve
  format (`store`), character helpers (`text`) and the curve editor state
  with its laws (`app`).
- `app/` is the egui/eframe window around it: session files, floating-point
  view ranges, sampling and drawing.
- `tests/` runs the library on concrete values.
