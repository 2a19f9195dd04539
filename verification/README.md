# fusion

The rules behind sensor fusion experiments, verified with Verus.

A vehicle drives through a simulated world. Its GPS and IMU feed a filter that estimates where it
is; its camera and lidar feed trackers that follow the objects around it. This crate holds what is
decided on the way, with contracts that are proved:

- `scenario`: what an experiment may look like, and what is said of one that may not.
- `sensor`: when the GPS receiver is silent, which fixes are outliers, and when they arrive.
- `pipeline`: a processing stage with a bounded queue, replayed over a list of arrivals.
- `estimator`: in which order a filter is given its measurements, with and without compensation
  for delays; how late and how fresh they were; and what its answers amount to.
- `container`, `bundle`: which messages the MCAP files of a run hold, and what reading them back
  gives. The bytes themselves are written and read by the `mcap` crate, in memory. Reading asks for
  bytes on which that reader answers; those of a writer that finished are such bytes.
- `round_trip`: writing a file and reading it back at once.
- `report`: the summary of a run in words.
- `experiment`, `progress`: which work is done in which order, on what, and what is refused.

Numbers in double precision are held by their IEEE 754 encoding (`binary64`). They are tested and
ordered here, and calculated with elsewhere.

What holds across several functions is stated in the files whose names end in `laws`, and in the
proof functions whose names start with `law_`.

`app/` is ordinary Rust around the library: files, serialization, and arithmetic in double
precision. Filters, trackers and generated message types plug in there.
