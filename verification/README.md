# aether_render

The decision-making core of the Aether renderer, verified with Verus: how cache surfaces are
sized, pooled and culled, how filter sources are grouped and packed into an atlas, how
submissions are retired, how the renderer's counters and texture census are kept and reported,
how a crash report's GPU timeline is sampled and written, how the AVM2 orphan list and the
display objects' cache and lifecycle summaries change from frame to frame, and how SWF tags are
walked.

## Layout

- `src/` is the library, and Verus verifies every function in it against its contract; the few
  calls into `wgpu-types`, `swf` and `fnv`'s hash set go through small trusted wrappers whose
  contracts are stated in their doc comments. The `law_*` proof functions state properties that
  span several calls. Report figures such as "0.01 GB" are what `{:.2}` prints for the nearest
  double to the quotient; `src/text.rs` computes that double's significand and scale in integer
  arithmetic, so the library holds no floating point.
- `tests/` runs the library on concrete inputs.
- `app/` is the process-facing side: global state behind locks, environment variables, reads of
  the live `wgpu` device, conversions between `wgpu`'s types and the library's, and the few
  ratios that are reported as floating point.
