# phomogen

A photo-mosaic generator: it indexes the colours of video frames, finds for each tile of a
picture the frame crop nearest in colour, and assembles the mosaic from those crops.

- `src/` is the library, verified with Verus: frame crops and their colour lines
  (`ffmpeg/`), reading colour databases back (`tasks/load_databases.rs`), tile layouts and
  print sizes (`app/`), nearest-colour matching (`color_matcher.rs`), seam blending
  (`tile_blender.rs`), placing tiles in the mosaic (`tasks/generate_mosaic.rs`) and the
  application's state machine (`app.rs`). Where the program computes in floating point,
  the library states the result exactly: `numeric.rs` models the nearest double to a
  quotient, and `decimal.rs` reads decimal numbers with exponents exactly. Calls into the `image`, `sysinfo` and standard
  libraries stand behind small trusted wrappers whose contracts are documented where they
  are declared.
- `app/` is the terminal program around it: ffprobe/ffmpeg processes, files, threads and the
  ratatui screens.
- `tests/` exercise the library on concrete values.
