# stimstation

A window of visual effects: drifting lines, circular patterns, a ray pattern with
sorting animations along its borders and a leaderboard of the sorting algorithms, and a
few animated mathematical figures.

- `src/` is the library, verified with Verus: the sorting animations and their
  completion counts, the rasterisation of lines, circles, rectangles and bitmap fonts
  into RGBA frames, the menu and key handling, the download progress window, word
  wrapping, and the laws that relate them (in `src/laws.rs`, `src/progress.rs` and
  beside the functions they are about).
- `tests/` exercises the library on concrete values.
- `app/` is the program around it: the window and event loop, sound, the network
  download, outline-font text, and the effects whose geometry is computed in floating
  point.
