# lsdblox

Tools for LSDBLOX accessories, with their logic verified in Verus.

- `src/` is the verified library:
  - `text`: the character model (Unicode whitespace, trimming, splitting, lines).
  - `obj`: vertex records of Wavefront OBJ text.
  - `mesh_file`: the `.mesh` text format and the converter's command line.
  - `geometry`: per-vertex attributes from a model's flat arrays, 16-bit indices.
  - `asset`: the rules for a renderable asset record, `.obj` paths, file locations.
  - `request`: the thumbnail server's item-id parsing and reply decisions.
  - `capture`: a captured frame to a flipped PNG in base64.
  - `preview`: the previewer's command line.
- `app/` holds the programs around it (file, window, database and HTTP I/O, and
  the floating-point work): run the binary as `mesh` for the OBJ converter, as
  `asset_preview` for the previewer, under any other name for the thumbnail
  server. The previewer and the server read `checker.png` (and the previewer
  `default.obj`) from the working directory.
- `tests/` runs the library on concrete inputs.
