# gds_layout

A GDSII layout viewer backend. The library in `src/` is verified with Verus:

- `reader`, `bytes`, `types`: cutting a stream into records and decoding
  their big-endian fields and NUL-padded strings;
- `parser`: the record-by-record state machine that builds a layout, stated
  as a spec function over the stream and proved against it;
- `cell`, `hierarchy`: the layout database (cells, shapes, placements,
  layers), its top cell and the order of its cells under their placements;
- `api`, `query`, `bundle`: the answers of the viewer's endpoints, the
  binary encoding of a viewport answer, and which cell definitions go with
  it;
- `laws`: properties that span several functions.

Coordinates are integer database units; the format's 8-byte reals are kept
as their bit patterns. `app/` holds the HTTP server (axum, tokio), the
spatial index (rstar) and the floating-point geometry.
