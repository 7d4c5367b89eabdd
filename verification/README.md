# nodem_rs

A small display engine for embedded screens, verified with Verus: a DOM of
nodes laid out by flex rules and drawn onto a framebuffer, a media store of
images, nine-patch borders, fonts, pages and programs loaded from packages,
and a line protocol that drives both.

## Layout

- `src/` — the library, every function proved against its contract.
  - `dom/` — the node tree, its layout (`calculate`), drawing (`render`),
    the binary page format and the XML page format.
  - `media/` — libraries by source, packages (`load_pkg`, `generate_pkg`),
    imports of images, borders, fonts (from glyph sheets) and pages, and
    the run-length encoding of pixel streams.
  - `surface/` — the framebuffer: rectangles, images, nine-patch borders
    and text layout.
  - `control/` — the line protocol and the upload state machine.
  - `xmlparser.rs`, `stream.rs`, `decimal.rs` — readers of text and bits.
- `tests/` — tests of the library on concrete values.
- `app/` — the loop that feeds the protocol from outside, and what needs
  formatting traits or floating point.

The only outside crate the library calls is `bytes`, through a few trusted
wrappers in `src/media/buffer.rs`; `str::from_utf8` and `str::trim` are the
other trusted calls.
