# fluor

A software compositor with machine-checked contracts.

Pixels hold opacity in the top byte and darkness, the complement of visible RGB, in the other three.
Layers are painted topmost first: each one goes *under* what is already there, so opacity and darkness
only ever add up, and a pixel that is opaque is done. Layout is in relative units around the centre of
the viewport, scaled by the harmonic mean of its sides.

## Layout

- `src/` — the library. Every function has a contract that Verus proves.
  - `pixel`, `simd`: the `under` kernel, one pixel at a time and eight at a time.
  - `stack`, `rpn`: compositors that run a program over layers and reuse what did not change.
  - `coord`, `geom`, `region`, `pane`: coordinates, the viewport, splitting regions, the pane stack.
  - `canvas`, `paint`, `theme`: buffers with damage, and everything that draws on them.
  - `text`: glyph bitmaps, lines of text that can be taken away again, measures.
  - `event`, `widgets`: keys, and the button, checkbox, slider, dropdown and text fields.
- `app/` — ordinary Rust around it: floating-point coordinates, curves and shaping, fonts, threads,
  keys of the window system, process-wide switches.
- `tests/` — the library run on concrete values.

## Conventions

Places and lengths on the screen are fixed-point numbers: `Coord` has 16 fractional bits, relative
units and fractions have 32. What only floating-point code can compute — the curve of a squircle, the
bitmap of a glyph, the width of a text — comes in as a table, a bitmap or a measuring function.

Public proof functions named `law_…` state what holds across functions: that opacity never shrinks, that
added text can be taken away, that lines tile their text, that a painted widget rests.

Outside code is trusted to do what its declarations here say in three places: the eight-lane vectors
of `wide` (`simd`), the glyph cache and the fonts of `cosmic_text`, with the scaler of `swash`
(`text::raster`), and the character classes and `String::push` of the standard library
(`widgets::chars`).
