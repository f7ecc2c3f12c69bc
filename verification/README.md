# cool_scroll

A perceptual motion engine for scrolling: five candidate ways of making fast
scrolling feel like less of a fight, drawn over the same text so they can be
compared by eye.

## Layout

- `src/` — the verified library (Verus).
  - `motion.rs` — the five effects and the set of armed ones, with the rule
    that Altitude and the distortion fields never run together, and which
    switches move when one is flipped.
  - `mode.rs` — whether the document is set as text or drawn as bars.
  - `document.rs` — the corpus parser: blank lines separate paragraphs, the
    lines of a paragraph are trimmed and joined by single spaces, and a short
    paragraph opening with a heading word is a heading.
  - `text.rs` — whitespace, trimming and splitting, shared by the parser and
    the font-stack reader.
  - `text_system.rs` — which family a font stack resolves to (through
    Parley's collection; the first name that resolves wins) and which glyph a
    wrapped line starts at.
  - `duration.rs`, `loop_mode.rs`, `segments.rs`, `track.rs` — the time
    arithmetic of animation tracks: playback policies, holds, a track's total
    length, and the segment a track is playing once its start offset and
    playback policy are applied.
- `tests/` — tests of the library.
- `app/` — the window: the view, the scroll physics, the animation segments and
  the Parley text system. Everything there works in floating point or draws,
  and calls the library for the decisions above.
