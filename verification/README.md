# iocraft

Building blocks for terminal user interfaces, written in Verus: the logic is
verified against contracts stated over mathematical models.

## Layout

- `src/` — the verified library.
  - `canvas`: a grid of cells with text and background colors, clipped
    regions that draw onto it, and its rendering to plain text or ANSI.
  - `text`, `mixed_text`, `segmented_string`, `linebreak`, `unicode`: wrapping
    and aligning text, measuring it, and drawing it onto a region.
  - `view`, `scroll_view`, `button`, `layout`: borders and titles, scrolling
    and scrollbars, buttons and checkboxes, layout properties and clipping.
  - `text_input`: the editing state of a text input and how keys change it.
  - `event`, `terminal`: key and mouse events, modifier sets, the event
    queue, Ctrl-C handling and delivering events to components.
  - `backend`: the commands that bring the terminal from one canvas to the
    next, with a model of the screen under which they are proved to show the
    new canvas.
  - `escapes`: how the ANSI rendering of a canvas relates to its plain
    rendering.
  - `wrap_width`: why wrapped lines fit the width they were wrapped to.
  - `output`, `multimap`, `color`, `style`, `strip_ansi`, `chars`: output
    queued above the interface, an ordered multimap and the matching of
    children to the components they had, colors and SGR codes, text styles,
    removing escape sequences, and character-level helpers.
- `app/` — the part that touches the terminal: crossterm conversions,
  reading the environment, performing the planned commands, and optional
  event handlers (closures, which Verus does not take as fields).
- `tests/` — tests run against the compiled library.
