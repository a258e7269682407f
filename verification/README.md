# mc_tui

The verified core of a terminal Minecraft launcher.

- `src/` is the library, checked by Verus: the markdown renderer used for
  project descriptions (`md`), column widths (`width`), character-level text
  helpers (`text`), modal forms and version pickers (`forms`), the page model
  and key hints (`nav`), keyboard and click decisions (`keys`), click
  regions of pages and dialogs, launch guards, list selection and scrolling
  (`ui`), launcher defaults (`settings`) and RGBA
  rasters (`images`). Contracts are stated over `Seq`-based views; the laws
  the launcher relies on (navigation and cycling invert, filtering is exact,
  scrolling stays in bounds, ...) are proof functions named `law_*`.
  Rendered markdown lines always fit the width; a crowded table or a glyph
  wider than the room beside a gutter is cut off at the width, and nothing
  is cut when the document's quotes, lists and tables have room
  (`md::layout::layout_ok`).
- `tests/` exercises the library on concrete values.
- `app/` is the terminal program around it: the event loop, drawing with
  `ratatui`, and the disk, network and game-process work done through the
  launcher core.
