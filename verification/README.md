# playground

A browser desktop, drawn with WebGPU, whose first app is **Comet**, a
shedding card game played against a simple AI.

- `src/` is the verified library: cards and their text (`cards`), the deck,
  its Fisher-Yates shuffle and hand sorting (`deck`), the game state and
  rules with a plain-value model of every play (`game`), what the game
  window shows and what clicks and the AI's turn do (`game::table`), the
  properties every play keeps, including that every game ends (`laws`),
  the window manager's focus/close/drag decisions (`desktop`) and which
  pixels of a bitmap glyph are lit (`glyph`).
- `app/` is the browser front end: the canvas bootstrap and event loop,
  the WebGPU renderer, the painter and bitmap font, window geometry, and
  the Comet window's layout and timing. Random numbers come from the
  browser and are turned into shuffle draws there.
- `tests/` runs the library on concrete games.
