# sudokube

Sudoku on the surface of a 9×9×9 cube: each of the six faces is a 9×9 sudoku, and
neighbouring faces share their edge rows and corner cells.

- `src/` is the library, verified with Verus: coordinates and faces of the cube
  (`cube`, `navigation`), digit maps and the playing grid (`digits`, `grid`), solution
  generation and checking (`wfc`), counting completions and making puzzles with one
  solution (`puzzle`), the game state and its history (`game_state`), the game screen's
  rules (`play`, `input`, `shop`, `economy`, `board`, `status`, `layout`, `render`,
  `widgets`), the start menu and the settings (`menu`, `settings`, `keymap`, `i18n`,
  `types`), starting and resuming games (`session`) and the save and exchange formats
  (`codec`, `text`).
- `app/` is the terminal program around it: the event loop, drawing with ratatui, key
  events from crossterm, storage in SQLite and the 3D view of the cube.
- `tests/` runs the library on concrete games, boards, keys and texts.
