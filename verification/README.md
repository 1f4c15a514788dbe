# bevy_game

The logic of a small Bevy rhythm shooter, verified with Verus.

- `src/` is the library. `volume` reads and writes the volume label of the menu
  (`Volume: <n>%`) and steps the level; `menu` decides what the menu's buttons do;
  `actions` turns the held movement keys into a direction; `rhythm` judges a click
  against the notes scrolling past the target line; `state` names the game's phases.
  Each module states its laws as proof functions next to the code.
- `app/` holds the Bevy plugins and systems: they read the engine's state, ask the
  library, and carry out the answer. Float arithmetic on transforms, positions and
  decibels stays there.
- `tests/` runs the library on concrete values, and compares the label reading and the
  click judging with the `std` and float code they stand for.
