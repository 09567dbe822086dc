# bwms

Tools for mods of a game on macOS, as a verified library.

- Tweak documents: `yaml`, `toml` and `template` read them into the tree of
  `node`; `tweakxl` turns the tree into operations; `documents` states what the
  two formats have in common.
- The tweak database: `tweakdb`, `kraken`, `names`, `bake`, `encode`, `hashes`.
  `encodings`, `type_hashes` and `inline_names` hold laws on them.
- The tools around it: `webui` and `webapi` (the web interface), `manager`,
  `listing`, `commands`, `activation` and `order` (the mod manager), `bindings`
  (key bindings), `calendar`. `rebuild` states what a rebuild of the database
  does to the files.
- The running game: `memory` models what can be read of it; `rtti`, `reflect`,
  `calls`, `forge`, `classes`, `natives`, `handlers`, `answers`, `callbacks`, `links`,
  `hooks`, `probes`, `boot`, `flats`, `live` and `targets` decide what is read,
  written and called.
- What the others stand on: `text`, `scan`, `numbers`, `strutil`, `bits`,
  `keycodes`, `cursor`, `modconfig`.

`src/` is the library, every function of it with a contract. Functions that need
files, processes or the game itself are split: the library decides the next step,
and the caller takes it. `app/` is the program around the library, and `tests/`
holds its tests.
