# kara

The decisions of a Wayland desktop — a tiling compositor, its bar, its launcher and its
screenshot tool — as a verified library, with the programs around it.

## The library (`src/`)

- `gate`: the compositor. `state` holds the desk (outputs, workspaces, scratchpads, windows,
  what is focused, what moves); `actions`, `dispatch`, `windows`, `lifecycle`, `desk`, `motion`,
  `input`, `requests` and `setup` change it; `layout` and `arrange` place windows; `frame`,
  `borders`, `overlay`, `cursor`, `wallpaper` and `capture` say what is drawn; `monitors` and
  `outputs` choose the hardware; `laws` states what holds of it as a whole.
- `sight`: the bar. Its modules, where they stand, and what the machine's status is read from.
- `summon`: the launcher and the theme picker.
- `glimpse`: screenshots of windows, outputs and regions.
- `ipc`: the messages of the compositor's socket and their framing.
- `geometry`, `ratio`, `pixels`, `scan`, `text`: what the others share.

Every function states its result in `ensures`; invariants are kept by `wf` predicates. Public
proof functions named `law_..` state what relates several functions.

## The programs (`app/`)

Surfaces, devices, files, sockets and fonts. The programs read the world, hand plain values to
the library, and carry out what it answers. Settings are read from
`~/.config/kara/kara-gate.json`.

## Tests (`tests/`)

Each file covers one part of the library on concrete values.
