# scenter

The logic of a Fedora software center and its tray update checker, proved
with Verus: AppStream catalog parsing and lookups, the store's package and
Flatpak views, AppImage update decisions, the command lines handed to
`dnf5`, `rpm` and `flatpak`, the parsers of their output, and the tray's
state, notification and badge.

- `src/` — the verified library, one module per area (`appstream`,
  `overrides`, `packages`, `flatpak`, `appimage`, `replace`, `update`,
  `updates`, `home`, `daemon`, `badge`, `store`) over shared text, number,
  date, ordering and output-streaming helpers (`text`, `num`, `date`,
  `order`, `stream`). Contracts are stated over spec functions and views;
  calls into `regex`, `flate2`, `quick-xml`, `image` and a few std
  functions go through trusted wrappers whose contracts name or state their
  results. The AppImage update (download, check, swap with a backup to roll
  back to, record) is a step function in `update`: the runner in `app/`
  performs each action and reports back.
- `tests/` — concrete scenarios for the library.
- `app/` — the tray daemon `software-center-tray`: files, processes, HTTP,
  D-Bus tray and notifications around the library.
