# rndwalker

The logic of rndWalker, a desktop player that plays random videos and music from local
folders, as a library verified with Verus, and the application around it.

- `src/` — the verified library: settings and their normalization, folder presets (kept sorted
  by name), the media library and random choice that avoids recently played videos, single-view
  playback (history, preloading, folder switching, stale-load detection), the multiview tile
  state, keyboard actions, on-screen messages and the update decision.
- `tests/` — tests of the library on concrete values.
- `app/` — the desktop application (eframe, egui-video, rodio, rfd): windows, players, audio,
  folder scanning, the settings file, the update download, and the floating-point geometry of
  the multiview layout.
