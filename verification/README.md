# rumpel

A minimal GTK4/GStreamer video player for Linux, whose decision logic is a
library verified with Verus.

- `src/` — the verified library:
  - `videos` — file extensions and the recognised video extensions;
  - `order` — case-insensitive byte order of file names;
  - `paths` — equality of Unix paths by their components;
  - `folder` — a folder's videos in browsing order, wrap-around navigation,
    and the successor of a trashed video, with their laws;
  - `clock` — playback times and their `m:ss` / `h:mm:ss` display;
  - `streams` — the media information overlay text;
  - `config` — restoring the mute and loop settings;
  - `session` — the current file and one-time window sizing;
  - `controls` — reactions to buttons, pointer, keys and bus messages;
  - `text` — decimal numbers and string building.
- `app/main.rs` — the program: widgets, pipeline, file system and settings
  I/O, calling the library for every decision.
- `tests/` — tests of the library.

Shortcuts: `Left`/`Right` open the previous/next video of the folder,
`Ctrl+X` moves the current video to the Trash, `i` toggles the media
information. `rumpel --version` prints the version and exits.
