# glry

A terminal image gallery: browse a directory of images with thumbnails drawn
in the terminal (Kitty / iTerm2 / Sixel), a list view with a preview, a
fullscreen viewer with GIF playback, EXIF orientation, an on-disk thumbnail
cache and an optional AI description of the image on screen.

The gallery's logic is a library verified with Verus; the program around it
reads the disk, the terminal, the clipboard and the network.

## Layout

- `src/` — the verified library (`glry`):
  - `app.rs` — the gallery state machine: key bindings, selection, grid
    layout, load bookkeeping, animation timing, the AI overlay. Work that
    touches the outside world is returned as `Request`s.
  - `scan.rs` — directory listings: which entries are shown and in what order.
  - `config.rs` — the `key = value` config file and its warnings.
  - `cache.rs` — thumbnail cache keys, file names and the raw RGBA format.
  - `picture.rs` — decoded images as RGBA pixels and the pixel operations
    of the `image` crate.
  - `thumbnail.rs` — crop geometry, EXIF orientation, thumbnail and viewer sizing.
  - `ai.rs` — the describe request's URL, data URL, error and reply texts.
  - `ui.rs` — the texts and rectangles the screen shows.
  - `text.rs` — character-sequence helpers.
- `app/` — the program: terminal setup, the event loop, directory and file
  I/O, background decoding, the clipboard and the HTTP call.
- `tests/` — tests of the library.

## Usage

```sh
glry [PATH]
```

Config lives in `~/.config/glry/config` (`key = value`, `#` comments; colors
such as `red`, `42` or `"#rrggbb"`; `thumbnail_crop`, `fullscreen_hide_bars`
and `ai_enabled` take `true` or `false`). The AI describe key (`a` in the
viewer) also needs `SWIFTROUTER_API_KEY` in the environment.
