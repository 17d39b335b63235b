# dubplate

Drop the zips a shop sent you, or the tracks themselves, watch every one get
measured, leave off the ones you do not want, and download a FAT32 image a
Pioneer or a Denon player reads. Everything runs in the browser.

The crate is in two parts.

- `src/` is the library, verified with Verus: what a dropped file is (`sniff`),
  what a track is called on the image and whether a player can read it
  (`naming`, `options`), names a zip stored in code page 437 (`cp437`), which
  rows reach the image and what it will weigh (`run`), the findings of a report
  (`report`), the Camelot wheel's counts (`charts`), and the small rules of the
  worker pool (`pool`, `permits`, `worker`, `settings`).
- `app/` is the page around it: Leptos components, the browser's storage, the
  web workers and the analysis module they link, and the arithmetic on
  fractional numbers (durations, tempos, re-encoded sizes).

`tests/` runs the library on concrete values.
