# autotype

Verified core of a push-to-talk dictation tool: hold a key, speak, release,
and the recognized text is typed into the focused window.

- `src/` is the library, verified with Verus:
  - `capture` — the capture buffer the audio callback fills: recording on
    and off, conversion to 16 kHz by exact phase accumulation, the
    ten-minute cap, the input level;
  - `wav` — the WAVE file of a recording (written with hound);
  - `session` — the toggle command, the hold-to-talk key, the overlay and
    the fallback shortcuts;
  - `transcribe` — the recognition backends, their order, what is sent to
    each and how each reply is read (JSON through serde_json);
  - `history` — the list of recordings, newest first (dates through chrono);
  - `typing` — the key strokes that type a text, in batches;
  - `diagnostics` — the audio devices report;
  - `text` — trimming, separators, numerals, search and ordering of text.
- `app/` is the desktop program around it: the Tauri window and commands,
  the cpal audio thread, the rdev key listener, files and processes.
- `tests/` exercises the library on concrete values.
