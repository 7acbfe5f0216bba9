# OpenFlow

Push-to-talk dictation for macOS: hold a key, speak, release, and the
transcript is pasted where you were typing, then quietly replaced by a
cleaned-up version.

The decisions of the program live in a library verified with Verus; the
program around it does the system calls, the network requests and the
floating-point audio work.

## Layout

- `src/` — the verified library
  - `session.rs` — live dictation as a state machine: key edges and request
    outcomes in, effects out, with laws on what every answer looks like
  - `services/` — vocabulary extraction and the personal vocabulary store,
    transcription and refinement prompts, the demo services, where speech
    lies in a recording and the WAV upload
  - `platform.rs` — hold-key events, permissions, paste plans and synthetic
    key presses, reading the accessibility tree's answers
  - `ax_text.rs` — readable text under an accessibility element
  - `tray.rs`, `icon.rs` — the menu bar's statuses over time, and the icon's
    pixels
  - `pipeline.rs` — one demo dictation as a state machine: each step's
    outcome in, the next step out, the first error ending the run
  - `app.rs`, `config.rs`, `launchd.rs`, `domain.rs`, `text.rs` — the
    command line, configuration, launch at login, shared values and text
    helpers
- `app/` — the program: macOS calls, microphone capture, Groq requests, the
  menu bar event loop, files
- `tests/` — tests of the library
