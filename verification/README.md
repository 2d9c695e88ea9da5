# knob

The verified core of Knob, a macOS mixer that routes each application's audio
to a loopback device with its own volume.

- `src/` — the library, verified with Verus: the routing table and its laws
  (`routing`), the driver IPC wire formats and the ring producer's planning
  (`driver_ipc`), BlackHole detection (`devices`), the output callback's buffer
  arithmetic (`router`), the resampler's sample movement (`resampler`), the
  persisted routed list (`settings`), and helpers (`bytes`, `text`, `capture`).
- `tests/` — tests of the library on concrete values.
- `app/` — the Tauri backend: CoreAudio, ScreenCaptureKit, shared memory,
  floating-point mixing and settings files, calling the library for its
  decisions and formats.
