# led_badge

A tool for programming USB LED name badges (VID `0x0416`, PID `0x5020`),
with its core verified by Verus.

- `src/` is the verified library:
  - `protocol.rs`: the 64-byte header (magic, brightness, blink and border
    flags, speed/mode nibbles, big-endian lengths, date bytes).
  - `font.rs`: glyph and icon tables, modelled as maps.
  - `renderer.rs`: text to bitmap columns with `:icon:` and `::` notation.
  - `payload.rs`: header plus bitmap data for one or more messages.
  - `usb.rs`: backend selection, device listing and matching, `bus:address`
    ids, padding and framing of a payload into USB reports.
  - `monitor.rs`: alerts from system readings, alert priority, and the
    monitor's update decisions.
  - `text.rs`: character helpers (decimal printing and parsing).
- `app/` is the command-line program: argument parsing, USB transfers
  through hidapi and rusb, system readings through sysinfo, nvml-wrapper and
  the Ollama HTTP API, and udev setup.
- `tests/` holds the tests.
