# cankoro

A CAN bus monitoring and transmission tool for Vector XL interfaces: it
receives and sends classic CAN and CAN FD frames, decodes them with DBC
databases, logs them to Vector ASC and BLF files, plots signals and drives
periodic and trapezoidal transmissions.

## Layout

- `src/` — the library, verified with Verus:
  - `can/` — frames, and the decisions of the transmitter (forwarding,
    trapezoidal wave phases);
  - `dbc/` — DBC signals (bit extraction and encoding, with their round-trip
    laws), messages, databases and the DBC text parser;
  - `log/` — the ASC writer and reader, the BLF writer and reader (zlib
    containers through `flate2`), and the round-trip laws of both formats;
  - `vector/` — XL driver types, channel information, channel configuration
    and the conversion of frames to and from driver events;
  - `i18n/`, `ui/` — translated texts and the state and rules behind the
    user interface panels;
  - `text.rs` — character-level helpers (trimming, tokens, lines, integer
    parsing and formatting).
- `tests/` — tests of the library.
- `app/` — the application around it: the window, the driver's FFI, file
  I/O, threads, floating-point signal scaling and plotting.
