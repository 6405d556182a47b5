# soundsync

The logic of a Bluetooth audio sink for a headless Linux box, verified with Verus. A
phone connects over A2DP; PipeWire captures the audio into a null sink; from there it
goes through a ten-band equaliser to a sound card, an AirPlay receiver or a
Chromecast.

## Layout

- `src/` is the library. Every function carries a contract that Verus proves.
  - `bluetooth`: devices and their states, the pairing window, players and their
    tracks, the adapter.
  - `audio`, `dsp`: capture, frames, the equaliser and its filter-chain, the PipeWire
    graph.
  - `output`, `cast`: discovery of outputs, routing to one of them, the CASTV2
    protocol.
  - `capabilities`, `doctor`, `install`, `lifecycle`, `config`, `config_store`, `cli`:
    what surrounds the daemon.
  - `sys`: running programs and using files, behind traits whose contracts record what
    was asked and answered. `FnRunner` and `FnFs` build them from closures.
  - `text`, `json`: texts and JSON values.
- `app/` is the program around it: I/O, D-Bus, TLS, tasks, and the floating-point
  spectrum.
- `tests/` runs the library.

## Reading the contracts

A function that runs programs says, over the trace of its runner, which programs it ran
with which arguments, and what it made of their answers. A task is a state machine: its
`on_event` (or a method of that kind) says for each state and event what comes next and
what is to be done, and `app/` does it.

Gains are the bit patterns of 32-bit floats, frequencies whole hertz, quality factors
thousandths.

The library relies on a few outside functions without proof: reading and writing JSON
(`serde_json`), varints and field skipping (`prost`), the value of a watch channel
(`tokio`), and a few functions of `std` on strings and characters. Each is declared with
a comment that says what is taken for granted.
