# Ensemble

Ensemble connects small music tools. A **hub** keeps the clock and routes
**actions** between **voices**; **bridges** carry actions to MIDI, OSC and other
hubs. This crate holds the rules of the protocol as a Verus library: each function
states what it returns or changes, and Verus proves it.

- `src/` is the verified library.
  - `values`, `protocol`, `codec`, `manifest`, `routing`: the wire protocol.
  - `client`, `discovery`, `cli`: what a voice needs to find and talk to a hub.
  - `bridge/`: linking hubs, with address mapping, loop prevention and param replay.
  - `midi/`, `osc/`: the bridges to MIDI and OSC.
  - `chord/`: the typed Chord protocol with its hub, client and MIDI bridge.
  - `demo/`, `hub_tui`, `keys`: the state behind the terminal programs.
  - `conformance`: reading typed values from YAML fixtures.
  - `text`, `text_map`: strings and maps from strings.
- `app/` holds the programs: sockets, terminals, MIDI ports, serialisation and
  floating-point arithmetic.
- `tests/` runs the library on concrete values.

The properties that span several functions are the public proof functions whose
names begin with `law_`.
