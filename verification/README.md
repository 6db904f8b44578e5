# Pulsar

A studio for motion scripts (funscripts): generating them from video and sound,
editing and auditing them, and playing them on devices.

- `src/` is the library: scripts and bundles of axes, the editor with its history,
  auditing and repair, live recording, the rules of signal and landmark tracking,
  the protocols of devices and servers, batch jobs, model installation and the
  start of the engine. Its functions carry contracts that Verus proves; laws that
  relate several of them are public proof functions beside them.
- `tests/` runs the library on concrete values.
- `app/` is the program around it: windows, files, processes, sockets, inference
  and what is computed in floating point.

Floating-point numbers do not enter the library. Where only their order matters
they come in as `Level`, an integer that orders as the number does; where they are
only carried, as their bits; where the program compares them, as its answer.

JSON is read and written by `serde_json`. The wrappers in `src/json.rs` say what is
taken from that crate without proof; the path and letter-case functions of the
standard library are wrapped in `src/paths.rs` and `src/text.rs`.
