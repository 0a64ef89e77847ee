# wand-render

A resident daemon that owns terminal sessions: the processes, what they wrote, and the screens
that their output makes. Its clients come and go over a Unix socket; the sessions stay. A second
daemon does the same for programs that run without a terminal.

## Layout

- `src/` is the library, verified with Verus. It decides everything: how output is decoded, kept,
  numbered and replayed, how a screen becomes a snapshot, who may ask for what, what each request
  leads to, and when a daemon starts and ends.
- `app/` is the program around it: sockets, processes, terminal devices, signals, files and
  threads. It performs what the library decides and hands back what came of it.
- `tests/` runs the library on concrete values.

## What is proved

Each public function has a contract over mathematical models, such as the whole output of a
session, of which its windows, its screen and its snapshot are functions. Proof functions whose
names begin with `law_` state what holds across functions: that text survives any cut into chunks,
that a replay has no gap, that a baseline and what is pending make up the screen, that only clients
with the right token hear of anything. That a snapshot shows the screen again is proved of every
screen but two: one that lost rows while it may have had a scroll region, and one that was given
U+17D8, the one character that asks for three columns.

The terminal emulator is the crate `vt100`, JSON is the crate `serde_json`, and the digest in the
names of the files is the crate `sha2`. What is taken on trust of them stands in `terminal.rs`,
`json.rs` and `paths.rs`; what is taken on trust of the standard library and of `libc` stands in
`text.rs`, `time.rs` and `signal.rs`.
