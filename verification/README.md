# sshdt

A small SSH server that can publish itself through a developer tunnel, with its decisions
verified by Verus.

- `src/` is the library. It reads settings, decides who is let in, what a session runs and
  which files a client reaches, and keeps the tunnel going. Every function states what it
  returns or changes, and Verus proves it. It does no input or output: what was found on the
  machine comes in as plain values, and what is to be done goes out as plain values.
- `tests/` runs the library on given values.
- `app/` is the program around it: options, files, sockets, processes, terminals, waiting.

What a module promises across several calls stands in its public proof functions.

The library calls a few functions of other crates behind small wrappers whose contracts are
taken as they stand. Each of them is marked `external_body`, and its comment says which
function it calls and what is claimed of it:

| where | what is called |
| --- | --- |
| `auth::from_openssh` | `ssh-key`, through `russh`: public keys in one line of text |
| `devtunnel::client::random_bytes` | `rand` |
| `devtunnel::json::look_up`, `write_object` | `serde_json` |
| `devtunnel::logs::utc_date` | `time` |
| `devtunnel::process::from_utf8_lossy` | `String::from_utf8_lossy` |
| `sshd_config::quoted` | the `Debug` format of `str` |
| `text` | `String::push` |
