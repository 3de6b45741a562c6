# discord_server

A small chat service: users register, join and leave `#channels`, and post
messages to them; a TCP front end speaks a line-based protocol
(`REGISTER <name>`, `LOGIN <name>`, `LOGOUT`, `QUIT`) and answers in JSON.

- `src/` is the library, verified with Verus:
  - `model.rs`: the state as mathematical values and each request as a step on it,
    with the invariant that every step keeps;
  - `state.rs`: the executable state and requests, each proved to follow its step;
  - `session.rs`: the per-connection protocol and the splitting of input into lines;
  - `text.rs`: trimming, prefix tests and splitting of strings;
  - `error.rs`: the error classes and reasons;
  - `laws.rs`: properties of the service as a whole.
- `app/` is the server program around it: command line, locking, sockets and JSON.
- `tests/` runs the library on concrete inputs.
