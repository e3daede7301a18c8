# clawpier

The decisions of a desktop program that manages chat agents running in
containers, as a library verified with Verus: which requests are accepted, which
commands are run in a container, what is read in their output, what is sent on
to the window, and which files may be shown.

- `src/` is the library. Each function states in its contract what it returns;
  the functions named `law_...` state what holds across functions.
- `src/json.rs`, `src/unicode.rs`, `src/clock.rs`, and one function each in
  `src/chat.rs` and `src/text.rs` hold the calls into other crates and into std
  whose contracts are not proved. Each says what it claims.
- `app/` holds the commands themselves: the container engine, the file system,
  the network and the clockwork around the library.
- `tests/` runs the library.
