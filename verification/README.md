# rust_examples

A collection of small Rust programs whose logic lives in a library verified
with Verus.

- `src/` is the library. Each function states what it computes in its
  `requires`/`ensures`, and the laws that tie functions together are proof
  functions:
  - `authentication`, `user_store`, `login_manager`: users with hashed
    passwords, the login decision, and adding, deleting and re-keying users.
  - `parallel`: primality, sums and prime lists computed with `rayon`.
  - `threads`: the per-thread work of the threading examples, and the proof
    that chunked partial sums add up to the whole.
  - `collector`: the send queue of the metrics collector as a step function.
  - `thumbnails`, `text`: file names, search pages, upload forms, hex and
    decimal rendering, and string replacement.
  - `variables`, `animals`, `tasks`: the small examples.
- `app/` holds the programs themselves: terminal and file I/O, threads,
  async runtimes, web servers and databases. The first argument picks the
  program (`login`, `login_manager`, `hello_thread`, ...).
- `tests/` exercises the library on concrete values.
