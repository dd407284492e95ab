# minikv

A small key-value store whose logic is verified with Verus.

* `src/minikv/` — the library: errors, text helpers, the in-memory
  database (`base_datos`), command parsing (`parseo`), commands and their
  effects (`comandos`), the data-file and log formats (`archivo`,
  `persistencia`) and the proofs that a snapshot and the log load back into
  the database they were written from (`recuperacion`).
* `src/cliente.rs`, `src/servidor.rs` — the client's and the server's
  decisions: reading input and answers, handling request lines.
* `src/guia1.rs` — hangman.
* `app/` — the programs: files, sockets, threads and the console.
* `tests/` — tests of the library.
