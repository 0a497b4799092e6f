# x5ch_rs

A terminal client for the 5ch bulletin boards, in two parts.

- `src/` is the library, verified with Verus: the parsers of the board menu
  (HTML and JSON), of `subject.txt`, of thread pages, of the search service's
  result page; the detection of follow-up threads; the reading history and its
  laws; the archive export (JSON/Markdown model, time stamps, Cloudflare e-mail
  decoding); the lock hand-off state machine; and the errors. Each public
  function states its result over a mathematical model (`Seq`, `Map`, spec
  functions) in its `ensures`. `src/foreign.rs` holds every call into std or an
  outside crate that Verus cannot read, each behind a contract stated there.
- `app/` is the program around it: HTTP fetching (ureq, native-tls, tokio), the
  history file and the JSON documents (serde), the configuration, the lock file
  and signals (fs2, nix), the float arithmetic of posts per day, and `main`.

The laws of the library (what holds across calls) are public proof functions
whose names begin with `lemma_`, next to the functions they speak of.
