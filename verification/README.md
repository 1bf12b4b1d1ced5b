# blank

The rules of Blank, a small self-hosted deployment platform for static
sites, as a library verified with Verus: which names, URLs, branches and
paths are accepted, how Git's output is read, how a project's build is
detected and planned, which releases are kept, how the deployment event
stream resumes, how webhooks are authenticated, and how the server's
settings are read.

- `src/` is the library. Each public function states what it returns in its
  `ensures`; the proof functions state properties that span calls, such as
  that a shell-quoted path reads back as itself, that normalised domains
  normalise to themselves, and that an event id resumes the stream at its
  offset. `src/codec.rs` holds the items whose contracts rest on the
  `base64`, `sha2`, `hmac`, `hex`, `argon2`, `jsonwebtoken`, `rand` and
  `serde_json` crates.
- `tests/` runs the library on concrete values.
- `app/` is the server around it: HTTP handlers, SQLite, Git and build
  processes, DNS lookups, the GitHub API, and the embedded Chimney server.
