# nervctf

The verified core of NervCTF, a tool that deploys CTFd challenges from
`challenge.yml` files and runs per-team challenge instances through a remote
monitor.

- `src/` is the library, written in Verus: every function carries a
  `requires`/`ensures` contract that Verus proves. Properties that span
  several functions are stated as public proof functions named `law_*`.
  Calls into std and outside crates (paths, clock, randomness, shlex,
  serde_json, sha2) go through small trusted wrappers whose contracts say
  what those crates document.
- `tests/` runs the library on concrete inputs.
- `app/` is the command-line program around the library: argument parsing,
  file and network I/O, prompts, and the HTTP client for the monitor.
