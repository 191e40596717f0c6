# no-clone

`no-clone` keeps API keys, tokens and passwords in an encrypted vault and hands them, by name, to
the commands that need them. A broker process holds unlocked profiles for a limited time; a
manifest says which secrets a command needs and how each of them reaches it.

- `src/` is the library, verified with Verus: manifests and bindings, the session of the broker,
  the plan by which secrets are delivered, fingerprints, rendering, and what each command and each
  request leads to. Contracts are stated over sequences, maps and the models of the types; laws
  that relate several functions are public proof functions named `law_...`.
- `app/` is the program around it: arguments, prompts, the SQLCipher database, sockets, processes.
- `tests/` run the library on concrete values.

What the library takes from other crates (HMAC-SHA-256, Base64URL, random bytes, JSON, YAML, memory
that is wiped) stands behind small wrappers whose doc comments say what is claimed of the crate.
