# branchless_hooks

The logic of the Git hooks that a branchless workflow installs, verified with Verus.

Git calls the hooks `post-checkout`, `post-commit`, `post-merge` and `reference-transaction` when
something happens in a repository. The hooks keep an event log, from which it can be told later
which commits have become obsolete.

## Layout

- `src/` is the verified library.
  - `hooks` holds the hooks. A hook asks its host for one thing at a time and goes on with the
    reply; `protocol` is the language that the two speak, and `runs` has the laws on whole runs.
  - `reference_transaction` reads the lines that Git hands to `reference-transaction`, and puts
    right what Git reports while it packs references.
  - `packed_refs` reads the `packed-refs` file.
  - `oid`, `event_log` and `repository` hold object IDs, the entries of the event log, and the
    states of a repository; `bytes` and `description` hold byte strings and messages.
  - `outside` has the calls into other crates, with what is believed of them without proof.
- `app/` runs the hooks: it performs what they ask for.
- `tests/` runs the library on examples, and on a repository of its own.
