# ono_cli

The verified core of the `ono` shell's command-line layer, written in Verus.

`src/` holds the decisions, each with a contract Verus proves:

- `invocation` — how the shell was started, from its arguments.
- `hosts` — where the host sources live, and what an OpenSSH client configuration names.
- `expand`, `glob` — word expansion, where what arrived escaped or inside a value stays literal
  in the pattern, glob matching, and the walk of a pattern over directories.
- `trust` — whose keys this machine accepts, and how a store's file is read: a missing one
  enrols nothing, an unreadable one is refused.
- `keyless` — keyless signatures: who a bundle names, whether an enrolled subject covers it,
  and the checks a bundle passes, in order.
- `permissions` — stored permission decisions, their projection, and `set permission`.
- `grants` — the grants a session makes and the host's own events, with the identities it
  mints; revoked grants are kept.
- `decide` — executing a decision (`allow`, `deny`, `ask`), applying a profile, and the
  automatic permissions of a package placed by hand.
- `consent` — the just-in-time question: whether it is asked, what it says, what each answer
  does, and the refusal a package meets.
- `packages` — what a package reference names, and which packages `find plugin` lists.
- `install` — the permission plan of an install and its record, the order its refusals come
  in, when a person must be asked, and the steps that undo a failed install's files.
- `acquire`, `catalog` — where a package comes from and where a release is looked for.
- `host` — management state, the words a package is reported with, verification outcomes,
  readiness, and minted identities.
- `views` — a package's view as a tree of components, laid out in a terminal.
- `shell`, `text` — small decisions about words, and the text vocabulary the rest uses.

Public `law_*` proof functions state what holds across calls.

`app/` is the thin edge around it: reading and writing files, walking directories, the
network, the wire formats read with serde, and a package's JSON view turned into components. `tests/` exercises the library on concrete
values.
