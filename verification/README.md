# rad

An agent shell: a prompt where a line is a built-in command (`/help`,
`/llm`, `/tree`, `/compact`, ...), a shell command after `!`, a template
command, or a task for the agent. The conversation is a DAG of nodes; file
access goes through a permission sandbox with snapshots; LLM endpoints are
probed for liveness and context window. The library also holds the
module kernel's decisions (routing calls between modules, the call stack,
posts, byte streams); the shell in `app/` does not load modules, since the
module runtime is not part of this crate.

## Layout

- `src/` is the library, verified with Verus. Every function states what it
  returns or changes; the properties that span functions are public proof
  functions whose names begin with `law_`. Where the work needs the network,
  the disk, a process or the clock, the library decides and the host acts:
  such functions take what the host found out as arguments, or return the
  next request to make (`FsStep`, `GitStep`, `EndpointStep`, `CompactStep`,
  `LoopAction`).
- Calls into other crates (`serde_json`, `jsonc_parser`, `diffy`,
  `tree_sitter`, `reqwest`'s header checks) sit behind small functions
  marked `#[verifier::external_body]`, whose contracts are trusted; each
  doc comment says what it claims.
- `app/` is the program around the library: arguments, the line editor,
  configuration files with their serde derives, and the host side of every
  step function above.
- `tests/` runs the library on concrete values.
