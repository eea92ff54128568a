# e

The engine of a local coding agent, written and verified in Verus.

- `src/` is the library. Every function states what it does, and Verus proves it: the loop of a
  turn, requests to an OpenAI-compatible provider and the streams that answer them, retries, the
  repair of histories, compaction, the tools and their table, background jobs, terminals, plugins,
  skills, MCP servers, projects and chats, worktrees, settings and keys. Beside the functions stand
  proofs of what holds of the library as a whole: every tool call gets a result, a run never sends
  anything twice once an answer has begun, deleting a project keeps its chats, no key is stored
  with the settings.
- `tests/` runs the library on concrete values.
- `app/` is the program around it: processes, files, the network, and the desktop window. With
  `--rpc` it is driven by lines of JSON over a pipe instead.

What is not decided by the arguments of a function (the clock, what a path means to the machine,
what a provider answers) comes in as an argument of its own, or as an event. Calls into `std` and
`serde_json` that Verus cannot see into stand in `src/text.rs`, `src/bytes.rs`, `src/clock.rs`,
`src/paths.rs` and `src/json.rs`, each with what is claimed of it.
