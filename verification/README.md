# unhosted

The decision logic of the unhosted node, written in Verus and proved
against its contracts: local-first routing across trusted peers, Ed25519
node identity and signed requests, pairing tokens, the relay client's call
bookkeeping, the agent's tool-call loop and its file-system sandbox,
model downloads and their digests, chats, memory retrieval, the tunnel
supervisor, metrics and the audit ring.

## Layout

- `src/` — the verified library, one module per area (`router`, `identity`,
  `auth`, `pairing`, `relay_client`, `agent`, `agent_fs`, `model_manager`,
  `swarm`, ...). Each module states what its functions return over spec
  functions and views; the public proof functions state the laws that hold
  across calls (what a read gives back after a write, what a refused
  request is answered, which caps a run never exceeds).
- Outside crates (sha2, base64, ed25519-dalek, rand, url parsing through
  reqwest) are reached through small trusted wrappers whose contracts name
  what the crate returns.
- `tests/` — ordinary Rust tests of the library.
- `app/` — the `unhosted` command line: argument handling, HTTP, files and
  processes around the library, plus the file-system side of the agent's
  sandboxed tools.
