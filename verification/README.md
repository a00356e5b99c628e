# deeper

The logic of the DeepEr desktop companion, as a Verus-verified library:
the agent's tool protocol and run loop decisions, the model providers'
request shaping and reply reading, streamed replies, the conversation
context and its token budget, long-term memories, scheduled tasks, MCP
servers, personas and character cards, TTS, resources and their
installation, configuration values, logs and sealed secrets.

- `src/` — the library, verified by Verus: the public functions carry
  contracts that Verus proves (a few small helpers state only what their
  callers need). Calls into `serde_json`, `base64`, `aes-gcm`, `rand` and `chrono`
  stand behind small trusted wrappers whose doc comments say what they claim.
- `tests/` — tests of the library on concrete values.
- `app/` — the shell around it: serde shapes for the front end, file system
  work, the loops that alternate outside work (model requests, tool calls,
  downloads, the clock) with the library's decisions, and the
  floating-point scoring.

Verify with Verus from this directory: `verus --crate-type lib src/lib.rs`
(with the outside crates passed as externs).
