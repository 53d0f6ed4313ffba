# cake core

The decision-making core of the cake coding assistant, written in Verus and
proved against its contracts.

- `src/` is the verified library:
  - `bash_safety` — the best-effort guard against destructive shell commands
    (segment splitting, shell-data stripping, the git and `rm` checks, the
    `rg` warnings), with the laws that every refusal is a `BLOCKED` message and
    every warning a `NOTICE`, that the segments and separators rebuild the
    command, and that `a && b` is judged as `a`, then `b` (for sides with no
    quote characters; and, joined without spaces, for single-segment sides
    that close their quotes).
  - `retry` — the HTTP retry policy: backoff with deterministic jitter,
    `Retry-After` and `x-should-retry`, context-overflow budget reduction,
    transport errors worth a fresh connection.
  - `responses` — Responses API requests and replies: instructions and input
    items, output parsing, termination and usage, streamed events.
  - `provider` — provider inference from the base URL, provider headers,
    routing, Chat Completions message adaptation.
  - `bash_output`, `bash_session`, `bash_call`, `judge_gate` — how a Bash
    call's arguments, judge verdict and output become what the model sees.
  - `compensation` — the events a call records (judge verdict, bypass,
    fail-closed denial, output truncation), linked to the transcript call by
    the SHA-256 digest of its id.
  - `sandbox_scan` — the path words of a failed sandboxed command and the
    operation each needed.
  - `duplicate_guard`, `skill_dedup` — scheduling rules for tool calls.
  - `text` — byte and character helpers shared by the modules.
- `tests/` runs the library on concrete values.
- `app/` is the runtime around it: JSON and HTTP adapters, the Bash child
  process, output files, path resolution on disk.
