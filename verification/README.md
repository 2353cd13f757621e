# bufflink

An [Agent Client Protocol](https://agentclientprotocol.com) bridge for the
freebuff coding agent: an ACP client speaks JSON-RPC on stdin/stdout, and
bufflink drives one freebuff terminal UI in a pseudo-terminal on its behalf.

## Layout

- `src/` is the library, verified with Verus. Every public function states
  what it returns in its contract, over spec functions and views.
  - `json` — a JSON value type, its view, and the calls into `serde_json`
    that read and print it.
  - `text` — character-level helpers (trimming, searching, decimal parsing).
  - `acp` — the protocol: message types and their JSON forms (`types`),
    JSON-RPC framing (`jsonrpc`), and the server's state machine that answers
    each incoming line (`server`).
  - `freebuff` — what bufflink knows of freebuff: the screen classifier and
    model picker (`screen`), the session log (`log`), the chat transcript and
    its streaming diff (`transcript`), the chat directories (`chats`), and
    the decisions of the driver (`driver`).
  - `pty` — keys and paste framing, the child's environment and spawn
    retries, screen snapshots, the terminal-query scanner of the output
    reader (`reader`), and the screen model that the child's output feeds
    (`term`, around `vt100`'s parser).
- `app/` is the program around the library: the async server loop,
  opening the pseudo-terminal and reading from it, file reads and the
  driver's polling loops. It hands the library plain values and acts on what comes back.
- `tests/` runs the library on concrete inputs.

The laws the library keeps (what a read of the environment gives back after
a write, that a tool call is reported once, that re-running the transcript
diff reports nothing new, how the first `Finished` log event settles a turn,
and others) are public proof functions next to the code they speak of.
