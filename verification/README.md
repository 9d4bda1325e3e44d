# codex-desktop

The logic of a desktop client for coding agents, verified with Verus, and the
program around it.

- `src/` holds the verified library: the Markdown model and its streaming
  parser, JSON text and message framing, the agent client and bridge, the
  write-ahead log of turns, the language-server supervisor, find-in-files, the
  drift log, the conformance runner, the launcher, and what the window shows.
- `tests/` exercises the library on concrete values.
- `app/` is the program: processes, pipes, files, the portal and the window.
  It converts between serialised values and the library's types and performs
  what the library decides.
