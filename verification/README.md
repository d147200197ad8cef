# ys_coding_agent

A terminal coding agent for OpenAI-compatible model providers, with its
logic verified by Verus.

- `src/` — the verified library: command-line parsing (`cli`), provider
  registry and credentials (`provider`, `store`, `config`, `capabilities`),
  the bounded event channel (`channel`), request translation and streamed
  response accumulation (`request`, `sse`, `stream`), the four tools' text
  processing (`read`, `write`, `edit`, `bash`), slash commands and
  completion (`commands`, `interactive`, `completer`), the chat screen's
  state (`ui`), and small helpers (`text`, `format`, `session`, `logging`,
  `ansi`, `prompt`, `status`, `view`, `app_loop`).
- `app/` — the program around it: environment, files, HTTP, processes and
  the prompt loop.
- `tests/` — tests of the library.

Properties that span functions are stated as `law_*` proof functions next
to the functions they relate.
