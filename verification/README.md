# Zed Context Cleaner

Cleans conversation threads of the Zed editor: old thinking, long tool results,
repeated file reads and large attachments go, and the last dialogs stay as they
are. Every function of the library states in its contract what it returns, and
Verus proves it.

## Layout

- `src/`: the library.
  - `types`, `json`, `json_form`, `str_map`, `duplicate`: the thread, its parts
    and its JSON form.
  - `text`, `chars`, `size_label`: texts measured in bytes and characters.
  - `config`, `protect`, `dedup`, `attachments`, `tool_results`, `agent`,
    `usage`, `clean`: the cleanup.
  - `measure`, `rank`, `stats`, `preview`, `analysis`: figures of a thread.
  - `blob`, `backup`: how threads and their backups are stored.
  - `cli`, `session`, `dialog`: what the command line and the window decide.
  - `laws`: what holds of every cleanup, as proof functions.
- `tests/`: tests of the compiled library.
- `app/`: the program: database, files, command line and window.

## Trust

Calls into `serde_json`, `zstd` and a few functions of the standard library
stand behind small wrappers, each with a comment that says what is believed of
it. They are in `json`, `blob`, `chars` and `text`.
