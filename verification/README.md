# moly

The decision logic of Moxin Studio, a desktop front end for local and hosted
AI models, written in Verus with its behaviour stated in `requires` /
`ensures` contracts and proved.

## Layout

- `src/` — the verified library:
  - `text` — strings as sequences of characters: trimming, splitting,
    searching, decimal printing and parsing.
  - `update` — release versions, when a release is an update, and the texts
    that announce it.
  - `http`, `runtime` — status codes, the inference server's client, its
    process id, where its binary is looked for, and the start-up state
    machine.
  - `providers`, `models` — provider preferences, adding and removing
    providers, model flags, and connection tests.
  - `chat`, `botid` — chat modes, bot identifiers, which bot is offered and
    restored, when a conversation is saved, and replies in non-chat modes.
  - `media`, `color`, `system` — Base64 payloads, file paths, WAV headers,
    colours, `vm_stat` output and weight files.
  - `shell`, `catalog`, `about` — navigation, the model selector, the
    sidebar and history, and the About page catalogue.
- `tests/` — tests of the library on concrete values.
- `app/` — the program around it: HTTP requests, processes, files and the
  console output.
