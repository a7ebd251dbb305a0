# voice_memos

Extracts transcripts from Apple Voice Memos: finds the `tsrp` transcript atom in
each m4a recording, writes Markdown files with front matter, keeps a processing
record between runs, and lists, shows and previews recordings for a terminal or as
JSON / NDJSON.

The library under `src/` is verified with Verus; every public function states what
it returns in its `ensures`, over spec functions on sequences and maps.

- `text` — character-level helpers: decimal digits, padding, trimming, word counts.
- `format` — file-name slugs and `2m05s`-style durations.
- `tsrp` — locating the transcript atom in the audio bytes and reading its JSON.
- `json` — `serde_json` values seen as trees of plain values.
- `validate` — checks on the output directory, resource names and control characters.
- `schema` — the output schema of each command.
- `state` — the processing record, a map from recording id to what was done.
- `output` — the records the commands print and their terminal renderings;
  cutting JSON output down to chosen fields.
- `memos` — the decisions of the commands: which recordings an extraction takes,
  what each extraction step leads to, what is recorded and reported, the transcript
  file names and contents, what `show` reads back, the output mode.
- `watch` — the launchd agent's property list and its line in `launchctl list`.

`app/` is the command-line program around the library: argument parsing, the
SQLite database, files, external processes and serde serialization.
