# lipl

Lyrics and playlists: their models, the text formats they are stored in,
their identifiers and entity tags, and the stores that hold them, with
contracts proved by Verus.

- `src/` is the verified library: text splitting (`text`, `parts`,
  `from_reader`), identifiers (`uuid`), models (`model`), entity tags
  (`tags`), the stored text of lyrics and playlists (`disk_format`, with the
  proof that a stored lyric reads back in `stored_law`), lyric files with
  front matter (`lyric_file`), the stores (`db`, `memory`), the decisions of
  the file store and the web service (`file_repo`, `service`), logged
  changes (`transaction`) and vector helpers (`ext`, `convert`).
- `app/` reads and writes files, logs and serde formats around the library.
- `tests/` runs the library on concrete values.
