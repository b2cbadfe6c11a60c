# bili_downloader

A command-line tool that downloads Bilibili videos as MP4 or MP3, built around a
library whose decisions are proved with Verus.

- `src/` is the verified library: reading video ids and page numbers from the
  input, cookies (typed headers and `cookies.txt` files), the collection and
  page rules, stream selection, file names, `ffmpeg` argument lists and concat
  lists, and the messages of the library's own errors and of failed `ffmpeg`
  runs. Public functions state their results over `Seq<char>` models of
  strings; `text.rs` and `number.rs` hold the character and decimal operations
  those models are built from. The one exception is `unix_timestamp`, whose
  result is a reading of the system clock; `timestamp_from_seconds` states how
  that reading becomes the timestamp. Errors of file and network I/O are
  reported by `app/`.
- `app/` is the program around it: the command line (clap), HTTP requests
  (reqwest), JSON (serde), files, progress bars, the zip archive of `ffmpeg`, and
  running `ffmpeg`.
- `tests/` runs the library on concrete inputs.

Regular expressions are matched by the `regex` crate and header values are
checked by `reqwest`; the library calls them through small trusted wrappers in
`src/api.rs` whose contracts say what they claim.
