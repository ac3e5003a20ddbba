# yt-downloader-webui

A web front end for [yt-dlp](https://github.com/yt-dlp/yt-dlp): paste a video or playlist URL,
approve the videos that a probe finds, and watch a single worker download them.

The logic is a library that Verus verifies; around it stands a thin program.

| Place | What it holds |
|---|---|
| `src/state.rs` | the queue: ids, order, statuses, history |
| `src/worker.rs` | the worker: which item is next, what a line of output does, how a download ends; probes |
| `src/parse.rs`, `src/json.rs` | yt-dlp's output |
| `src/import.rs` | keeping queue, download directory and thumbnail cache in step |
| `src/persist.rs` | what is saved of the queue, and how it is restored |
| `src/server.rs` | what each request answers and changes |
| `src/render.rs`, `src/markup.rs`, `src/form.rs` | the HTML that the browser is sent, and what it reads back |
| `src/library.rs`, `src/thumb.rs`, `src/media.rs` | files, ranges, thumbnails, frames, media information |
| `src/config.rs`, `src/ytdlp.rs` | settings and the arguments of yt-dlp |
| `src/text.rs`, `src/digits.rs`, `src/number.rs`, `src/double.rs`, `src/clock.rs` | text, decimal numbers, binary64 numbers by their bits, time |
| `app/` | command line, processes, files, HTTP |
| `tests/` | tests of the library |

Numbers with a fraction are held as `double::Double`, the bits of an IEEE 754 binary64 number, and
computed with in integers, so that durations, sizes and percentages are exact statements.

Proof functions whose names start with `law_` state what holds of the library as a whole: that ids
stay unique, that downloads start first in first out and one at a time, that a restart keeps the
queue, that untrusted text is inert in the pages.

The program reads its page, style sheet, scripts and icons from the directory that `--static-dir`
names.
