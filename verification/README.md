# Bilibili cache converter

A desktop tool that finds the audio and video files that the Bilibili client
caches (`video.m4s`, `audio.m4s`, `.blv`, `.flv`, `.ts`, `.aac`), names them
after the titles and parts in their `entry.json`, and converts them with
FFmpeg to MP4/MKV/AVI or MP3/AAC/FLAC.

## Layout

- `src/` — the library, verified with Verus:
  - `naming.rs` — cleaning titles into safe file names and shortening them;
  - `json.rs`, `scanner.rs` — JSON parsing into the library's model and its
    lookups, file types, titles and parts,
    output names and their de-duplication, the list a scan reports;
  - `converter.rs` — encoders, GPU detection from FFmpeg's encoder list,
    output names and FFmpeg arguments, the result of each file, and the
    integrity check of a converted file;
  - `control.rs` — the state of a conversion run (start, pause, resume,
    cancel), default settings and the summary of a run;
  - `paths.rs` — output folders;
  - `logger.rs` — log levels, entry formats (plain and JSON), masking of
    user folders, log file rotation, clean-up plans and compression;
  - `calendar.rs`, `text.rs` — dates and the text operations the rest uses.
- `tests/` — tests of the library.
- `app/` — the Tauri application around the library: commands, file system
  walks, FFmpeg processes, the global logger and its files.
