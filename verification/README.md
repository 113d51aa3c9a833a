# cartoon_download

Downloading cartoon chapters (plain video files and HLS streams) and
managing the downloads kept on disk, as a verified Verus library with a thin
Tauri layer around it.

- `src/` is the library, verified by Verus:
  - `playlist`: base URLs and the segment URLs of m3u8 playlists;
  - `segments`: segment file names, resuming an interrupted HLS download, and
    the order in which segments are joined;
  - `hls`: the course of an HLS download (fetch, wait while paused, join);
  - `pause` and `store`: per-chapter pause flags;
  - `progress`: the progress record of each download and the answers to
    progress queries;
  - `chapter`: chapter records, answers and folders, and the bookkeeping
    around a download;
  - `library`: which downloaded chapters count, the latest download time,
    listing and ordering local cartoons and chapters, and the answers about
    chapter folders;
  - `order`, `text`, `numbers`: text order and stable sorting, trimming,
    decimal digits;
  - `json`, `clock`: the calls into `serde_json` and `chrono`.
- `app/` holds the Tauri commands: file and network work, shared state,
  and the serialized forms of the library's records.
- `tests/` exercises the library on concrete values.
