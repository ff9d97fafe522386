# downloader

A downloader for the model files of a ComfyUI desktop installation, with a
terminal interface and a small command line. The decisions it takes are
written in Verus and proved against their contracts; the program around them
does the file, network and terminal work.

## Layout

- `src/` — the verified library.
  - `text`, `paths`, `table`: string, path and string-keyed table helpers.
  - `size`: human-readable byte sizes, exactly as `{:.2}` prints them.
  - `config`, `model`, `cache`: configuration and where categories live,
    catalogue entries, remembered download sizes.
  - `file_checks`: safe file names, whether a model on disk counts as
    present, the SHA-256 checksum check.
  - `queue`: the order of the download queue (a stable sort by size, then
    file name).
  - `transfer`: HTTP status messages, request headers, download totals,
    ranged downloads and their resumption, the retry policy and one
    model's attempts, size probes.
  - `worker`: the download worker's pass over the queue (models taken
    from its end, a start and one finish reported per model, then the
    summary).
  - `catalog`, `render`, `clock`: finding models by name, listing rows and
    progress bars, log timestamps.
  - `tui`: the state machine behind the terminal interface (log, pages,
    search, selection, settings form, disk-space check, download events,
    keys and clicks).
- `tests/` — tests of the library, including the catalogue's own cases.
- `app/` — the program: configuration and cache files, HTTP transfers and
  worker threads, the ratatui screen, the command-line commands.

The program reads its catalogue from `config/models.json` (or the path in
`DOWNLOADER_MODELS`) and its default configuration from
`config.default.yaml` (or `DOWNLOADER_DEFAULT_CONFIG`).
